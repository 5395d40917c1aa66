use deploy_core::catalog::DeploymentCatalog;
use deploy_core::fsmodel::LocalTree;
use deploy_core::provisioner::ProvisionerRun;
use deploy_core::request::{DeploymentRequest, UndeployRequest};
use deploy_core::response::{deploy_response, undeploy_response};
use deploy_core::saga::{deploy_saga, undeploy_saga, DeployOutcome, UndeployOutcome};
use deploy_core::store::ObjectStore;
use deploy_core::users::{UserAccount, UserCatalog};

const PID: &str = "123e4567-e89b-12d3-a456-426614174000";
const WP: &str = "deployments/demo (project_id: 123e4567-e89b-12d3-a456-426614174000)/";
const DIR: &str = "terraform-temp/demo (project_id= 123e4567-e89b-12d3-a456-426614174000)";

fn demo_request() -> DeploymentRequest {
    DeploymentRequest {
        project_name: String::from("demo"),
        selected_service: String::from("AWS"),
        selected_server: String::from("cx22"),
        region: String::from("fsn1"),
        volume_size: 10,
        ip_option: String::from("dynamic"),
        ssh_key_option: None,
        ssh_key: None,
        terraform_template: String::from("hetzner-basic"),
        user_email: String::from("user@example.com"),
    }
}

fn users_with_token(token: Option<&str>) -> UserCatalog {
    UserCatalog {
        users: vec![UserAccount {
            email: String::from("user@example.com"),
            user_id: String::from("64f000000000000000000001"),
            provider_key: token.map(String::from),
        }],
    }
}

fn template_store() -> ObjectStore {
    let mut store = ObjectStore::new();
    store.put("terraform/hetzner-basic/main.tf", "resource \"server\" {}\n");
    store.put(
        "terraform/hetzner-basic/variables.tf",
        "token = \"__HCLOUD_TOKEN__\"\n",
    );
    store
}

fn good_run() -> ProvisionerRun {
    ProvisionerRun {
        init_ok: true,
        plan_ok: true,
        apply_ok: true,
        destroy_ok: true,
        artifacts: vec![(
            String::from("terraform.tfstate"),
            String::from("{\"serial\": 1}"),
        )],
    }
}

#[test]
fn deploy_succeeds_end_to_end() {
    let users = users_with_token(Some("abc"));
    let mut store = template_store();
    let mut fs = LocalTree::new();
    let mut cat = DeploymentCatalog::new();
    let req = demo_request();
    let run = good_run();
    let outcome = deploy_saga(
        &users, &mut store, &mut fs, &mut cat, &req, PID, "2024-01-01 00:00:00", &run,
    );
    assert!(matches!(outcome, DeployOutcome::Completed));
    let resp = deploy_response(&outcome, &req);
    assert_eq!(resp.code, 200);
    assert_eq!(resp.status, "success");

    // the working prefix holds the substituted variables file ...
    let mut vtf = String::from(WP);
    vtf.push_str("variables.tf");
    assert_eq!(store.get(vtf.as_str()), Some(String::from("token = \"abc\"\n")));
    // ... the byte-identical main file ...
    let mut main_tf = String::from(WP);
    main_tf.push_str("main.tf");
    assert_eq!(
        store.get(main_tf.as_str()),
        Some(String::from("resource \"server\" {}\n"))
    );
    // ... and the state artifact the apply produced
    let mut state = String::from(WP);
    state.push_str("terraform.tfstate");
    assert_eq!(store.get(state.as_str()), Some(String::from("{\"serial\": 1}")));

    // exactly one catalog record, with the chosen id and status `initiated`
    assert_eq!(cat.records.len(), 1);
    let rec = &cat.records[0];
    assert_eq!(rec.project_id, PID);
    assert_eq!(rec.status, "initiated");
    assert_eq!(rec.timestamp, "2024-01-01 00:00:00");
    assert_eq!(rec.user_id, "64f000000000000000000001");

    // the local working directory is gone
    assert!(!fs.dir_exists(DIR));
}

#[test]
fn deploy_with_zero_volume_writes_nothing() {
    let users = users_with_token(Some("abc"));
    let mut store = template_store();
    let before = store.list_under("");
    let mut fs = LocalTree::new();
    let mut cat = DeploymentCatalog::new();
    let mut req = demo_request();
    req.volume_size = 0;
    let run = good_run();
    let outcome = deploy_saga(
        &users, &mut store, &mut fs, &mut cat, &req, PID, "2024-01-01 00:00:00", &run,
    );
    let resp = deploy_response(&outcome, &req);
    assert_eq!(resp.code, 400);
    assert_eq!(resp.message, "Volume size must be greater than 0");
    assert_eq!(store.list_under(""), before);
    assert!(cat.records.is_empty());
}

#[test]
fn deploy_without_credential_mentions_the_provider() {
    let users = users_with_token(None);
    let mut store = template_store();
    let before = store.list_under("");
    let mut fs = LocalTree::new();
    let mut cat = DeploymentCatalog::new();
    let req = demo_request();
    let run = good_run();
    let outcome = deploy_saga(
        &users, &mut store, &mut fs, &mut cat, &req, PID, "2024-01-01 00:00:00", &run,
    );
    assert!(matches!(outcome, DeployOutcome::ProviderUnset));
    let resp = deploy_response(&outcome, &req);
    assert_eq!(resp.code, 400);
    assert_eq!(
        resp.message,
        "Cloud provider not set for this user. Cannot proceed with deployment."
    );
    assert_eq!(store.list_under(""), before);
    assert!(cat.records.is_empty());
}

#[test]
fn deploy_with_failing_apply_keeps_evidence() {
    let users = users_with_token(Some("abc"));
    let mut store = template_store();
    let mut fs = LocalTree::new();
    let mut cat = DeploymentCatalog::new();
    let req = demo_request();
    let mut run = good_run();
    run.apply_ok = false;
    let outcome = deploy_saga(
        &users, &mut store, &mut fs, &mut cat, &req, PID, "2024-01-01 00:00:00", &run,
    );
    assert!(matches!(outcome, DeployOutcome::ExecError));
    let resp = deploy_response(&outcome, &req);
    assert_eq!(resp.code, 500);
    // no catalog record
    assert!(cat.records.is_empty());
    // the working prefix is populated for inspection
    let mut vtf = String::from(WP);
    vtf.push_str("variables.tf");
    assert_eq!(store.get(vtf.as_str()), Some(String::from("token = \"abc\"\n")));
    // the local directory is left in place for inspection
    assert!(fs.dir_exists(DIR));
}

#[test]
fn undeploy_tears_the_deployment_down() {
    let users = users_with_token(Some("abc"));
    let mut store = template_store();
    let mut fs = LocalTree::new();
    let mut cat = DeploymentCatalog::new();
    let req = demo_request();
    let run = good_run();
    let outcome = deploy_saga(
        &users, &mut store, &mut fs, &mut cat, &req, PID, "2024-01-01 00:00:00", &run,
    );
    assert!(matches!(outcome, DeployOutcome::Completed));

    let undeploy_req = UndeployRequest {
        user_email: String::from("user@example.com"),
        project_id: String::from(PID),
        project_name: String::from("demo"),
    };
    let outcome = undeploy_saga(&users, &mut store, &mut fs, &mut cat, &undeploy_req, &run);
    assert!(matches!(outcome, UndeployOutcome::Deleted));
    let resp = undeploy_response(&outcome, &undeploy_req);
    assert_eq!(resp.code, 200);
    assert_eq!(resp.status, "success");
    assert_eq!(
        resp.message,
        format!("Deployment with project_id '{}' deleted successfully.", PID)
    );
    // prefix empty, record gone, local dir gone
    assert!(store.list_under(WP).is_empty());
    assert!(cat.records.is_empty());
    assert!(!fs.dir_exists(DIR));
    // the template itself is untouched
    assert_eq!(store.list_under("terraform/").len(), 2);
}

#[test]
fn undeploy_of_unknown_project_returns_not_found() {
    let users = users_with_token(Some("abc"));
    let mut store = template_store();
    let mut fs = LocalTree::new();
    let mut cat = DeploymentCatalog::new();
    let req = UndeployRequest {
        user_email: String::from("user@example.com"),
        project_id: String::from("never-existed"),
        project_name: String::from("demo"),
    };
    let run = good_run();
    let outcome = undeploy_saga(&users, &mut store, &mut fs, &mut cat, &req, &run);
    assert!(matches!(outcome, UndeployOutcome::NoFiles));
    let resp = undeploy_response(&outcome, &req);
    assert_eq!(resp.code, 404);
    assert_eq!(resp.message, "No files found in S3 for the given project_id");
    assert!(cat.records.is_empty());
}

#[test]
fn undeploy_with_empty_prefix_leaves_catalog_alone() {
    let users = users_with_token(Some("abc"));
    let mut store = ObjectStore::new();
    let mut fs = LocalTree::new();
    let mut cat = DeploymentCatalog::new();
    // a record exists, but the prefix has no objects: 404 and no catalog change
    let mut cat_store = template_store();
    let req = demo_request();
    let run = good_run();
    deploy_saga(
        &users, &mut cat_store, &mut fs, &mut cat, &req, PID, "2024-01-01 00:00:00", &run,
    );
    assert_eq!(cat.records.len(), 1);
    let undeploy_req = UndeployRequest {
        user_email: String::from("user@example.com"),
        project_id: String::from(PID),
        project_name: String::from("demo"),
    };
    let outcome = undeploy_saga(&users, &mut store, &mut fs, &mut cat, &undeploy_req, &run);
    assert!(matches!(outcome, UndeployOutcome::NoFiles));
    assert_eq!(cat.records.len(), 1);
}

#[test]
fn undeploy_with_failing_destroy_aborts() {
    let users = users_with_token(Some("abc"));
    let mut store = template_store();
    let mut fs = LocalTree::new();
    let mut cat = DeploymentCatalog::new();
    let req = demo_request();
    let run = good_run();
    deploy_saga(
        &users, &mut store, &mut fs, &mut cat, &req, PID, "2024-01-01 00:00:00", &run,
    );
    let undeploy_req = UndeployRequest {
        user_email: String::from("user@example.com"),
        project_id: String::from(PID),
        project_name: String::from("demo"),
    };
    let mut bad_run = good_run();
    bad_run.destroy_ok = false;
    let outcome = undeploy_saga(&users, &mut store, &mut fs, &mut cat, &undeploy_req, &bad_run);
    assert!(matches!(outcome, UndeployOutcome::DestroyFailed));
    let resp = undeploy_response(&outcome, &undeploy_req);
    assert_eq!(resp.code, 500);
    // nothing purged, record kept
    assert!(!store.list_under(WP).is_empty());
    assert_eq!(cat.records.len(), 1);
}

#[test]
fn undeploy_for_unknown_user_is_rejected() {
    let users = users_with_token(Some("abc"));
    let mut store = template_store();
    let mut fs = LocalTree::new();
    let mut cat = DeploymentCatalog::new();
    let req = UndeployRequest {
        user_email: String::from("nobody@example.com"),
        project_id: String::from(PID),
        project_name: String::from("demo"),
    };
    let run = good_run();
    let outcome = undeploy_saga(&users, &mut store, &mut fs, &mut cat, &req, &run);
    assert!(matches!(outcome, UndeployOutcome::UserNotFound));
    let resp = undeploy_response(&outcome, &req);
    assert_eq!(resp.code, 400);
    assert_eq!(
        resp.message,
        "User with email 'nobody@example.com' not found"
    );
}

#[test]
fn deploy_for_unknown_user_is_rejected() {
    let users = users_with_token(Some("abc"));
    let mut store = template_store();
    let mut fs = LocalTree::new();
    let mut cat = DeploymentCatalog::new();
    let mut req = demo_request();
    req.user_email = String::from("nobody@example.com");
    let run = good_run();
    let outcome = deploy_saga(
        &users, &mut store, &mut fs, &mut cat, &req, PID, "2024-01-01 00:00:00", &run,
    );
    assert!(matches!(outcome, DeployOutcome::UserNotFound));
    let resp = deploy_response(&outcome, &req);
    assert_eq!(resp.code, 400);
    assert_eq!(resp.message, "User with email 'nobody@example.com' not found");
}

#[test]
fn concurrent_deploys_with_distinct_ids_do_not_interfere() {
    let users = users_with_token(Some("abc"));
    let mut store = template_store();
    let mut fs = LocalTree::new();
    let mut cat = DeploymentCatalog::new();
    let req = demo_request();
    let run = good_run();
    let first = deploy_saga(
        &users, &mut store, &mut fs, &mut cat, &req, "pid-1", "2024-01-01 00:00:00", &run,
    );
    let second = deploy_saga(
        &users, &mut store, &mut fs, &mut cat, &req, "pid-2", "2024-01-01 00:00:01", &run,
    );
    assert!(matches!(first, DeployOutcome::Completed));
    assert!(matches!(second, DeployOutcome::Completed));
    assert_eq!(cat.records.len(), 2);
    assert_eq!(
        store
            .list_under("deployments/demo (project_id: pid-1)/")
            .len(),
        3
    );
    assert_eq!(
        store
            .list_under("deployments/demo (project_id: pid-2)/")
            .len(),
        3
    );
}
