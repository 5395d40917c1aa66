use deploy_core::catalog::DeploymentCatalog;
use deploy_core::external::{deploy_with_fresh_id, fresh_project_id, now_timestamp};
use deploy_core::fsmodel::LocalTree;
use deploy_core::naming::{check_project_id, parse_working_prefix, working_prefix};
use deploy_core::provisioner::ProvisionerRun;
use deploy_core::request::{DeploymentRequest, FetchDeploymentRequest, ProviderRequest};
use deploy_core::response::{fetch_deployments, update_provider_in};
use deploy_core::saga::DeployOutcome;
use deploy_core::store::ObjectStore;
use deploy_core::users::{UserAccount, UserCatalog};

fn users_with_token(token: Option<&str>) -> UserCatalog {
    UserCatalog {
        users: vec![UserAccount {
            email: String::from("user@example.com"),
            user_id: String::from("64f000000000000000000001"),
            provider_key: token.map(String::from),
        }],
    }
}

#[test]
fn fresh_ids_are_usable_in_prefixes() {
    let id = fresh_project_id();
    assert_eq!(id.len(), 36);
    assert!(check_project_id(id.as_str()));
    assert!(id
        .chars()
        .all(|c| c.is_ascii_hexdigit() && !c.is_ascii_uppercase() || c == '-'));
    let wp = working_prefix("demo", id.as_str());
    let parsed = parse_working_prefix(wp.as_str()).expect("generated id must round-trip");
    assert_eq!(parsed.0, "demo");
    assert_eq!(parsed.1, id);
}

#[test]
fn fresh_ids_differ_between_draws() {
    // a fixed result would defeat the uniqueness the orchestrator relies on
    let a = fresh_project_id();
    let b = fresh_project_id();
    assert_ne!(a, b);
}

#[test]
fn timestamps_are_second_precision_shaped() {
    let t = now_timestamp();
    // "YYYY-MM-DD HH:MM:SS"
    assert_eq!(t.len(), 19);
    for (i, c) in t.chars().enumerate() {
        match i {
            4 | 7 => assert_eq!(c, '-'),
            10 => assert_eq!(c, ' '),
            13 | 16 => assert_eq!(c, ':'),
            _ => assert!(c.is_ascii_digit()),
        }
    }
}

#[test]
fn deploy_with_fresh_id_completes() {
    let users = users_with_token(Some("abc"));
    let mut store = ObjectStore::new();
    store.put("terraform/hetzner-basic/variables.tf", "token = \"__HCLOUD_TOKEN__\"");
    let mut fs = LocalTree::new();
    let mut cat = DeploymentCatalog::new();
    let req = DeploymentRequest {
        project_name: String::from("demo"),
        selected_service: String::from("AWS"),
        selected_server: String::from("cx22"),
        region: String::from("fsn1"),
        volume_size: 10,
        ip_option: String::from("dynamic"),
        ssh_key_option: None,
        ssh_key: None,
        terraform_template: String::from("hetzner-basic"),
        user_email: String::from("user@example.com"),
    };
    let run = ProvisionerRun {
        init_ok: true,
        plan_ok: true,
        apply_ok: true,
        destroy_ok: true,
        artifacts: vec![(String::from("terraform.tfstate"), String::from("{}"))],
    };
    let (pid, outcome) =
        deploy_with_fresh_id(&users, &mut store, &mut fs, &mut cat, &req, &run).unwrap();
    assert!(matches!(outcome, DeployOutcome::Completed));
    assert_eq!(cat.records.len(), 1);
    assert_eq!(cat.records[0].project_id, pid);
    assert_eq!(cat.records[0].status, "initiated");
}

#[test]
fn settings_updates_the_stored_credential() {
    let mut users = users_with_token(None);
    let req = ProviderRequest {
        user_email: String::from("user@example.com"),
        provider_key: String::from("new-token"),
    };
    let resp = update_provider_in(&mut users, &req);
    assert_eq!(resp.code, 200);
    assert_eq!(resp.status, "success");
    assert_eq!(resp.message, "Cloud provider token updated successfully");
    assert_eq!(
        users.users[0].provider_key.as_deref(),
        Some("new-token")
    );
}

#[test]
fn settings_rejects_unknown_users() {
    let mut users = users_with_token(Some("abc"));
    let req = ProviderRequest {
        user_email: String::from("nobody@example.com"),
        provider_key: String::from("x"),
    };
    let resp = update_provider_in(&mut users, &req);
    assert_eq!(resp.code, 404);
    assert_eq!(resp.message, "User not found");
    assert_eq!(users.users[0].provider_key.as_deref(), Some("abc"));
}

#[test]
fn fetch_lists_only_the_users_deployments() {
    let users = users_with_token(Some("abc"));
    let mut cat = DeploymentCatalog::new();
    let mut fs = LocalTree::new();
    let mut store = ObjectStore::new();
    store.put("terraform/t/main.tf", "x");
    let req = DeploymentRequest {
        project_name: String::from("demo"),
        selected_service: String::from("AWS"),
        selected_server: String::from("cx22"),
        region: String::from("fsn1"),
        volume_size: 10,
        ip_option: String::from("dynamic"),
        ssh_key_option: None,
        ssh_key: None,
        terraform_template: String::from("t"),
        user_email: String::from("user@example.com"),
    };
    let run = ProvisionerRun {
        init_ok: true,
        plan_ok: true,
        apply_ok: true,
        destroy_ok: true,
        artifacts: Vec::new(),
    };
    deploy_core::saga::deploy_saga(
        &users, &mut store, &mut fs, &mut cat, &req, "pid-9", "2024-01-01 00:00:00", &run,
    );
    let fetched = fetch_deployments(
        &users,
        &cat,
        &FetchDeploymentRequest { email: String::from("user@example.com") },
    )
    .unwrap();
    assert_eq!(fetched.len(), 1);
    assert_eq!(fetched[0].project_id, "pid-9");
    assert!(fetch_deployments(
        &users,
        &cat,
        &FetchDeploymentRequest { email: String::from("nobody@example.com") },
    )
    .is_none());
}
