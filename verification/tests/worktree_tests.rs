use deploy_core::fsmodel::LocalTree;
use deploy_core::store::ObjectStore;
use deploy_core::worktree::{materialize, mirror_back};

#[test]
fn materialize_writes_the_tree_under_the_local_dir() {
    let mut store = ObjectStore::new();
    store.put("deployments/demo (project_id: p1)/main.tf", "a");
    store.put("deployments/demo (project_id: p1)/modules/net.tf", "b");
    let mut fs = LocalTree::new();
    let dir = materialize(&store, &mut fs, "deployments/demo (project_id: p1)/")
        .expect("prefix parses");
    assert_eq!(dir, "terraform-temp/demo (project_id= p1)");
    assert!(fs.dir_exists(dir.as_str()));
    assert_eq!(
        fs.read_file("terraform-temp/demo (project_id= p1)/main.tf"),
        Some(String::from("a"))
    );
    assert_eq!(
        fs.read_file("terraform-temp/demo (project_id= p1)/modules/net.tf"),
        Some(String::from("b"))
    );
}

#[test]
fn materialize_rejects_a_malformed_prefix() {
    let store = ObjectStore::new();
    let mut fs = LocalTree::new();
    assert!(materialize(&store, &mut fs, "deployments/broken").is_none());
    assert!(!fs.dir_exists("terraform-temp/broken"));
}

#[test]
fn materialize_then_mirror_back_preserves_every_file() {
    let mut store = ObjectStore::new();
    store.put("deployments/demo (project_id: p1)/main.tf", "resource {}");
    store.put("deployments/demo (project_id: p1)/modules/net.tf", "net");
    let mut fs = LocalTree::new();
    let dir = materialize(&store, &mut fs, "deployments/demo (project_id: p1)/").unwrap();

    let mut second = ObjectStore::new();
    mirror_back(&fs, &mut second, dir.as_str(), "deployments/demo (project_id: p1)/");
    assert_eq!(
        second.get("deployments/demo (project_id: p1)/main.tf"),
        Some(String::from("resource {}"))
    );
    assert_eq!(
        second.get("deployments/demo (project_id: p1)/modules/net.tf"),
        Some(String::from("net"))
    );
}

#[test]
fn mirror_back_uploads_new_local_files() {
    let mut fs = LocalTree::new();
    fs.create_dir("terraform-temp/demo (project_id= p1)");
    fs.write_file(
        "terraform-temp/demo (project_id= p1)/terraform.tfstate",
        "{\"serial\": 1}",
    );
    let mut store = ObjectStore::new();
    mirror_back(
        &fs,
        &mut store,
        "terraform-temp/demo (project_id= p1)",
        "deployments/demo (project_id: p1)/",
    );
    assert_eq!(
        store.get("deployments/demo (project_id: p1)/terraform.tfstate"),
        Some(String::from("{\"serial\": 1}"))
    );
}

#[test]
fn remove_tree_deletes_dir_and_files() {
    let mut fs = LocalTree::new();
    fs.create_dir("terraform-temp/demo (project_id= p1)");
    fs.write_file("terraform-temp/demo (project_id= p1)/main.tf", "x");
    fs.write_file("elsewhere/file", "y");
    fs.remove_tree("terraform-temp/demo (project_id= p1)");
    assert!(!fs.dir_exists("terraform-temp/demo (project_id= p1)"));
    assert_eq!(fs.read_file("terraform-temp/demo (project_id= p1)/main.tf"), None);
    assert_eq!(fs.read_file("elsewhere/file"), Some(String::from("y")));
}
