use deploy_core::store::ObjectStore;
use deploy_core::transform::transform_prefix;

fn pair(a: &str, b: &str) -> (String, String) {
    (String::from(a), String::from(b))
}

fn template_store() -> ObjectStore {
    let mut store = ObjectStore::new();
    store.put("terraform/hetzner-basic/main.tf", "resource \"server\" {}\n");
    store.put(
        "terraform/hetzner-basic/variables.tf",
        "token = \"__HCLOUD_TOKEN__\"\nimage = \"__DISTRO__\"\n",
    );
    store
}

#[test]
fn copies_files_byte_identically_except_variables() {
    let mut store = template_store();
    let pairs = vec![pair("__HCLOUD_TOKEN__", "abc")];
    transform_prefix(
        &mut store,
        "terraform/hetzner-basic/",
        "deployments/demo (project_id: p1)/",
        &pairs,
        None,
    );
    assert_eq!(
        store.get("deployments/demo (project_id: p1)/main.tf"),
        Some(String::from("resource \"server\" {}\n"))
    );
    assert_eq!(
        store.get("deployments/demo (project_id: p1)/variables.tf"),
        Some(String::from("token = \"abc\"\nimage = \"debian-12\"\n"))
    );
    // the template itself is untouched
    assert_eq!(
        store.get("terraform/hetzner-basic/main.tf"),
        Some(String::from("resource \"server\" {}\n"))
    );
}

#[test]
fn empty_template_prefix_writes_nothing() {
    let mut store = ObjectStore::new();
    store.put("unrelated/key", "content");
    let before = store.list_under("");
    transform_prefix(
        &mut store,
        "terraform/empty/",
        "deployments/demo (project_id: p1)/",
        &Vec::new(),
        None,
    );
    let after = store.list_under("");
    assert_eq!(before, after);
    assert!(store.list_under("deployments/").is_empty());
}

#[test]
fn empty_replacement_map_copies_with_default_distro() {
    let mut store = template_store();
    transform_prefix(
        &mut store,
        "terraform/hetzner-basic/",
        "deployments/demo (project_id: p2)/",
        &Vec::new(),
        None,
    );
    assert_eq!(
        store.get("deployments/demo (project_id: p2)/main.tf"),
        Some(String::from("resource \"server\" {}\n"))
    );
    assert_eq!(
        store.get("deployments/demo (project_id: p2)/variables.tf"),
        Some(String::from("token = \"__HCLOUD_TOKEN__\"\nimage = \"debian-12\"\n"))
    );
}

#[test]
fn overwrites_an_already_populated_destination() {
    let mut store = template_store();
    store.put("deployments/demo (project_id: p3)/main.tf", "stale");
    transform_prefix(
        &mut store,
        "terraform/hetzner-basic/",
        "deployments/demo (project_id: p3)/",
        &Vec::new(),
        None,
    );
    assert_eq!(
        store.get("deployments/demo (project_id: p3)/main.tf"),
        Some(String::from("resource \"server\" {}\n"))
    );
}
