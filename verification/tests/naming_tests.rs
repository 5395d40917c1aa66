use deploy_core::naming::{
    check_project_id, check_project_name, local_dir, parse_working_prefix, template_prefix,
    working_prefix,
};
use deploy_core::worktree::{join_under_prefix, trim_slashes};

#[test]
fn renders_the_working_prefix() {
    let wp = working_prefix("demo", "123e4567-e89b-12d3-a456-426614174000");
    assert_eq!(
        wp,
        "deployments/demo (project_id: 123e4567-e89b-12d3-a456-426614174000)/"
    );
}

#[test]
fn renders_the_template_prefix() {
    assert_eq!(template_prefix("hetzner-basic"), "terraform/hetzner-basic/");
}

#[test]
fn renders_the_local_dir_with_equals_sign() {
    let d = local_dir("demo", "abc");
    assert_eq!(d, "terraform-temp/demo (project_id= abc)");
}

#[test]
fn distinct_ids_give_distinct_local_dirs() {
    assert_ne!(local_dir("demo", "pid-1"), local_dir("demo", "pid-2"));
    assert_ne!(local_dir("alpha", "pid-1"), local_dir("beta", "pid-1"));
}

#[test]
fn parses_a_rendered_prefix_back() {
    let wp = working_prefix("demo", "abc-123");
    let parsed = parse_working_prefix(wp.as_str()).expect("well-formed prefix must parse");
    assert_eq!(parsed.0, "demo");
    assert_eq!(parsed.1, "abc-123");
}

#[test]
fn parses_names_with_spaces() {
    let wp = working_prefix("my web shop", "id-1");
    let parsed = parse_working_prefix(wp.as_str()).unwrap();
    assert_eq!(parsed.0, "my web shop");
    assert_eq!(parsed.1, "id-1");
}

#[test]
fn rejects_malformed_prefixes() {
    assert!(parse_working_prefix("terraform/hetzner-basic/").is_none());
    assert!(parse_working_prefix("deployments/demo/").is_none());
    assert!(parse_working_prefix("deployments/demo (project_id: )/").is_none());
    assert!(parse_working_prefix("deployments/ (project_id: abc)/").is_none());
    assert!(parse_working_prefix("deployments/demo (project_id: abc)").is_none());
    assert!(parse_working_prefix("deployments/demo (project_id: abc)/extra").is_none());
}

#[test]
fn name_and_id_checks() {
    assert!(check_project_name("demo"));
    assert!(!check_project_name(""));
    assert!(!check_project_name("evil (project_id: x)/name"));
    assert!(check_project_id("123e4567"));
    assert!(!check_project_id(""));
    assert!(!check_project_id("a)/b"));
}

#[test]
fn trims_trailing_slashes_only() {
    assert_eq!(trim_slashes("deployments/demo (project_id: a)/"), "deployments/demo (project_id: a)");
    assert_eq!(trim_slashes("abc"), "abc");
    assert_eq!(trim_slashes("abc///"), "abc");
    assert_eq!(trim_slashes(""), "");
}

#[test]
fn joins_relative_paths_under_a_prefix() {
    let wp = working_prefix("demo", "a");
    let joined = join_under_prefix(wp.as_str(), "terraform.tfstate");
    assert_eq!(
        joined,
        "deployments/demo (project_id: a)/terraform.tfstate"
    );
}
