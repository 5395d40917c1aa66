use deploy_core::replace::{apply_pairs, replace_all};
use deploy_core::text::{contains_exec, find_from, is_blank, str_eq};
use deploy_core::transform::rewrite_variables;

fn pair(a: &str, b: &str) -> (String, String) {
    (String::from(a), String::from(b))
}

#[test]
fn replaces_every_occurrence() {
    let out = replace_all("token = \"__HCLOUD_TOKEN__\" # __HCLOUD_TOKEN__", "__HCLOUD_TOKEN__", "abc");
    assert_eq!(out, "token = \"abc\" # abc");
}

#[test]
fn replacement_is_leftmost_and_does_not_rescan() {
    // the same behaviour as `str::replace`
    assert_eq!(replace_all("aaa", "aa", "x"), "xa");
    assert_eq!(replace_all("aab", "ab", "b"), "ab");
    assert_eq!(replace_all("abc", "", "x"), "abc");
}

#[test]
fn no_occurrence_leaves_content_unchanged() {
    assert_eq!(replace_all("server", "__MISSING__", "x"), "server");
}

#[test]
fn applies_pairs_in_order() {
    let pairs = vec![pair("__A__", "__B__ 1"), pair("__B__", "2")];
    // the first replacement introduces __B__, which the second then replaces
    assert_eq!(apply_pairs("__A__", &pairs), "2 1");
}

#[test]
fn rewrite_substitutes_placeholders_and_distro() {
    let pairs = vec![
        pair("__NODE_NAME__", "demo-server"),
        pair("__SERVER_TYPE__", "cx22"),
        pair("__LOCATION__", "fsn1"),
        pair("__HCLOUD_TOKEN__", "abc"),
    ];
    let content = "name = \"__NODE_NAME__\"\ntype = \"__SERVER_TYPE__\"\nloc = \"__LOCATION__\"\ntoken = \"__HCLOUD_TOKEN__\"\nimage = \"__DISTRO__\"\n";
    let out = rewrite_variables(content, &pairs, Some("ubuntu-24.04"));
    assert_eq!(
        out,
        "name = \"demo-server\"\ntype = \"cx22\"\nloc = \"fsn1\"\ntoken = \"abc\"\nimage = \"ubuntu-24.04\"\n"
    );
}

#[test]
fn rewrite_defaults_the_distro() {
    let out = rewrite_variables("image = \"__DISTRO__\"", &Vec::new(), None);
    assert_eq!(out, "image = \"debian-12\"");
}

#[test]
fn rewrite_leaves_no_placeholder_behind() {
    let pairs = vec![
        pair("__NODE_NAME__", "demo-server"),
        pair("__SERVER_TYPE__", "cx22"),
        pair("__LOCATION__", "fsn1"),
        pair("__HCLOUD_TOKEN__", "abc"),
    ];
    let content = "__NODE_NAME__ __SERVER_TYPE__ __LOCATION__ __HCLOUD_TOKEN__ __DISTRO__";
    let out = rewrite_variables(content, &pairs, None);
    for placeholder in [
        "__NODE_NAME__",
        "__SERVER_TYPE__",
        "__LOCATION__",
        "__HCLOUD_TOKEN__",
        "__DISTRO__",
    ] {
        assert!(!contains_exec(out.as_str(), placeholder));
    }
}

#[test]
fn text_helpers() {
    assert!(is_blank("  \t\r\n"));
    assert!(!is_blank(" a "));
    assert!(str_eq("abc", "abc"));
    assert!(!str_eq("abc", "abd"));
    assert!(contains_exec("hello world", "lo w"));
    assert!(!contains_exec("hello", "world"));
    assert_eq!(find_from("abcabc", "bc", 0), Some(1));
    assert_eq!(find_from("abcabc", "bc", 2), Some(4));
    assert_eq!(find_from("abcabc", "zz", 0), None);
}
