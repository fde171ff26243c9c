use pig_core::paths::{
    file_name, join_path, lies_below, normalize_workspace_path, parent_path, relative_path,
};

fn normal(p: &str) -> String {
    normalize_workspace_path(p, Some("/home/u"), Some("/work/dir"))
}

#[test]
fn strips_trailing_and_duplicate_separators() {
    assert_eq!(normal("/Users/x/a/"), "/Users/x/a");
    assert_eq!(normal("/Users/x//a//b/"), "/Users/x/a/b");
    assert_eq!(normal("/"), "/");
}

#[test]
fn resolves_dot_segments_lexically() {
    assert_eq!(normal("/Users/x/a/./b/../c"), "/Users/x/a/c");
    assert_eq!(normal("/a/../../b"), "/b");
}

#[test]
fn expands_tilde() {
    assert_eq!(normal("~"), "/home/u");
    assert_eq!(normal("~/a/b"), "/home/u/a/b");
}

#[test]
fn absolutizes_relative_paths() {
    assert_eq!(normal("a/b"), "/work/dir/a/b");
}

#[test]
fn keeps_case_and_spelling() {
    assert_ne!(normal("/Users/x/a"), normal("/users/x/a"));
}

#[test]
fn a_normal_path_stays_as_it_is() {
    for p in ["/a//b/../c/", "~/x/./y", "rel/../q"] {
        let once = normal(p);
        assert_eq!(normal(&once), once);
        assert_eq!(normal(&format!("{once}/")), once);
    }
}

#[test]
fn names_and_parents() {
    assert_eq!(file_name("/w/a.txt"), Some("a.txt".to_string()));
    assert_eq!(file_name("/w/a/"), Some("a".to_string()));
    assert_eq!(file_name("/w/.."), None);
    assert_eq!(file_name("/"), None);
    assert_eq!(parent_path("/w/a.txt"), Some("/w".to_string()));
    assert_eq!(parent_path("/w//x/./a/"), Some("/w//x".to_string()));
    assert_eq!(parent_path("/a"), Some("/".to_string()));
    assert_eq!(parent_path("/"), None);
    assert_eq!(join_path("/w", "/abs"), "/abs");
    assert_eq!(join_path("/w", "a"), "/w/a");
    assert!(lies_below("/w/a/b", "/w/a"));
    assert!(!lies_below("/w/ab", "/w/a"));
    assert_eq!(relative_path("/w/a\\b", "/real", "/w"), "a/b");
}
