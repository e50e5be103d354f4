use unzip::path_safety::{is_safe_path, resolve_entry_path};

#[test]
fn plain_nested_name_is_accepted() {
    assert!(is_safe_path("a/b/c"));
    let resolved = resolve_entry_path("a/b/c").unwrap();
    assert_eq!(resolved, vec!["a".to_string(), "b".to_string(), "c".to_string()]);
}

#[test]
fn leading_parent_dir_is_rejected() {
    assert!(!is_safe_path("../evil"));
    assert!(resolve_entry_path("../evil").is_none());
}

#[test]
fn climbing_above_the_root_is_rejected() {
    assert!(!is_safe_path("a/../../evil"));
}

#[test]
fn balanced_parent_dir_resolves() {
    assert!(is_safe_path("a/../b"));
    let resolved = resolve_entry_path("a/../b").unwrap();
    assert_eq!(resolved, vec!["b".to_string()]);
}

#[test]
fn null_byte_is_rejected() {
    assert!(!is_safe_path("a\0b"));
    assert!(!is_safe_path("\0"));
}

#[test]
fn absolute_name_is_rejected() {
    assert!(!is_safe_path("/etc/passwd"));
    assert!(!is_safe_path("/"));
}

#[test]
fn current_dir_components_are_skipped() {
    let resolved = resolve_entry_path("./a/./b").unwrap();
    assert_eq!(resolved, vec!["a".to_string(), "b".to_string()]);
}

#[test]
fn directory_marker_keeps_its_component() {
    let resolved = resolve_entry_path("dir/").unwrap();
    assert_eq!(resolved, vec!["dir".to_string()]);
}

#[test]
fn empty_name_resolves_to_nothing() {
    let resolved = resolve_entry_path("").unwrap();
    assert!(resolved.is_empty());
}
