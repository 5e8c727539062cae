use cargo_unused_workspace_deps::{
    compute_unused, remove_deps_from_workspace, AuditError,
};

const COMMENTED_WS: &str = r#"# Shared dependency versions live here.
[workspace]
members = ["pkg"]

[workspace.dependencies]
# serde stays pinned for the whole workspace.
serde = "1"
hashbrown = "0.14"
extra = { version = "2", features = ["alloc"] }

[profile.release]
opt-level = 3
"#;

#[test]
fn removal_preserves_comments_and_formatting() {
    let deps = vec!["hashbrown".to_owned()];
    let out = remove_deps_from_workspace(COMMENTED_WS, &deps).unwrap();
    let expected = r#"# Shared dependency versions live here.
[workspace]
members = ["pkg"]

[workspace.dependencies]
# serde stays pinned for the whole workspace.
serde = "1"
extra = { version = "2", features = ["alloc"] }

[profile.release]
opt-level = 3
"#;
    assert_eq!(out, expected);
}

#[test]
fn removing_nothing_changes_nothing() {
    let deps: Vec<String> = Vec::new();
    let out = remove_deps_from_workspace(COMMENTED_WS, &deps).unwrap();
    assert_eq!(out, COMMENTED_WS);
}

#[test]
fn removing_absent_name_is_removal_error() {
    let deps = vec!["nonexistent".to_owned()];
    let err = remove_deps_from_workspace(COMMENTED_WS, &deps).unwrap_err();
    assert_eq!(err, AuditError::Removal);
}

#[test]
fn removing_same_name_twice_is_removal_error() {
    let deps = vec!["serde".to_owned(), "serde".to_owned()];
    let err = remove_deps_from_workspace(COMMENTED_WS, &deps).unwrap_err();
    assert_eq!(err, AuditError::Removal);
}

#[test]
fn removal_parse_error() {
    let deps: Vec<String> = Vec::new();
    let err = remove_deps_from_workspace("] broken", &deps).unwrap_err();
    assert_eq!(err, AuditError::Parse);
}

#[test]
fn removal_without_workspace_table_is_structure_error() {
    let deps: Vec<String> = Vec::new();
    let err = remove_deps_from_workspace("[package]\nname = \"x\"\n", &deps).unwrap_err();
    assert_eq!(err, AuditError::Structure);
}

#[test]
fn compute_unused_subtracts_and_sorts() {
    let declared = vec![
        "zlib".to_owned(),
        "serde".to_owned(),
        "apple".to_owned(),
        "hashbrown".to_owned(),
    ];
    let referenced = vec!["serde".to_owned(), "serde".to_owned()];
    let unused = compute_unused(&declared, &referenced);
    assert_eq!(
        unused,
        vec!["apple".to_owned(), "hashbrown".to_owned(), "zlib".to_owned()]
    );
}

#[test]
fn compute_unused_ignores_references_not_declared() {
    let declared = vec!["serde".to_owned()];
    let referenced = vec!["serde".to_owned(), "undeclared".to_owned()];
    let unused = compute_unused(&declared, &referenced);
    assert_eq!(unused, Vec::<String>::new());
}

#[test]
fn compute_unused_deduplicates_declared_names() {
    let declared = vec!["b".to_owned(), "a".to_owned(), "b".to_owned()];
    let referenced: Vec<String> = Vec::new();
    let unused = compute_unused(&declared, &referenced);
    assert_eq!(unused, vec!["a".to_owned(), "b".to_owned()]);
}

#[test]
fn compute_unused_orders_a_prefix_before_its_extension() {
    let declared = vec!["abc".to_owned(), "ab".to_owned(), "b".to_owned()];
    let referenced: Vec<String> = Vec::new();
    let unused = compute_unused(&declared, &referenced);
    assert_eq!(
        unused,
        vec!["ab".to_owned(), "abc".to_owned(), "b".to_owned()]
    );
}

#[test]
fn compute_unused_orders_by_code_point() {
    let declared = vec!["b".to_owned(), "A".to_owned()];
    let referenced: Vec<String> = Vec::new();
    let unused = compute_unused(&declared, &referenced);
    assert_eq!(unused, vec!["A".to_owned(), "b".to_owned()]);
}

#[test]
fn emptied_implicit_table_disappears_from_output() {
    // `workspace` and `dependencies` exist only through the deeper header,
    // so once their last entry is gone the renderer drops them entirely.
    let ws = "[workspace.dependencies.serde]\nversion = \"1\"\n";
    let deps = vec!["serde".to_owned()];
    let out = remove_deps_from_workspace(ws, &deps).unwrap();
    assert!(!out.contains("workspace"));
}

#[test]
fn emptied_dotted_key_table_disappears_from_output() {
    let ws = "workspace.dependencies.serde = \"1\"\n";
    let deps = vec!["serde".to_owned()];
    let out = remove_deps_from_workspace(ws, &deps).unwrap();
    assert!(!out.contains("workspace"));
}

#[test]
fn removal_keeps_remaining_subtable_entries() {
    let ws = "[workspace.dependencies.serde]\nversion = \"1\"\n\n[workspace.dependencies.hashbrown]\nversion = \"0.14\"\n";
    let deps = vec!["hashbrown".to_owned()];
    let out = remove_deps_from_workspace(ws, &deps).unwrap();
    assert!(out.contains("serde"));
    assert!(!out.contains("hashbrown"));
}
