use cargo_unused_workspace_deps::{
    audit_workspace, list_package_workspace_deps, read_workspace_deps, AuditError, AuditOutcome,
};

const WS_SERDE_HASHBROWN: &str = r#"[workspace]
members = ["pkg"]

[workspace.dependencies]
serde = "1"
hashbrown = "0.14"
"#;

const WS_SERDE: &str = r#"[workspace]
members = ["pkg"]

[workspace.dependencies]
serde = "1"
"#;

const PKG_USES_SERDE: &str = r#"[package]
name = "pkg"
version = "0.1.0"

[dependencies]
serde = { workspace = true }
"#;

const PKG_USES_SERDE_WINDOWS_ONLY: &str = r#"[package]
name = "pkg"
version = "0.1.0"

[target.'cfg(windows)'.dependencies]
serde = { workspace = true }
"#;

const PKG_USES_NOTHING: &str = r#"[package]
name = "pkg"
version = "0.1.0"
"#;

#[test]
fn scenario_a_reports_hashbrown() {
    let pkgs = vec![PKG_USES_SERDE.to_owned()];
    let outcome = audit_workspace(WS_SERDE_HASHBROWN, &pkgs, false).unwrap();
    match outcome {
        AuditOutcome::UnusedFound { unused } => {
            assert_eq!(unused, vec!["hashbrown".to_owned()]);
        }
        _ => panic!("expected an unused-dependency report"),
    }
}

#[test]
fn scenario_a_fix_removes_only_hashbrown() {
    let pkgs = vec![PKG_USES_SERDE.to_owned()];
    let outcome = audit_workspace(WS_SERDE_HASHBROWN, &pkgs, true).unwrap();
    match outcome {
        AuditOutcome::Fixed {
            unused,
            new_manifest,
        } => {
            assert_eq!(unused, vec!["hashbrown".to_owned()]);
            let expected = r#"[workspace]
members = ["pkg"]

[workspace.dependencies]
serde = "1"
"#;
            assert_eq!(new_manifest, expected);
            // Running the audit again on the fixed manifest finds nothing.
            let outcome = audit_workspace(&new_manifest, &pkgs, true).unwrap();
            assert!(matches!(outcome, AuditOutcome::AllUsed));
        }
        _ => panic!("expected a fixed manifest"),
    }
}

#[test]
fn scenario_b_conditional_reference_counts() {
    let pkgs = vec![PKG_USES_SERDE_WINDOWS_ONLY.to_owned()];
    let outcome = audit_workspace(WS_SERDE, &pkgs, false).unwrap();
    assert!(matches!(outcome, AuditOutcome::AllUsed));
}

#[test]
fn scenario_c_nothing_referenced() {
    let pkgs = vec![PKG_USES_NOTHING.to_owned()];
    let outcome = audit_workspace(WS_SERDE, &pkgs, false).unwrap();
    match outcome {
        AuditOutcome::UnusedFound { unused } => {
            assert_eq!(unused, vec!["serde".to_owned()]);
        }
        _ => panic!("expected an unused-dependency report"),
    }
}

#[test]
fn scenario_c_fix_leaves_empty_table() {
    let pkgs = vec![PKG_USES_NOTHING.to_owned()];
    let outcome = audit_workspace(WS_SERDE, &pkgs, true).unwrap();
    match outcome {
        AuditOutcome::Fixed {
            unused,
            new_manifest,
        } => {
            assert_eq!(unused, vec!["serde".to_owned()]);
            // The table itself stays, empty.
            let entries = read_workspace_deps(&new_manifest).unwrap();
            assert_eq!(entries.len(), 0);
        }
        _ => panic!("expected a fixed manifest"),
    }
}

#[test]
fn audit_with_no_unused_never_rewrites() {
    // With an empty unused set the fix run reports success without producing
    // a new manifest text, so the file on disk stays byte-for-byte the same.
    let pkgs = vec![PKG_USES_SERDE.to_owned()];
    let outcome = audit_workspace(WS_SERDE, &pkgs, true).unwrap();
    assert!(matches!(outcome, AuditOutcome::AllUsed));
}

#[test]
fn report_is_sorted_regardless_of_package_order() {
    let ws = r#"[workspace]

[workspace.dependencies]
zlib = "1"
apple = "1"
middle = "1"
"#;
    let pkgs_one: Vec<String> = Vec::new();
    let outcome = audit_workspace(ws, &pkgs_one, false).unwrap();
    let first = match outcome {
        AuditOutcome::UnusedFound { unused } => unused,
        _ => panic!("expected an unused-dependency report"),
    };
    assert_eq!(
        first,
        vec!["apple".to_owned(), "middle".to_owned(), "zlib".to_owned()]
    );

    // Two discovery orders of the same packages give the identical report.
    let pkg_a = r#"[dependencies]
apple = { workspace = true }
"#;
    let pkg_b = r#"[dev-dependencies]
middle = { workspace = true }
"#;
    let order_one = vec![pkg_a.to_owned(), pkg_b.to_owned()];
    let order_two = vec![pkg_b.to_owned(), pkg_a.to_owned()];
    let report = |pkgs: &Vec<String>| -> Vec<String> {
        match audit_workspace(ws, pkgs, false).unwrap() {
            AuditOutcome::UnusedFound { unused } => unused,
            _ => panic!("expected an unused-dependency report"),
        }
    };
    assert_eq!(report(&order_one), report(&order_two));
    assert_eq!(report(&order_one), vec!["zlib".to_owned()]);
}

#[test]
fn workspace_parse_error() {
    let pkgs: Vec<String> = Vec::new();
    let err = audit_workspace("not [ valid toml", &pkgs, false).unwrap_err();
    assert_eq!(err, AuditError::Parse);
}

#[test]
fn workspace_missing_section_is_structure_error() {
    let pkgs: Vec<String> = Vec::new();
    let err = audit_workspace("[package]\nname = \"x\"\n", &pkgs, false).unwrap_err();
    assert_eq!(err, AuditError::Structure);
}

#[test]
fn workspace_dependencies_not_a_table_is_structure_error() {
    let pkgs: Vec<String> = Vec::new();
    let err = audit_workspace("[workspace]\ndependencies = 3\n", &pkgs, false).unwrap_err();
    assert_eq!(err, AuditError::Structure);
}

#[test]
fn package_parse_error_propagates() {
    let pkgs = vec!["also not ] toml".to_owned()];
    let err = audit_workspace(WS_SERDE, &pkgs, false).unwrap_err();
    assert_eq!(err, AuditError::Parse);
}

#[test]
fn package_dependencies_not_a_table_is_structure_error() {
    let pkgs = vec!["dependencies = 5\n".to_owned()];
    let err = audit_workspace(WS_SERDE, &pkgs, false).unwrap_err();
    assert_eq!(err, AuditError::Structure);
}

#[test]
fn collector_gathers_all_sections() {
    let pkg = r#"[dependencies]
alpha = "1"

[dev-dependencies]
beta = "1"

[build-dependencies]
gamma = "1"

[target.'cfg(unix)'.dependencies]
delta = "1"

[target.'cfg(windows)'.dependencies]
epsilon = "1"
"#;
    let names = list_package_workspace_deps(pkg).unwrap();
    assert_eq!(
        names,
        vec![
            "alpha".to_owned(),
            "beta".to_owned(),
            "gamma".to_owned(),
            "delta".to_owned(),
            "epsilon".to_owned()
        ]
    );
}

#[test]
fn collector_skips_conditional_entries_without_dependencies() {
    let pkg = r#"[target.'cfg(unix)'.build-dependencies]
alpha = "1"
"#;
    let names = list_package_workspace_deps(pkg).unwrap();
    assert_eq!(names, Vec::<String>::new());
}

#[test]
fn collector_target_not_a_table_is_structure_error() {
    let err = list_package_workspace_deps("target = 7\n").unwrap_err();
    assert_eq!(err, AuditError::Structure);
}

#[test]
fn reader_returns_declared_names() {
    let entries = read_workspace_deps(WS_SERDE_HASHBROWN).unwrap();
    let names: Vec<&str> = entries.iter().map(|e| e.0.as_str()).collect();
    assert_eq!(names, vec!["hashbrown", "serde"]);
}

#[test]
fn package_error_after_clean_package_propagates() {
    let pkgs = vec![PKG_USES_SERDE.to_owned(), "broken [ toml".to_owned()];
    let err = audit_workspace(WS_SERDE, &pkgs, false).unwrap_err();
    assert_eq!(err, AuditError::Parse);
}

#[test]
fn first_package_error_wins() {
    let pkgs = vec!["dependencies = 5\n".to_owned(), "broken [ toml".to_owned()];
    let err = audit_workspace(WS_SERDE, &pkgs, false).unwrap_err();
    assert_eq!(err, AuditError::Structure);
}

#[test]
fn collector_dev_dependencies_not_a_table_is_structure_error() {
    let err = list_package_workspace_deps("dev-dependencies = 5\n").unwrap_err();
    assert_eq!(err, AuditError::Structure);
}

#[test]
fn collector_build_dependencies_not_a_table_is_structure_error() {
    let err = list_package_workspace_deps("build-dependencies = []\n").unwrap_err();
    assert_eq!(err, AuditError::Structure);
}

#[test]
fn fix_drops_workspace_table_declared_only_by_subtable_header() {
    let ws = "[workspace.dependencies.serde]\nversion = \"1\"\n";
    let pkgs = vec![PKG_USES_NOTHING.to_owned()];
    match audit_workspace(ws, &pkgs, true).unwrap() {
        AuditOutcome::Fixed {
            unused,
            new_manifest,
        } => {
            assert_eq!(unused, vec!["serde".to_owned()]);
            // The table existed only through the deeper header, so the fixed
            // text has no workspace table left at all.
            match read_workspace_deps(&new_manifest) {
                Err(err) => assert_eq!(err, AuditError::Structure),
                Ok(_) => panic!("expected the workspace table to be gone"),
            }
        }
        _ => panic!("expected a fixed manifest"),
    }
}
