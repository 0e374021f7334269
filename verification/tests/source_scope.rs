use nix_cargo::model::{Plan, PlanPackage};
use nix_cargo::source_scope::{local_workspace_source_prefix, workspace_source_prefixes_by_package};

#[test]
fn parses_plain_absolute_workspace_path() {
    let workspace = "/repo/ws";
    let source = "/repo/ws/crates/app";
    assert_eq!(local_workspace_source_prefix(workspace, source).as_deref(), Some("crates/app"));
}

#[test]
fn parses_path_file_source_url() {
    let workspace = "/repo/ws";
    let source = "path+file:///repo/ws/crates/app?locked=true";
    assert_eq!(local_workspace_source_prefix(workspace, source).as_deref(), Some("crates/app"));
}

#[test]
fn returns_none_for_non_local_source() {
    let workspace = "/repo/ws";
    let source = "registry+https://github.com/rust-lang/crates.io-index";
    assert_eq!(local_workspace_source_prefix(workspace, source), None);
}

#[test]
fn workspace_root_itself_and_sibling_paths() {
    assert_eq!(local_workspace_source_prefix("/repo/ws/", "path+file:///repo/ws#frag").as_deref(), Some(""));
    assert_eq!(local_workspace_source_prefix("/repo/ws", "/repo/wsx/a"), None);
    assert_eq!(local_workspace_source_prefix("/repo/ws", "/repo/ws/"), Some(String::new()));
}

#[test]
fn prefixes_by_package_key() {
    let plan = Plan {
        workspace_root: "/repo/ws".to_string(),
        manifest_path: "/repo/ws/Cargo.toml".to_string(),
        cargo_home: "/h".to_string(),
        target_dir: "/repo/ws/target".to_string(),
        target_triple: None,
        packages: vec![
            PlanPackage {
                key: "a".to_string(),
                name: "a".to_string(),
                version: "0.1.0".to_string(),
                source: "path+file:///repo/ws/crates/a".to_string(),
                manifest_path: "/repo/ws/crates/a/Cargo.toml".to_string(),
                cargo_home_rel_manifest_path: None,
                lock_checksum: None,
                workspace_member: true,
                dependencies: vec![],
            },
            PlanPackage {
                key: "b".to_string(),
                name: "b".to_string(),
                version: "1.0.0".to_string(),
                source: "registry+https://github.com/rust-lang/crates.io-index".to_string(),
                manifest_path: "/h/registry/src/b/Cargo.toml".to_string(),
                cargo_home_rel_manifest_path: None,
                lock_checksum: None,
                workspace_member: false,
                dependencies: vec![],
            },
        ],
        units: vec![],
    };
    let prefixes = workspace_source_prefixes_by_package(&plan);
    assert_eq!(prefixes.get("a").unwrap(), &vec!["crates/a".to_string()]);
    assert!(prefixes.get("b").unwrap().is_empty());
    assert_eq!(prefixes.len(), 2);
}
