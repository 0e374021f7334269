use nix_cargo::command_layout::PackageLayoutRequirements;
use nix_cargo::model::{CommandEnv, CommandSpec, PlanPackage, Unit};
use nix_cargo::nix_emit::build_rendered_package_plans;
use nix_cargo::string_map::StringMap;

fn package(key: &str, member: bool) -> PlanPackage {
    PlanPackage {
        key: key.to_string(),
        name: "pkg".to_string(),
        version: "0.1.0".to_string(),
        source: "/tmp/pkg".to_string(),
        manifest_path: "/tmp/pkg/Cargo.toml".to_string(),
        cargo_home_rel_manifest_path: None,
        lock_checksum: None,
        workspace_member: member,
        dependencies: vec!["dep v0.1.0 (/tmp/dep)".to_string()],
    }
}

fn unit_for_package(package_key: &str) -> Unit {
    Unit {
        unit_id: "u1".to_string(),
        package_key: package_key.to_string(),
        package_name: "pkg".to_string(),
        package_version: "0.1.0".to_string(),
        target_name: "pkg".to_string(),
        target_kind: "lib".to_string(),
        compile_mode: "Build".to_string(),
        target_triple: None,
        build_script_binary: None,
        package_dependencies: Vec::new(),
        command: CommandSpec {
            cwd: Some("/tmp/pkg".to_string()),
            env: vec![CommandEnv {
                key: "RUSTC".to_string(),
                value: "/nix/store/rustc/bin/rustc".to_string(),
            }],
            program: "rustc".to_string(),
            args: vec!["--crate-name".to_string(), "pkg".to_string()],
        },
    }
}

#[test]
fn renders_defaults_without_optional_maps() {
    let package = package("pkg v0.1.0 (/tmp/pkg)", true);
    let rendered = build_rendered_package_plans(
        &vec![package.clone()],
        &StringMap::new(),
        &StringMap::new(),
        &StringMap::new(),
    );
    assert_eq!(rendered.len(), 1);
    assert_eq!(rendered[0].key, package.key);
    assert!(rendered[0].target_triples.is_empty());
    assert!(!rendered[0].needs_host_artifacts);
    assert!(rendered[0].workspace_source_prefixes.is_empty());
    assert!(rendered[0].command_script.is_empty());
}

#[test]
fn carries_layout_and_script_data() {
    let package_key = "pkg v0.1.0 (/tmp/pkg)";
    let package = package(package_key, false);
    let mut units_by_package = StringMap::new();
    units_by_package.insert(package_key.to_string(), vec![unit_for_package(package_key)]);
    let mut layout_by_package = StringMap::new();
    layout_by_package.insert(
        package_key.to_string(),
        PackageLayoutRequirements {
            target_triples: vec!["x86_64-unknown-linux-gnu".to_string()],
            needs_host_artifacts: true,
        },
    );
    let mut source_prefixes = StringMap::new();
    source_prefixes.insert(package_key.to_string(), vec!["crates/pkg".to_string()]);

    let rendered = build_rendered_package_plans(
        &vec![package.clone()],
        &units_by_package,
        &layout_by_package,
        &source_prefixes,
    );

    assert_eq!(rendered.len(), 1);
    assert_eq!(
        rendered[0].target_triples,
        vec!["x86_64-unknown-linux-gnu".to_string()]
    );
    assert!(rendered[0].needs_host_artifacts);
    assert_eq!(
        rendered[0].workspace_source_prefixes,
        vec!["crates/pkg".to_string()]
    );
    assert!(rendered[0].command_script.contains("run_cargo_cmd"));
}
