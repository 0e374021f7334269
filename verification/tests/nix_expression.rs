use nix_cargo::model::{CommandSpec, Plan, PlanPackage, Unit};
use nix_cargo::nix_emit::render_nix_expression;

fn pkg(key: &str, deps: &[&str]) -> PlanPackage {
    PlanPackage {
        key: key.to_string(),
        name: key.split(' ').next().unwrap().to_string(),
        version: "0.1.0".to_string(),
        source: "/ws".to_string(),
        manifest_path: "/ws/Cargo.toml".to_string(),
        cargo_home_rel_manifest_path: None,
        lock_checksum: None,
        workspace_member: true,
        dependencies: deps.iter().map(|d| d.to_string()).collect(),
    }
}

fn plan(root: &str) -> Plan {
    Plan {
        workspace_root: root.to_string(),
        manifest_path: "/ws/Cargo.toml".to_string(),
        cargo_home: "/h".to_string(),
        target_dir: "/ws/target".to_string(),
        target_triple: None,
        packages: vec![pkg("app 0.1.0", &["lib 0.1.0"]), pkg("lib 0.1.0", &[])],
        units: vec![Unit {
            unit_id: "u".to_string(),
            package_key: "lib 0.1.0".to_string(),
            package_name: "lib".to_string(),
            package_version: "0.1.0".to_string(),
            target_name: "lib".to_string(),
            target_kind: "lib".to_string(),
            compile_mode: "Build".to_string(),
            target_triple: None,
            build_script_binary: None,
            package_dependencies: Vec::new(),
            command: CommandSpec {
                cwd: None,
                env: Vec::new(),
                program: "rustc".to_string(),
                args: vec!["--crate-name".to_string(), "lib".to_string()],
            },
        }],
    }
}

#[test]
fn nix_expression_has_preamble_and_packages_in_order() {
    let text = render_nix_expression(&plan("/ws"), false);
    assert!(text.starts_with(
        "{ pkgs ? import <nixpkgs> {}, src ? builtins.path { path = \"/ws\"; name = \"nix-cargo-src\"; }, cargoHome ? null, gitSourceHashes ? {}, allowImpureGitFetch ? false, release ? false }:\nlet\n"
    ));
    assert!(text.contains("  planWorkspaceRoot = \"/ws\";\n"));
    assert!(text.contains("  planTargetTriple = null;\n"));
    let lib_at = text.find("key = \"lib 0.1.0\"").unwrap();
    let app_at = text.find("key = \"app 0.1.0\"").unwrap();
    assert!(lib_at < app_at);
    assert!(text.contains("run_cargo_cmd"));

    let release = render_nix_expression(&plan(""), true);
    assert!(release.starts_with(
        "{ pkgs ? import <nixpkgs> {}, src ? builtins.path { path = ./.; name = \"nix-cargo-src\"; }, cargoHome ? null, gitSourceHashes ? {}, allowImpureGitFetch ? false, release ? true }:\n"
    ));
}
