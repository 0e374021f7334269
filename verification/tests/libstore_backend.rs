use nix_cargo::libstore_backend::{
    build_package_phase_plan, command_extern_artifacts, metadata_emit_value, DependencyPhase,
};
use nix_cargo::model::{CommandEnv, CommandSpec, Plan, PlanPackage, Unit};

fn command(args: &[&str]) -> CommandSpec {
    CommandSpec {
        cwd: None,
        env: Vec::<CommandEnv>::new(),
        program: "rustc".to_string(),
        args: args.iter().map(|value| (*value).to_string()).collect(),
    }
}

fn unit(
    package_key: &str,
    package_name: &str,
    target_kind: &str,
    args: &[&str],
    package_dependencies: &[&str],
) -> Unit {
    Unit {
        unit_id: format!("{package_key}:{target_kind}"),
        package_key: package_key.to_string(),
        package_name: package_name.to_string(),
        package_version: "0.1.0".to_string(),
        target_name: package_name.to_string(),
        target_kind: target_kind.to_string(),
        compile_mode: "Build".to_string(),
        target_triple: None,
        build_script_binary: None,
        package_dependencies: package_dependencies
            .iter()
            .map(|value| (*value).to_string())
            .collect(),
        command: command(args),
    }
}

#[test]
fn metadata_emit_value_keeps_only_metadata_and_dep_info() {
    assert_eq!(
        metadata_emit_value("dep-info,metadata,link"),
        "dep-info,metadata".to_string()
    );
}

#[test]
fn command_extern_artifacts_parses_split_extern_args() {
    let parsed = command_extern_artifacts(&command(&[
        "--extern",
        "corelib=@@NIXCARGO_TARGET@@/debug/deps/libcorelib-1234abcd.rmeta",
    ]));
    assert_eq!(
        parsed,
        vec![(
            "corelib".to_string(),
            "@@NIXCARGO_TARGET@@/debug/deps/libcorelib-1234abcd.rmeta".to_string()
        )]
    );
}

#[test]
fn package_phase_plan_uses_metadata_for_lib_deps_and_full_for_bin_deps() {
    let dep_key = "dep v0.1.0 (/tmp/dep)";
    let app_key = "app v0.1.0 (/tmp/app)";
    let dep_package = PlanPackage {
        key: dep_key.to_string(),
        name: "dep".to_string(),
        version: "0.1.0".to_string(),
        source: "/tmp/dep".to_string(),
        manifest_path: "/tmp/dep/Cargo.toml".to_string(),
        cargo_home_rel_manifest_path: None,
        lock_checksum: None,
        workspace_member: true,
        dependencies: Vec::new(),
    };
    let app_package = PlanPackage {
        key: app_key.to_string(),
        name: "app".to_string(),
        version: "0.1.0".to_string(),
        source: "/tmp/app".to_string(),
        manifest_path: "/tmp/app/Cargo.toml".to_string(),
        cargo_home_rel_manifest_path: None,
        lock_checksum: None,
        workspace_member: true,
        dependencies: vec![dep_key.to_string()],
    };
    let plan = Plan {
        workspace_root: "/tmp".to_string(),
        manifest_path: "/tmp/Cargo.toml".to_string(),
        cargo_home: "/tmp/ch".to_string(),
        target_dir: "/tmp/target".to_string(),
        target_triple: None,
        packages: vec![dep_package.clone(), app_package.clone()],
        units: Vec::new(),
    };
    let units = vec![
        unit(
            app_key,
            "app",
            "lib",
            &[
                "--crate-type",
                "lib",
                "--emit=dep-info,metadata,link",
                "--extern",
                "dep=@@NIXCARGO_TARGET@@/debug/deps/libdep-1234abcd.rmeta",
            ],
            &[dep_key],
        ),
        unit(
            app_key,
            "app",
            "bin",
            &[
                "--crate-type",
                "bin",
                "--emit=dep-info,link",
                "--extern",
                "dep=@@NIXCARGO_TARGET@@/debug/deps/libdep-1234abcd.rlib",
            ],
            &[dep_key],
        ),
    ];

    let phase_plan = build_package_phase_plan(&plan, &app_package, &units);

    assert!(phase_plan.has_metadata_phase());
    assert_eq!(phase_plan.metadata_units.len(), 1);
    assert_eq!(
        phase_plan.metadata_units[0].command.args,
        vec![
            "--crate-type".to_string(),
            "lib".to_string(),
            "--emit=dep-info,metadata".to_string(),
            "--extern".to_string(),
            "dep=@@NIXCARGO_TARGET@@/debug/deps/libdep-1234abcd.rmeta".to_string(),
        ]
    );
    assert_eq!(
        phase_plan.metadata_dependencies.get(dep_key),
        Some(&DependencyPhase::Metadata)
    );
    assert_eq!(
        phase_plan.full_dependencies.get(dep_key),
        Some(&DependencyPhase::Full)
    );
}
