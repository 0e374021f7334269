use nix_cargo::command_layout::{
    command_target_triple, package_layout_by_key, package_needs_host_artifacts, package_target_triples,
};
use nix_cargo::model::{CommandEnv, CommandSpec, Plan, PlanPackage, Unit};

fn command(args: &[&str]) -> CommandSpec {
    CommandSpec {
        cwd: None,
        env: Vec::<CommandEnv>::new(),
        program: "rustc".to_string(),
        args: args.iter().map(|value| (*value).to_string()).collect(),
    }
}

fn unit_for(package_key: &str, target_kind: &str, compile_mode: &str, args: &[&str]) -> Unit {
    Unit {
        unit_id: "unit".to_string(),
        package_key: package_key.to_string(),
        package_name: "pkg".to_string(),
        package_version: "0.1.0".to_string(),
        target_name: "pkg".to_string(),
        target_kind: target_kind.to_string(),
        compile_mode: compile_mode.to_string(),
        target_triple: None,
        build_script_binary: None,
        package_dependencies: Vec::new(),
        command: command(args),
    }
}

#[test]
fn parses_inline_target_arg() {
    let triple = command_target_triple(&command(&["--crate-name", "x", "--target=aarch64-unknown-linux-gnu"]));
    assert_eq!(triple.as_deref(), Some("aarch64-unknown-linux-gnu"));
}

#[test]
fn parses_split_target_arg() {
    let triple = command_target_triple(&command(&["--target", "x86_64-unknown-linux-gnu"]));
    assert_eq!(triple.as_deref(), Some("x86_64-unknown-linux-gnu"));
}

#[test]
fn computes_target_set_and_host_requirement() {
    let commands = vec![
        command(&["--crate-name", "host-tool"]),
        command(&["--target", "x86_64-unknown-linux-gnu"]),
        command(&["--target=aarch64-unknown-linux-gnu"]),
    ];
    assert_eq!(
        package_target_triples(&commands),
        vec!["aarch64-unknown-linux-gnu".to_string(), "x86_64-unknown-linux-gnu".to_string()]
    );
    assert!(package_needs_host_artifacts(&commands));
}

#[test]
fn unit_layout_marks_proc_macro_as_host() {
    let package_key = "pkg v0.1.0 (/tmp/pkg)";
    let plan = Plan {
        workspace_root: "/tmp".to_string(),
        manifest_path: "/tmp/Cargo.toml".to_string(),
        cargo_home: "/tmp/ch".to_string(),
        target_dir: "/tmp/target".to_string(),
        target_triple: None,
        packages: vec![PlanPackage {
            key: package_key.to_string(),
            name: "pkg".to_string(),
            version: "0.1.0".to_string(),
            source: "/tmp/pkg".to_string(),
            manifest_path: "/tmp/pkg/Cargo.toml".to_string(),
            cargo_home_rel_manifest_path: None,
            lock_checksum: None,
            workspace_member: true,
            dependencies: Vec::new(),
        }],
        units: vec![
            unit_for(package_key, "proc-macro", "build", &["--target", "aarch64-unknown-linux-gnu"]),
            unit_for(package_key, "lib", "build", &["--target", "aarch64-unknown-linux-gnu"]),
        ],
    };

    let layout = package_layout_by_key(&plan);
    let package = layout.get(package_key).expect("layout exists");
    assert!(package.needs_host_artifacts);
    assert_eq!(package.target_triples, vec!["aarch64-unknown-linux-gnu".to_string()]);
}

#[test]
fn target_triple_edge_cases() {
    assert_eq!(command_target_triple(&command(&["--target"])), None);
    assert_eq!(command_target_triple(&command(&["--target", ""])), None);
    assert_eq!(command_target_triple(&command(&["--target=", "--target=b"])).as_deref(), Some("b"));
    assert_eq!(command_target_triple(&command(&[])), None);
    assert!(!package_needs_host_artifacts(&vec![command(&["--target=a"])]));
}
