use nix_cargo::command_layout::PackageLayoutRequirements;
use nix_cargo::derived_path::{SingleDerivedPath, SingleDerivedPathBuilt};
use nix_cargo::libstore_backend::{
    needs_cargo_home_snapshot, phase_info, resolve_phase_dependency_output_paths,
    resolve_phase_dependency_refs, DependencyPhase, MaterializeState, MaterializedGraph,
    TargetError,
};
use nix_cargo::model::{Plan, PlanPackage};
use nix_cargo::nix_tool::{NixTool, StoreConfig};
use nix_cargo::sorted::SortedMap;
use nix_cargo::store_path::StorePath;
use nix_cargo::string_map::StringMap;

fn drv(c: char, name: &str) -> StorePath {
    StorePath::new(&format!("/nix/store/{}-{name}.drv", c.to_string().repeat(32))).unwrap()
}

fn out_ref(c: char, name: &str) -> SingleDerivedPath {
    SingleDerivedPath::Built(SingleDerivedPathBuilt::new(drv(c, name), "out".to_string()))
}

fn pkg(key: &str, name: &str, member: bool, rel: Option<&str>) -> PlanPackage {
    PlanPackage {
        key: key.to_string(),
        name: name.to_string(),
        version: "0.1.0".to_string(),
        source: "/src".to_string(),
        manifest_path: "/src/Cargo.toml".to_string(),
        cargo_home_rel_manifest_path: rel.map(|s| s.to_string()),
        lock_checksum: None,
        workspace_member: member,
        dependencies: Vec::new(),
    }
}

fn plan_of(packages: Vec<PlanPackage>) -> Plan {
    Plan {
        workspace_root: "/ws".to_string(),
        manifest_path: "/ws/Cargo.toml".to_string(),
        cargo_home: "/h".to_string(),
        target_dir: "/ws/target".to_string(),
        target_triple: Some("x86_64-unknown-linux-gnu".to_string()),
        packages,
        units: Vec::new(),
    }
}

#[test]
fn dependency_phases_resolve_to_metadata_only_when_it_exists() {
    let mut full_refs = StringMap::new();
    full_refs.insert("a".to_string(), out_ref('a', "a"));
    full_refs.insert("b".to_string(), out_ref('b', "b"));
    let mut meta_refs = StringMap::new();
    meta_refs.insert("a".to_string(), out_ref('c', "a-meta"));
    let mut reqs = SortedMap::new();
    reqs.insert("b".to_string(), DependencyPhase::Metadata);
    reqs.insert("a".to_string(), DependencyPhase::Metadata);
    let refs = resolve_phase_dependency_refs(&reqs, &full_refs, &meta_refs).unwrap();
    // Key order; `a` has a metadata phase, `b` falls back to its full phase.
    assert_eq!(refs, vec![out_ref('c', "a-meta"), out_ref('b', "b")]);

    let mut full_paths = StringMap::new();
    full_paths.insert("a".to_string(), "/nix/store/a".to_string());
    let meta_paths = StringMap::new();
    let mut reqs2 = SortedMap::new();
    reqs2.insert("a".to_string(), DependencyPhase::Full);
    reqs2.insert("z".to_string(), DependencyPhase::Full);
    let missing = resolve_phase_dependency_output_paths(&reqs2, &full_paths, &meta_paths).unwrap_err();
    assert_eq!(missing.package_key, "z");
    assert_eq!(missing.phase, DependencyPhase::Full);
}

#[test]
fn materialize_state_records_and_builds_graph() {
    let plan = plan_of(vec![
        pkg("dep 0.1.0", "dep", false, Some("registry/src/x/dep-0.1.0/Cargo.toml")),
        pkg("app 0.1.0", "app", true, None),
        pkg("tool 0.1.0", "tool", true, None),
    ]);
    assert!(needs_cargo_home_snapshot(&plan));
    assert!(!needs_cargo_home_snapshot(&plan_of(vec![pkg("w", "w", true, Some("x/Cargo.toml"))])));

    let mut state = MaterializeState::new();
    let layout = PackageLayoutRequirements { target_triples: Vec::new(), needs_host_artifacts: true };
    let deps = SortedMap::new();

    // The dependency: a metadata phase, then its full phase.
    state.record_metadata_phase("dep 0.1.0", out_ref('b', "dep-meta"), "/nix/store/dep-meta".to_string());
    assert_eq!(state.own_metadata_ref("dep 0.1.0"), Some(out_ref('b', "dep-meta")));
    assert_eq!(state.own_metadata_ref("app 0.1.0"), None);
    let full_inputs = state.full_phase_inputs("dep 0.1.0", &deps).unwrap();
    assert_eq!(full_inputs.dependency_refs, vec![out_ref('b', "dep-meta")]);
    assert!(full_inputs.dependency_output_paths.is_empty());
    let meta_info = phase_info(&drv('b', "dep-meta"), &out_ref('b', "dep-meta"), &deps);
    let full_info = phase_info(&drv('a', "dep"), &out_ref('a', "dep"), &deps);
    assert_eq!(full_info.derivation, drv('a', "dep").to_string());
    assert_eq!(full_info.installable, format!("{}^out", drv('a', "dep").to_string()));
    state.record_package(
        &plan.packages[0],
        &layout,
        Some(meta_info),
        full_info,
        out_ref('a', "dep"),
        "/nix/store/dep".to_string(),
    );

    // The app needs the dependency's metadata for one phase and everything for another.
    let mut meta_reqs = SortedMap::new();
    meta_reqs.insert("dep 0.1.0".to_string(), DependencyPhase::Metadata);
    let inputs = state.phase_inputs(&meta_reqs).unwrap();
    assert_eq!(inputs.dependency_refs, vec![out_ref('b', "dep-meta")]);
    assert_eq!(inputs.dependency_output_paths, vec!["/nix/store/dep-meta".to_string()]);
    let mut full_reqs = SortedMap::new();
    full_reqs.insert("dep 0.1.0".to_string(), DependencyPhase::Full);
    let inputs = state.phase_inputs(&full_reqs).unwrap();
    assert_eq!(inputs.dependency_refs, vec![out_ref('a', "dep")]);
    assert_eq!(inputs.dependency_output_paths, vec!["/nix/store/dep".to_string()]);
    let mut unknown = SortedMap::new();
    unknown.insert("nope".to_string(), DependencyPhase::Full);
    assert_eq!(state.phase_inputs(&unknown).unwrap_err().package_key, "nope");

    let app_info = phase_info(&drv('c', "app"), &out_ref('c', "app"), &full_reqs);
    state.record_package(&plan.packages[1], &layout, None, app_info, out_ref('c', "app"), "/nix/store/app".to_string());

    let graph = state.into_graph(&plan);
    assert_eq!(graph.manifest_path, "/ws/Cargo.toml");
    assert_eq!(graph.workspace_package_keys, vec!["app 0.1.0".to_string(), "tool 0.1.0".to_string()]);
    assert_eq!(graph.default_workspace_package_key, Some("app 0.1.0".to_string()));
    assert_eq!(graph.package_names.get("dep 0.1.0"), Some(&"dep".to_string()));
    assert_eq!(graph.package_derivations.get("app 0.1.0"), Some(&drv('c', "app").to_string()));
    assert!(graph.package_phases.get("dep 0.1.0").unwrap().metadata.is_some());
    assert!(graph.package_phases.get("app 0.1.0").unwrap().metadata.is_none());

    assert_eq!(graph.resolve_target_key("default").unwrap(), "app 0.1.0");
    assert_eq!(graph.resolve_target_key("dep 0.1.0").unwrap(), "dep 0.1.0");
    assert_eq!(graph.resolve_target_key("app").unwrap(), "app 0.1.0");
    // Only workspace members are found by name.
    assert!(matches!(graph.resolve_target_key("dep"), Err(TargetError::Unknown(t)) if t == "dep"));
    // `tool` is a workspace member without a recorded name.
    assert!(matches!(graph.resolve_target_key("tool"), Err(TargetError::Unknown(_))));
    assert_eq!(graph.build_target("app").unwrap(), out_ref('c', "app"));
    assert_eq!(graph.build_target("default").unwrap(), out_ref('c', "app"));
    let tool = NixTool::new(StoreConfig::default());
    assert_eq!(
        graph.build_target_args("app", &tool).unwrap(),
        vec![
            "build".to_string(),
            "-L".to_string(),
            "--no-link".to_string(),
            "--print-out-paths".to_string(),
            format!("{}^out", drv('c', "app").to_string()),
        ]
    );
    assert!(matches!(graph.build_target_args("nope", &tool), Err(TargetError::Unknown(_))));
}

fn graph_with(names: &[(&str, &str)], members: &[&str], default: Option<&str>) -> MaterializedGraph {
    let mut package_names = SortedMap::new();
    for (k, n) in names {
        package_names.insert(k.to_string(), n.to_string());
    }
    MaterializedGraph {
        manifest_path: String::new(),
        workspace_root: String::new(),
        target_triple: None,
        workspace_package_keys: members.iter().map(|s| s.to_string()).collect(),
        default_workspace_package_key: default.map(|s| s.to_string()),
        package_names,
        package_derivations: SortedMap::new(),
        package_installables: SortedMap::new(),
        package_phases: SortedMap::new(),
        package_layouts: SortedMap::new(),
        package_refs: StringMap::new(),
    }
}

#[test]
fn target_resolution_errors() {
    let empty = graph_with(&[], &[], None);
    assert!(matches!(empty.resolve_target_key("default"), Err(TargetError::NoDefault)));
    assert!(matches!(empty.build_target("default"), Err(TargetError::NoDefault)));
    let twins = graph_with(&[("a 1", "same"), ("a 2", "same")], &["a 1", "a 2"], Some("a 1"));
    assert!(matches!(twins.resolve_target_key("same"), Err(TargetError::Ambiguous(t)) if t == "same"));
    // A key listed twice still resolves to one package.
    let dup = graph_with(&[("k", "n")], &["k", "k"], Some("k"));
    assert_eq!(dup.resolve_target_key("n").unwrap(), "k");
    // Resolved, but without an installable.
    assert!(matches!(dup.build_target("n"), Err(TargetError::MissingDerivedPath(k)) if k == "k"));
}
