use nix_cargo::model::{Plan, PlanPackage, PackageSummary};
use nix_cargo::plan_package::{topologically_sorted_packages, units_by_package};
use nix_cargo::workspace::{
    graph_lines, package_summary, topologically_sort_packages, workspace_summary, MemberFacts, MemberTarget,
};

fn member(name: &str, deps: &[&str]) -> PackageSummary {
    PackageSummary {
        id: format!("{name} 0.1.0"),
        name: name.to_string(),
        version: "0.1.0".to_string(),
        manifest_path: format!("/ws/{name}/Cargo.toml"),
        relative_manifest_path: format!("{name}/Cargo.toml"),
        targets: vec!["lib".to_string()],
        dependency_names: deps.iter().map(|d| d.to_string()).collect(),
        workspace_dependencies: deps.iter().map(|d| d.to_string()).collect(),
    }
}

fn names(v: &[PackageSummary]) -> Vec<String> {
    v.iter().map(|p| p.name.clone()).collect()
}

#[test]
fn workspace_members_come_after_their_dependencies() {
    let sorted = topologically_sort_packages(vec![
        member("app", &["core", "util"]),
        member("util", &["core"]),
        member("core", &[]),
        member("zeta", &[]),
    ]);
    assert_eq!(names(&sorted), vec!["core", "util", "app", "zeta"]);
}

#[test]
fn ready_members_are_taken_by_name() {
    let sorted = topologically_sort_packages(vec![
        member("b", &[]),
        member("a", &[]),
        member("c", &["a"]),
    ]);
    assert_eq!(names(&sorted), vec!["a", "b", "c"]);
}

#[test]
fn cycles_are_appended_by_name() {
    let sorted = topologically_sort_packages(vec![
        member("y", &["x"]),
        member("x", &["y"]),
        member("free", &[]),
        member("after", &["x"]),
    ]);
    assert_eq!(names(&sorted), vec!["free", "after", "x", "y"]);
    // Dependencies outside the workspace are ignored.
    let sorted = topologically_sort_packages(vec![member("solo", &["serde"])]);
    assert_eq!(names(&sorted), vec!["solo"]);
    assert!(topologically_sort_packages(Vec::new()).is_empty());
}

fn plan_package(key: &str, deps: &[&str]) -> PlanPackage {
    PlanPackage {
        key: key.to_string(),
        name: key.to_string(),
        version: "0.1.0".to_string(),
        source: format!("/src/{key}"),
        manifest_path: format!("/src/{key}/Cargo.toml"),
        cargo_home_rel_manifest_path: None,
        lock_checksum: None,
        workspace_member: false,
        dependencies: deps.iter().map(|d| d.to_string()).collect(),
    }
}

fn plan_of(packages: Vec<PlanPackage>) -> Plan {
    Plan {
        workspace_root: "/ws".to_string(),
        manifest_path: "/ws/Cargo.toml".to_string(),
        cargo_home: "/h".to_string(),
        target_dir: "/ws/target".to_string(),
        target_triple: None,
        packages,
        units: Vec::new(),
    }
}

#[test]
fn plan_packages_are_ordered_dependencies_first() {
    let plan = plan_of(vec![
        plan_package("app", &["lib", "util"]),
        plan_package("util", &["lib"]),
        plan_package("lib", &[]),
        plan_package("other", &["unknown"]),
    ]);
    let ordered = topologically_sorted_packages(&plan);
    let keys: Vec<&str> = ordered.iter().map(|p| p.key.as_str()).collect();
    assert_eq!(keys.len(), 4);
    let pos = |k: &str| keys.iter().position(|x| *x == k).unwrap();
    assert!(pos("lib") < pos("util"));
    assert!(pos("util") < pos("app"));
    assert!(pos("lib") < pos("app"));
    assert!(keys.contains(&"other"));
    assert_eq!(keys, vec!["lib", "util", "app", "other"]);
}

#[test]
fn plan_package_cycles_keep_every_package_once() {
    let plan = plan_of(vec![plan_package("a", &["b"]), plan_package("b", &["a"])]);
    let ordered = topologically_sorted_packages(&plan);
    let keys: Vec<&str> = ordered.iter().map(|p| p.key.as_str()).collect();
    assert_eq!(keys, vec!["b", "a"]);
}

#[test]
fn units_grouped_by_package() {
    let plan = plan_of(vec![plan_package("a", &[]), plan_package("b", &[])]);
    let grouped = units_by_package(&plan);
    assert_eq!(grouped.len(), 2);
    assert!(grouped.get("a").unwrap().is_empty());
    assert!(grouped.get("c").is_none());
}

fn facts(name: &str, manifest: &str, deps: &[&str], targets: &[(&str, bool)]) -> MemberFacts {
    MemberFacts {
        id: format!("{name} 0.1.0 (path+file:///ws/{name})"),
        name: name.to_string(),
        version: "0.1.0".to_string(),
        manifest_path: manifest.to_string(),
        dependency_names: deps.iter().map(|d| d.to_string()).collect(),
        targets: targets
            .iter()
            .map(|(n, p)| MemberTarget { name: n.to_string(), proc_macro: *p })
            .collect(),
    }
}

#[test]
fn member_summaries() {
    let members = vec!["core".to_string(), "app".to_string()];
    let s = package_summary(
        facts("app", "/ws/crates/app/Cargo.toml", &["serde", "core", "serde", "anyhow"], &[("app", false), ("derive", true), ("bench", false)]),
        "/ws",
        &members,
    );
    assert_eq!(s.relative_manifest_path, "crates/app/Cargo.toml");
    assert_eq!(s.dependency_names, vec!["anyhow", "core", "serde"]);
    assert_eq!(s.workspace_dependencies, vec!["core"]);
    assert_eq!(s.targets, vec!["app", "bench"]);
    assert_eq!(s.id, "app 0.1.0 (path+file:///ws/app)");
    let outside = package_summary(facts("x", "/elsewhere/x/Cargo.toml", &[], &[]), "/ws", &members);
    assert_eq!(outside.relative_manifest_path, "/elsewhere/x/Cargo.toml");
    let near = package_summary(facts("y", "/ws2/Cargo.toml", &[], &[]), "/ws", &members);
    assert_eq!(near.relative_manifest_path, "/ws2/Cargo.toml");

    let summary = workspace_summary(
        "/ws/Cargo.toml".to_string(),
        "/ws".to_string(),
        vec![
            facts("app", "/ws/app/Cargo.toml", &["core"], &[("app", false)]),
            facts("core", "/ws/core/Cargo.toml", &["serde"], &[("core", false)]),
        ],
    );
    assert_eq!(summary.manifest_path, "/ws/Cargo.toml");
    assert_eq!(summary.workspace_root, "/ws");
    assert_eq!(names(&summary.packages), vec!["core", "app"]);
    assert_eq!(summary.packages[1].workspace_dependencies, vec!["core"]);
    assert!(summary.packages[0].workspace_dependencies.is_empty());
}

#[test]
fn workspace_graph_text() {
    let summary = workspace_summary(
        "/ws/Cargo.toml".to_string(),
        "/ws".to_string(),
        vec![
            facts("app", "/ws/app/Cargo.toml", &["core", "serde"], &[("app", false)]),
            facts("core", "/ws/core/Cargo.toml", &[], &[("core", false)]),
        ],
    );
    assert_eq!(
        graph_lines(&summary),
        vec![
            "workspace: /ws",
            "manifest: /ws/Cargo.toml",
            "packages:",
            "  core (0.1.0)",
            "  app (0.1.0)",
            "    workspace deps: core",
            "    all deps: core, serde",
        ]
    );
}
