use nix_cargo::cargo_plan::{
    is_path_token_boundary_after, is_path_token_boundary_before, link_artifact_of,
    lock_source_for_lookup, looks_like_rustc, normalize_command, normalize_env, normalize_program,
    normalize_value, package_lock_checksum, path_like, plan_package, plan_units, replace_prefix,
    CapturedUnit, LockPackage, RewriteContext,
};
use nix_cargo::model::{CommandEnv, CommandSpec, PlanPackage, PATH_MARKER_TARGET};

#[test]
fn replace_prefix_rewrites_path_token_with_boundaries() {
    let value = "OUT_DIR=/tmp/work/target/debug/build/pkg/out".to_string();
    let rewritten = replace_prefix(value, "/tmp/work/target", PATH_MARKER_TARGET);
    assert_eq!(rewritten, "OUT_DIR=@@NIXCARGO_TARGET@@/debug/build/pkg/out".to_string());
}

#[test]
fn replace_prefix_does_not_rewrite_partial_path_segment() {
    let value = "OUT_DIR=/tmp/work/targeted/debug".to_string();
    let rewritten = replace_prefix(value.clone(), "/tmp/work/target", PATH_MARKER_TARGET);
    assert_eq!(rewritten, value);
}

#[test]
fn replace_prefix_rewrites_quoted_path() {
    let value = "\"/tmp/work/target/debug\"".to_string();
    let rewritten = replace_prefix(value, "/tmp/work/target", PATH_MARKER_TARGET);
    assert_eq!(rewritten, "\"@@NIXCARGO_TARGET@@/debug\"".to_string());
}

#[test]
fn replace_prefix_edge_cases() {
    // An empty pattern leaves the value alone.
    assert_eq!(replace_prefix("abc".to_string(), "", "M"), "abc");
    // Several tokens, and a token glued to a previous one is not rewritten.
    assert_eq!(replace_prefix("/a /a:/a".to_string(), "/a", "M"), "M M:M");
    assert_eq!(replace_prefix("x/a".to_string(), "/a", "M"), "x/a");
    // The whole value.
    assert_eq!(replace_prefix("/a".to_string(), "/a", "M"), "M");
    // Followed by a backslash separator.
    assert_eq!(replace_prefix("(/a\\b)".to_string(), "/a", "M"), "(M\\b)");
    // Not a token: followed by a letter.
    assert_eq!(replace_prefix("/ab".to_string(), "/a", "M"), "/ab");
    // A value in which the path does not occur is left as it is.
    assert_eq!(replace_prefix("/other/path:x".to_string(), "/ws", "M"), "/other/path:x");
}

#[test]
fn boundaries() {
    assert!(is_path_token_boundary_before(None));
    assert!(is_path_token_boundary_before(Some(' ')));
    assert!(is_path_token_boundary_before(Some('[')));
    assert!(!is_path_token_boundary_before(Some('/')));
    assert!(!is_path_token_boundary_before(Some(']')));
    assert!(is_path_token_boundary_after(None));
    assert!(is_path_token_boundary_after(Some('/')));
    assert!(is_path_token_boundary_after(Some('\\')));
    assert!(is_path_token_boundary_after(Some(']')));
    assert!(!is_path_token_boundary_after(Some('(')));
    assert!(!is_path_token_boundary_after(Some('x')));
}

#[test]
fn recognizes_rustc_and_path_like_values() {
    assert!(looks_like_rustc("rustc"));
    assert!(looks_like_rustc("/usr/bin/rustc"));
    assert!(looks_like_rustc("/bin/rustc.exe"));
    assert!(!looks_like_rustc("C:rustc.exe"));
    assert!(!looks_like_rustc("/usr/bin/rustc-wrapper"));
    assert!(path_like("/usr/bin"));
    assert!(path_like("a\\b"));
    assert!(!path_like("rustc"));
}

fn context() -> RewriteContext {
    RewriteContext {
        workspace_root: "/ws".to_string(),
        target_dir: "/ws/target".to_string(),
        cargo_home: "/home/u/.cargo".to_string(),
        rustc_path: "/opt/rust/bin/rustc".to_string(),
    }
}

#[test]
fn normalizes_values_env_and_programs() {
    let ctx = context();
    assert_eq!(normalize_value("/ws/target/debug", &ctx), "@@NIXCARGO_TARGET@@/debug");
    assert_eq!(normalize_value("/ws/src/lib.rs", &ctx), "@@NIXCARGO_SRC@@/src/lib.rs");
    assert_eq!(
        normalize_value("/home/u/.cargo/registry/x", &ctx),
        "@@NIXCARGO_CARGO_HOME@@/registry/x"
    );
    assert_eq!(normalize_value("/opt/rust/bin/rustc", &ctx), "@@NIXCARGO_RUSTC@@");
    let cargo = normalize_env(CommandEnv { key: "CARGO".to_string(), value: "/x/cargo".to_string() }, &ctx);
    assert_eq!(cargo.value, "@@NIXCARGO_CARGO@@");
    let rustc = normalize_env(CommandEnv { key: "RUSTC".to_string(), value: "rustc".to_string() }, &ctx);
    assert_eq!(rustc.value, "@@NIXCARGO_RUSTC@@");
    let other = normalize_env(CommandEnv { key: "OUT_DIR".to_string(), value: "/ws/target/o".to_string() }, &ctx);
    assert_eq!(other.key, "OUT_DIR");
    assert_eq!(other.value, "@@NIXCARGO_TARGET@@/o");
    assert_eq!(normalize_program("rustc", &ctx), "@@NIXCARGO_RUSTC@@");
    assert_eq!(normalize_program("/ws/target/debug/build/x/build-script-build", &ctx), "@@NIXCARGO_TARGET@@/debug/build/x/build-script-build");
}

#[test]
fn normalizes_whole_command() {
    let ctx = context();
    let command = CommandSpec {
        cwd: Some("/ws/crates/a".to_string()),
        env: vec![CommandEnv { key: "CARGO_MANIFEST_DIR".to_string(), value: "/ws/crates/a".to_string() }],
        program: "/opt/rust/bin/rustc".to_string(),
        args: vec!["--out-dir".to_string(), "/ws/target/debug/deps".to_string()],
    };
    let normalized = normalize_command(command, &ctx);
    assert_eq!(normalized.cwd.as_deref(), Some("@@NIXCARGO_SRC@@/crates/a"));
    assert_eq!(normalized.env[0].value, "@@NIXCARGO_SRC@@/crates/a");
    assert_eq!(normalized.program, "@@NIXCARGO_RUSTC@@");
    assert_eq!(normalized.args, vec!["--out-dir".to_string(), "@@NIXCARGO_TARGET@@/debug/deps".to_string()]);
}

#[test]
fn lock_sources_and_checksums() {
    assert_eq!(
        lock_source_for_lookup("registry+https://github.com/rust-lang/crates.io-index").as_deref(),
        Some("registry+https://github.com/rust-lang/crates.io-index")
    );
    assert_eq!(lock_source_for_lookup("git+https://x/y?rev=1#abc").as_deref(), Some("git+https://x/y?rev=1#abc"));
    assert_eq!(lock_source_for_lookup("path+file:///ws/a"), None);
    let entries = vec![
        LockPackage { name: "a".to_string(), version: "1.0.0".to_string(), source: Some("registry+r".to_string()), checksum: Some("old".to_string()) },
        LockPackage { name: "a".to_string(), version: "1.0.0".to_string(), source: None, checksum: Some("none".to_string()) },
        LockPackage { name: "a".to_string(), version: "1.0.0".to_string(), source: Some("registry+r".to_string()), checksum: Some("new".to_string()) },
        LockPackage { name: "b".to_string(), version: "1.0.0".to_string(), source: Some("registry+r".to_string()), checksum: None },
    ];
    assert_eq!(package_lock_checksum(&entries, "a", "1.0.0", "registry+r").as_deref(), Some("new"));
    assert_eq!(package_lock_checksum(&entries, "b", "1.0.0", "registry+r"), None);
    assert_eq!(package_lock_checksum(&entries, "a", "2.0.0", "registry+r"), None);
    assert_eq!(package_lock_checksum(&entries, "a", "1.0.0", "path+file:///a"), None);
}

#[test]
fn link_artifact_needs_link_emit() {
    assert_eq!(
        link_artifact_of("artifact", Some("/t/build-script-build".to_string()), Some("link".to_string())).as_deref(),
        Some("/t/build-script-build")
    );
    assert_eq!(link_artifact_of("artifact", Some("/t/x.rmeta".to_string()), Some("metadata".to_string())), None);
    assert_eq!(link_artifact_of("diagnostic", Some("/t/x".to_string()), Some("link".to_string())), None);
}

fn package(key: &str, version: &str, deps: Vec<String>) -> PlanPackage {
    PlanPackage {
        key: key.to_string(),
        name: "p".to_string(),
        version: version.to_string(),
        source: "path+file:///ws".to_string(),
        manifest_path: "/ws/Cargo.toml".to_string(),
        cargo_home_rel_manifest_path: None,
        lock_checksum: None,
        workspace_member: true,
        dependencies: deps,
    }
}

#[test]
fn assembles_units_and_packages() {
    let ctx = context();
    let packages = vec![
        package("k", "0.1.0", vec!["d1".to_string()]),
        package("k", "0.2.0", vec!["d2".to_string()]),
    ];
    let captured = vec![
        CapturedUnit {
            unit_id: "k:build-script-build:Build".to_string(),
            package_key: "k".to_string(),
            package_name: "p".to_string(),
            target_name: "build-script-build".to_string(),
            target_kind: "custom-build".to_string(),
            compile_mode: "Build".to_string(),
            link_artifact: Some("/ws/target/debug/build/p/build-script-build".to_string()),
            command: CommandSpec { cwd: None, env: vec![], program: "rustc".to_string(), args: vec!["--target".to_string(), "x86_64-unknown-linux-gnu".to_string()] },
        },
        CapturedUnit {
            unit_id: "other".to_string(),
            package_key: "missing".to_string(),
            package_name: "m".to_string(),
            target_name: "m".to_string(),
            target_kind: "lib".to_string(),
            compile_mode: "Build".to_string(),
            link_artifact: Some("/ws/target/x".to_string()),
            command: CommandSpec { cwd: None, env: vec![], program: "rustc".to_string(), args: vec![] },
        },
    ];
    let units = plan_units(captured, &packages, &ctx);
    assert_eq!(units.len(), 2);
    assert_eq!(units[0].package_version, "0.2.0");
    assert_eq!(units[0].package_dependencies, vec!["d2".to_string()]);
    assert_eq!(units[0].target_triple.as_deref(), Some("x86_64-unknown-linux-gnu"));
    assert_eq!(units[0].build_script_binary.as_deref(), Some("@@NIXCARGO_TARGET@@/debug/build/p/build-script-build"));
    assert_eq!(units[0].command.program, "@@NIXCARGO_RUSTC@@");
    assert_eq!(units[1].package_version, "unknown");
    assert!(units[1].package_dependencies.is_empty());
    assert_eq!(units[1].build_script_binary, None);
    assert_eq!(units[1].target_triple, None);

    let lock = vec![LockPackage { name: "serde".to_string(), version: "1.0.0".to_string(), source: Some("registry+https://github.com/rust-lang/crates.io-index".to_string()), checksum: Some("abc".to_string()) }];
    let members = vec!["serde 1.0.0".to_string()];
    let p = plan_package(
        "serde 1.0.0".to_string(),
        "serde".to_string(),
        "1.0.0".to_string(),
        "registry+https://github.com/rust-lang/crates.io-index".to_string(),
        "/home/u/.cargo/registry/src/x/serde-1.0.0/Cargo.toml".to_string(),
        "/home/u/.cargo",
        &vec!["b".to_string(), "a".to_string(), "b".to_string()],
        &members,
        &lock,
    );
    assert_eq!(p.cargo_home_rel_manifest_path.as_deref(), Some("registry/src/x/serde-1.0.0/Cargo.toml"));
    assert_eq!(p.dependencies, vec!["a".to_string(), "b".to_string()]);
    let local = plan_package(
        "w 0.1.0".to_string(),
        "w".to_string(),
        "0.1.0".to_string(),
        "path+file:///ws/w".to_string(),
        "/ws/w/Cargo.toml".to_string(),
        "/home/u/.cargo",
        &vec![],
        &vec![],
        &lock,
    );
    assert_eq!(local.cargo_home_rel_manifest_path, None);
    assert!(!local.workspace_member);
    assert_eq!(local.lock_checksum, None);
    // A sibling directory whose name merely starts like Cargo home is not under it.
    let sibling = plan_package(
        "x 0.1.0".to_string(),
        "x".to_string(),
        "0.1.0".to_string(),
        "path+file:///home/u/.cargo2/x".to_string(),
        "/home/u/.cargo2/x/Cargo.toml".to_string(),
        "/home/u/.cargo",
        &vec![],
        &vec![],
        &lock,
    );
    assert_eq!(sibling.cargo_home_rel_manifest_path, None);
    assert!(p.workspace_member);
    assert_eq!(p.lock_checksum.as_deref(), Some("abc"));
}
