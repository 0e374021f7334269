use nix_cargo::libstore_backend::{
    artifact_crate_stem, command_emits_metadata, command_has_lib_crate_type,
    dependency_phase_for_artifact, is_build_script_compile_unit, is_metadata_phase_unit,
    normalize_crate_name, parse_extern_spec, phase_derivation_name, sanitize_derivation_component,
    source_store_name, stronger_phase, DependencyPhase,
};
use nix_cargo::model::{CommandSpec, Unit};

fn rustc(args: &[&str]) -> CommandSpec {
    CommandSpec {
        cwd: None,
        env: Vec::new(),
        program: "rustc".to_string(),
        args: args.iter().map(|a| a.to_string()).collect(),
    }
}

fn unit_of(kind: &str, mode: &str, args: &[&str]) -> Unit {
    Unit {
        unit_id: "u".to_string(),
        package_key: "p".to_string(),
        package_name: "p".to_string(),
        package_version: "0.1.0".to_string(),
        target_name: "p".to_string(),
        target_kind: kind.to_string(),
        compile_mode: mode.to_string(),
        target_triple: None,
        build_script_binary: None,
        package_dependencies: Vec::new(),
        command: rustc(args),
    }
}

#[test]
fn stronger_phase_prefers_full() {
    let (full, metadata) = (DependencyPhase::Full, DependencyPhase::Metadata);
    assert_eq!(stronger_phase(metadata, metadata), metadata);
    assert_eq!(stronger_phase(metadata, full), full);
    assert_eq!(stronger_phase(full, metadata), full);
    assert_eq!(stronger_phase(full, full), full);
    // Order of the arguments does not matter, and joining twice changes nothing.
    for a in [metadata, full] {
        for b in [metadata, full] {
            assert_eq!(stronger_phase(a, b), stronger_phase(b, a));
            assert_eq!(stronger_phase(stronger_phase(a, b), b), stronger_phase(a, b));
        }
    }
}

#[test]
fn emit_and_crate_type_detection() {
    assert!(command_emits_metadata(&rustc(&["--emit=dep-info,metadata,link"])));
    assert!(command_emits_metadata(&rustc(&["--emit", "metadata"])));
    assert!(!command_emits_metadata(&rustc(&["--emit=dep-info,link"])));
    assert!(!command_emits_metadata(&rustc(&["--emit"])));
    // The first `--emit=` decides, before any split `--emit`.
    assert!(!command_emits_metadata(&rustc(&["--emit", "metadata", "--emit=link"])));
    assert!(command_has_lib_crate_type(&rustc(&["--crate-type=lib"])));
    assert!(command_has_lib_crate_type(&rustc(&["--crate-type", "lib"])));
    assert!(!command_has_lib_crate_type(&rustc(&["--crate-type", "bin"])));
    assert!(!command_has_lib_crate_type(&rustc(&["--crate-type=rlib", "--crate-type", "lib"])));
    assert!(!command_has_lib_crate_type(&rustc(&[])));
}

#[test]
fn unit_kinds() {
    assert!(is_build_script_compile_unit(&unit_of("custom-build", "Build", &[])));
    assert!(is_build_script_compile_unit(&unit_of("build-script", "Build", &[])));
    assert!(!is_build_script_compile_unit(&unit_of("custom-build", "RunCustomBuild", &[])));
    assert!(!is_build_script_compile_unit(&unit_of("lib", "Build", &[])));
    assert!(is_metadata_phase_unit(&unit_of(
        "lib",
        "Build",
        &["--crate-type", "lib", "--emit=metadata"]
    )));
    assert!(!is_metadata_phase_unit(&unit_of("lib", "Build", &["--crate-type", "lib"])));
}

#[test]
fn extern_specs_and_artifacts() {
    assert_eq!(
        parse_extern_spec("a=b=c"),
        Some(("a".to_string(), "b=c".to_string()))
    );
    assert_eq!(parse_extern_spec("noequals"), None);
    assert_eq!(parse_extern_spec("=x"), Some((String::new(), "x".to_string())));
    assert_eq!(dependency_phase_for_artifact("x/libfoo.rmeta"), DependencyPhase::Metadata);
    assert_eq!(dependency_phase_for_artifact("x/libfoo.rlib"), DependencyPhase::Full);
    assert_eq!(normalize_crate_name("serde-json-x"), "serde_json_x");
    assert_eq!(normalize_crate_name("plain"), "plain");
}

#[test]
fn artifact_stems() {
    assert_eq!(
        artifact_crate_stem("/t/debug/deps/libserde_json-0123abcd.rlib"),
        Some("serde_json".to_string())
    );
    assert_eq!(
        artifact_crate_stem("/t/debug/deps/libfoo-ABCDEF99.rmeta"),
        Some("foo".to_string())
    );
    // A suffix that is not a hash stays part of the stem.
    assert_eq!(
        artifact_crate_stem("/t/deps/libfoo-bar.rlib"),
        Some("foo-bar".to_string())
    );
    // No `-` at all.
    assert_eq!(artifact_crate_stem("/t/deps/libfoo.so"), None);
    // No `lib` prefix.
    assert_eq!(artifact_crate_stem("foo-12.dll"), Some("foo".to_string()));
    // No file name.
    assert_eq!(artifact_crate_stem(""), None);
    assert_eq!(artifact_crate_stem("/"), None);
}

#[test]
fn derivation_names_are_sanitized() {
    assert_eq!(sanitize_derivation_component("my crate!!name"), "my-crate-name");
    assert_eq!(sanitize_derivation_component("--a--b--"), "a-b");
    assert_eq!(sanitize_derivation_component("v1.2_x"), "v1.2_x");
    assert_eq!(sanitize_derivation_component("über"), "ber");
    assert_eq!(sanitize_derivation_component("!!!"), "");
    assert_eq!(phase_derivation_name("serde", 3, None), "nix-cargo-serde-3");
    assert_eq!(
        phase_derivation_name("my pkg", 12, Some("meta")),
        "nix-cargo-my-pkg-12-meta"
    );
    assert_eq!(source_store_name("a/b", 0), "nix-cargo-src-a-b-0");
}
