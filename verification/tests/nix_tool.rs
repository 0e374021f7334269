use nix_cargo::derivation::Derivation;
use nix_cargo::derived_path::{SingleDerivedPath, SingleDerivedPathBuilt};
use nix_cargo::nix_tool::{
    build_outputs, output_store_path, shown_output_path, BuildFailure,
    derivation_add_next, DerivationAddNext, DERIVATION_ADD_ATTEMPTS,
    extract_expected_output_store_path, parse_build_output, parse_store_path_output,
    plan_derivation_add_retry, DerivationAddRetry, NixTool, StoreConfig,
};
use nix_cargo::store_path::StorePath;
use nix_cargo::string_map::StringMap;

const P1: &str = "/nix/store/abcdefghijklmnopqrstuvwxyz123456-one";
const P2: &str = "/nix/store/zyxwvutsrqponmlkjihgfedcba987654-two";

fn tool() -> NixTool {
    NixTool::new(StoreConfig {
        nix_tool: "nix".to_string(),
        extra_args: vec!["--extra-experimental-features".to_string(), "nix-command".to_string()],
    })
}

#[test]
fn nix_command_arguments() {
    let t = tool();
    assert_eq!(t.config().nix_tool, "nix");
    let drv = StorePath::new(&format!("{P1}.drv")).unwrap();
    let built = SingleDerivedPath::Built(SingleDerivedPathBuilt::new(drv.clone(), "out".to_string()));
    let opaque = SingleDerivedPath::Opaque(StorePath::new(P2).unwrap());
    assert_eq!(
        t.build_args(&vec![built, opaque]),
        vec![
            "--extra-experimental-features",
            "nix-command",
            "build",
            "-L",
            "--no-link",
            "--print-out-paths",
            &format!("{P1}.drv^out"),
            P2,
        ]
    );
    assert_eq!(
        t.store_add_args("/tmp/src", Some("name")),
        vec!["--extra-experimental-features", "nix-command", "store", "add", "--name", "name", "/tmp/src"]
    );
    assert_eq!(
        t.store_add_args("/tmp/src", None),
        vec!["--extra-experimental-features", "nix-command", "store", "add", "/tmp/src"]
    );
    assert_eq!(
        t.derivation_show_args(&drv),
        vec!["--extra-experimental-features", "nix-command", "derivation", "show", &format!("{P1}.drv")]
    );
    assert_eq!(
        t.derivation_add_args(),
        vec!["--extra-experimental-features", "nix-command", "derivation", "add"]
    );
    let default = NixTool::new(StoreConfig::default());
    assert_eq!(default.derivation_add_args(), vec!["derivation", "add"]);
}

#[test]
fn nix_output_parsing() {
    assert_eq!(parse_store_path_output(&format!("  {P1}\n")).unwrap().to_string(), P1);
    assert!(parse_store_path_output("garbage").is_err());
    let paths = parse_build_output(&format!("{P1}\n {P2} \n")).unwrap();
    assert_eq!(paths.len(), 2);
    assert_eq!(paths[0].to_string(), P1);
    assert_eq!(paths[1].to_string(), P2);
    assert!(parse_build_output("").unwrap().is_empty());
    assert!(parse_build_output(&format!("{P1}\nnot-a-path\n")).is_err());
}

#[test]
fn expected_output_paths_from_errors() {
    let stderr = format!("error: derivation has incorrect output '{P1}', should be '{P2}'");
    assert_eq!(extract_expected_output_store_path(&stderr), Some(P2.to_string()));
    assert_eq!(extract_expected_output_store_path("should be '/tmp/x'"), None);
    assert_eq!(extract_expected_output_store_path("should be '/nix/store/abc"), None);
    assert_eq!(extract_expected_output_store_path("other failure"), None);
}

#[test]
fn derivation_add_retry_decisions() {
    let stderr = format!("output path mismatch, should be '{P2}'");
    let mut drv = Derivation::new("x", "x86_64-linux", "/bin/sh");
    assert!(matches!(plan_derivation_add_retry(&mut drv, &stderr), DerivationAddRetry::NoOutputs));
    assert!(matches!(plan_derivation_add_retry(&mut drv, "boom"), DerivationAddRetry::Failed));

    drv.add_output("dev", None, None, None);
    drv.add_output("bin", None, None, None);
    match plan_derivation_add_retry(&mut drv, &stderr) {
        DerivationAddRetry::Retry { output } => assert_eq!(output, "bin"),
        other => panic!("unexpected {other:?}"),
    }
    assert_eq!(
        drv.outputs.get("bin").unwrap().path.as_deref(),
        Some("zyxwvutsrqponmlkjihgfedcba987654-two")
    );
    assert_eq!(drv.env.get("bin").map(|s| s.as_str()), Some(P2));
    assert!(drv.outputs.get("dev").unwrap().path.is_none());

    drv.add_output("out", None, None, None);
    match plan_derivation_add_retry(&mut drv, &stderr) {
        DerivationAddRetry::Retry { output } => assert_eq!(output, "out"),
        other => panic!("unexpected {other:?}"),
    }
    assert_eq!(drv.env.get("out").map(|s| s.as_str()), Some(P2));
}

#[test]
fn derivation_add_steps() {
    let mismatch = format!("should be '{P2}'");
    let mut drv = Derivation::new("x", "x86_64-linux", "/bin/sh");
    match derivation_add_next(&mut drv, 0, true, &format!("{P1}\n"), "") {
        DerivationAddNext::Added(Ok(p)) => assert_eq!(p.to_string(), P1),
        other => panic!("unexpected {other:?}"),
    }
    assert!(matches!(
        derivation_add_next(&mut drv, 0, true, "nonsense", ""),
        DerivationAddNext::Added(Err(_))
    ));
    assert!(matches!(
        derivation_add_next(&mut drv, 0, false, "", "boom"),
        DerivationAddNext::Refused(m) if m == "boom"
    ));
    assert!(matches!(
        derivation_add_next(&mut drv, 0, false, "", &mismatch),
        DerivationAddNext::Unresolved
    ));
    drv.add_output("out", None, None, None);
    assert!(matches!(
        derivation_add_next(&mut drv, 0, false, "", &mismatch),
        DerivationAddNext::Again
    ));
    assert_eq!(drv.env.get("out").map(|s| s.as_str()), Some(P2));
    assert!(matches!(
        derivation_add_next(&mut drv, DERIVATION_ADD_ATTEMPTS - 1, false, "", &mismatch),
        DerivationAddNext::Unresolved
    ));
}

#[test]
fn output_paths_live_next_to_their_derivation() {
    let drv = StorePath::new(&format!("{P1}.drv")).unwrap();
    assert_eq!(
        output_store_path(&drv, "zyxwvutsrqponmlkjihgfedcba987654-two"),
        Some(P2.to_string())
    );
}

#[test]
fn shown_output_paths() {
    let drv = StorePath::new(&format!("{P1}.drv")).unwrap();
    let mut outputs = StringMap::new();
    outputs.insert("out".to_string(), "zyxwvutsrqponmlkjihgfedcba987654-two".to_string());
    let mut shown = StringMap::new();
    shown.insert("abcdefghijklmnopqrstuvwxyz123456-one.drv".to_string(), outputs);
    assert_eq!(shown_output_path(&shown, &drv, "out"), Some(P2.to_string()));
    assert_eq!(shown_output_path(&shown, &drv, "dev"), None);
    let other = StorePath::new(P2).unwrap();
    assert_eq!(shown_output_path(&shown, &other, "out"), None);
}

#[test]
fn build_outputs_read_the_printed_paths() {
    assert_eq!(build_outputs(true, &format!("{P1}\n {P2}\n"), "").unwrap(), vec![P1.to_string(), P2.to_string()]);
    assert!(build_outputs(true, "", "").unwrap().is_empty());
    assert!(matches!(build_outputs(false, P1, "boom"), Err(BuildFailure::Failed(m)) if m == "boom"));
    assert!(matches!(
        build_outputs(true, &format!("{P1}\nnot-a-path\n"), ""),
        Err(BuildFailure::InvalidOutput(_))
    ));
}
