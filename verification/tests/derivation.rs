use nix_cargo::derivation::{Derivation, HashAlgorithm, OutputHashMode};
use nix_cargo::derived_path::{SingleDerivedPath, SingleDerivedPathBuilt};
use nix_cargo::store_path::StorePath;

fn sample_store_path() -> StorePath {
    StorePath::new("/nix/store/abcdefghijklmnopqrstuvwxyz123456-test").unwrap()
}

#[test]
fn ca_derivation() {
    let mut drv = Derivation::new(
        "ca-example",
        "x86_64-linux",
        "/nix/store/w7jl0h7mwrrrcy2kgvk9c9h9142f1ca0-bash/bin/bash",
    );

    drv.add_ca_output("out", HashAlgorithm::Sha256, OutputHashMode::Nar);

    let output = drv.outputs.get("out").unwrap();
    assert_eq!(output.hash_algo, Some(HashAlgorithm::Sha256));
    assert_eq!(output.method, Some(OutputHashMode::Nar));
    assert_eq!(output.hash, None);
}

#[test]
fn add_opaque_path() {
    let mut drv = Derivation::new("test", "x86_64-linux", "/bin/bash");
    let store_path1 = sample_store_path();
    let store_path2 = StorePath::new("/nix/store/zyxwvutsrqponmlkjihgfedcba987654-other").unwrap();
    let path1 = SingleDerivedPath::Opaque(store_path1.clone());
    let path2 = SingleDerivedPath::Opaque(store_path2.clone());

    drv.add_derived_path(&path1);
    drv.add_derived_path(&path2);

    assert!(drv.inputs.srcs.contains(&store_path1.to_string()));
    assert!(drv.inputs.srcs.contains(&store_path2.to_string()));
    assert!(drv.inputs.drvs.is_empty());
}

#[test]
fn add_built_path() {
    let mut drv = Derivation::new("test", "x86_64-linux", "/bin/bash");
    let store_path = sample_store_path();
    let built1 = SingleDerivedPathBuilt::new(store_path.clone(), "out".to_string());
    let built2 = SingleDerivedPathBuilt::new(store_path.clone(), "dev".to_string());
    let path1 = SingleDerivedPath::Built(built1);
    let path2 = SingleDerivedPath::Built(built2);

    drv.add_derived_path(&path1);
    drv.add_derived_path(&path2);

    assert!(drv.inputs.srcs.is_empty());
    let input_drv = drv.inputs.drvs.get(&store_path.to_string()).unwrap();
    let mut outputs = input_drv.outputs.clone();
    outputs.sort();
    assert_eq!(outputs, vec!["dev", "out"]);
    assert!(input_drv.dynamic_outputs.is_empty());
}

#[test]
fn add_multiple_dynamic_outputs() {
    let mut drv = Derivation::new("test", "x86_64-linux", "/bin/bash");
    let store_path = sample_store_path();

    let inner1 = SingleDerivedPathBuilt::new(store_path.clone(), "inner".to_string());
    let inner_path1 = SingleDerivedPath::Built(inner1);
    let outer1 = SingleDerivedPathBuilt::from_derived_path(inner_path1, "output1".to_string());
    let path1 = SingleDerivedPath::Built(outer1);

    drv.add_derived_path(&path1);

    assert!(drv.inputs.srcs.is_empty());
    let input_drv = drv.inputs.drvs.get(&store_path.to_string()).unwrap();
    assert!(input_drv.outputs.is_empty());
    let dynamic_output = input_drv.dynamic_outputs.get("inner").unwrap();
    assert_eq!(dynamic_output.outputs, vec!["output1"]);

    let inner2 = SingleDerivedPathBuilt::new(store_path.clone(), "inner".to_string());
    let inner_path2 = SingleDerivedPath::Built(inner2);
    let outer2 = SingleDerivedPathBuilt::from_derived_path(inner_path2, "output2".to_string());
    let path2 = SingleDerivedPath::Built(outer2);

    drv.add_derived_path(&path2);

    let input_drv = drv.inputs.drvs.get(&store_path.to_string()).unwrap();
    let dynamic_output = input_drv.dynamic_outputs.get("inner").unwrap();
    let mut outputs = dynamic_output.outputs.clone();
    outputs.sort();
    assert_eq!(outputs, vec!["output1", "output2"]);
    assert!(dynamic_output.dynamic_outputs.is_empty());
}

#[test]
fn add_nested_dynamic_output() {
    let mut drv = Derivation::new("test", "x86_64-linux", "/bin/bash");
    let store_path = sample_store_path();

    let level1 = SingleDerivedPathBuilt::new(store_path.clone(), "level1".to_string());
    let level1_path = SingleDerivedPath::Built(level1);
    let level2 = SingleDerivedPathBuilt::from_derived_path(level1_path, "level2".to_string());
    let level2_path = SingleDerivedPath::Built(level2);
    let level3 = SingleDerivedPathBuilt::from_derived_path(level2_path, "level3".to_string());
    let level3_path = SingleDerivedPath::Built(level3);
    let final_output = SingleDerivedPathBuilt::from_derived_path(level3_path, "output".to_string());
    let path = SingleDerivedPath::Built(final_output);

    drv.add_derived_path(&path);

    assert!(drv.inputs.srcs.is_empty());
    let input_drv = drv.inputs.drvs.get(&store_path.to_string()).unwrap();
    assert!(input_drv.outputs.is_empty());

    let level1_dynamic = input_drv.dynamic_outputs.get("level1").unwrap();
    assert!(level1_dynamic.outputs.is_empty());

    let level2_dynamic = level1_dynamic.dynamic_outputs.get("level2").unwrap();
    assert!(level2_dynamic.outputs.is_empty());

    let level3_dynamic = level2_dynamic.dynamic_outputs.get("level3").unwrap();
    assert_eq!(level3_dynamic.outputs, vec!["output"]);
    assert!(level3_dynamic.dynamic_outputs.is_empty());
}

#[test]
fn builder_fields_args_and_env() {
    let mut drv = Derivation::new("hello", "x86_64-linux", "/bin/bash");
    drv.add_arg("-c").add_arg("echo hi").set_env("PATH", "/bin").add_output("out", None, None, None);
    assert_eq!(drv.name, "hello");
    assert_eq!(drv.system, "x86_64-linux");
    assert_eq!(drv.builder, "/bin/bash");
    assert_eq!(drv.args, vec!["-c".to_string(), "echo hi".to_string()]);
    assert_eq!(drv.env.get("PATH").map(|v| v.as_str()), Some("/bin"));
    assert_eq!(drv.outputs.len(), 1);
    assert_eq!(drv.version, 4);
}

#[test]
fn set_output_path_stores_base_name() {
    let mut drv = Derivation::new("hello", "x86_64-linux", "/bin/bash");
    drv.add_output("out", None, None, None);
    drv.set_output_path("out", "/nix/store/abcdefghijklmnopqrstuvwxyz123456-hello");
    assert_eq!(
        drv.outputs.get("out").unwrap().path.as_deref(),
        Some("abcdefghijklmnopqrstuvwxyz123456-hello")
    );
    // An output that does not exist is left alone.
    drv.set_output_path("dev", "/nix/store/abcdefghijklmnopqrstuvwxyz123456-hello-dev");
    assert!(drv.outputs.get("dev").is_none());
}

#[test]
fn adding_same_built_path_twice_keeps_one_output() {
    let mut drv = Derivation::new("test", "x86_64-linux", "/bin/bash");
    let store_path = sample_store_path();
    let path = SingleDerivedPath::Built(SingleDerivedPathBuilt::new(store_path.clone(), "out".to_string()));
    drv.add_derived_path(&path);
    drv.add_derived_path(&path);
    let input_drv = drv.inputs.drvs.get(&store_path.to_string()).unwrap();
    assert_eq!(input_drv.outputs, vec!["out"]);
}

#[test]
fn adding_same_paths_twice_changes_nothing() {
    let mut drv = Derivation::new("test", "x86_64-linux", "/bin/bash");
    let store_path = sample_store_path();
    let inner = SingleDerivedPathBuilt::new(store_path.clone(), "out".to_string());
    let nested = SingleDerivedPath::Built(SingleDerivedPathBuilt::from_derived_path(
        SingleDerivedPath::Built(inner),
        "bin".to_string(),
    ));
    let opaque = SingleDerivedPath::Opaque(sample_store_path());
    for _ in 0..2 {
        drv.add_derived_path(&nested);
        drv.add_derived_path(&opaque);
    }
    assert_eq!(drv.inputs.srcs.len(), 1);
    assert_eq!(drv.inputs.drvs.len(), 1);
    let input_drv = drv.inputs.drvs.get(&store_path.to_string()).unwrap();
    assert!(input_drv.outputs.is_empty());
    assert_eq!(input_drv.dynamic_outputs.len(), 1);
    assert_eq!(input_drv.dynamic_outputs.get("out").unwrap().outputs, vec!["bin"]);
    assert_eq!(drv.name, "test");
    assert!(drv.outputs.is_empty() && drv.env.is_empty() && drv.args.is_empty());
}
