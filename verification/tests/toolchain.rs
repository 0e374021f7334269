use nix_cargo::derivation::Derivation;
use nix_cargo::store_path::StorePath;
use nix_cargo::toolchain::{
    out_of, tool_env_keys, tool_from_env_values, NixpkgsTool, ToolOverrideError, Toolchain,
};

fn tool(n: char) -> NixpkgsTool {
    let h: String = std::iter::repeat(n).take(32).collect();
    NixpkgsTool {
        drv_path: StorePath::new(&format!("/nix/store/{h}-tool.drv")).unwrap(),
        out_path: StorePath::new(&format!("/nix/store/{h}-tool")).unwrap(),
    }
}

fn toolchain() -> Toolchain {
    Toolchain {
        bash: tool('a'),
        coreutils: tool('b'),
        cargo: tool('c'),
        rustc: tool('d'),
        pkg_config: tool('f'),
        cc: tool('g'),
    }
}

#[test]
fn toolchain_paths() {
    let t = toolchain();
    let a = "a".repeat(32);
    assert_eq!(t.bash_builder(), format!("/nix/store/{a}-tool/bin/bash"));
    assert_eq!(t.rustc_bin(), format!("/nix/store/{}-tool/bin/rustc", "d".repeat(32)));
    assert_eq!(t.cargo_bin(), format!("/nix/store/{}-tool/bin/cargo", "c".repeat(32)));
    assert_eq!(
        t.path_env(),
        format!(
            "/nix/store/{}-tool/bin:/nix/store/{}-tool/bin:/nix/store/{}-tool/bin:/nix/store/{}-tool/bin",
            "b".repeat(32),
            "f".repeat(32),
            "g".repeat(32),
            a
        )
    );
}

#[test]
fn toolchain_inputs_are_each_out_output() {
    let t = toolchain();
    let mut drv = Derivation::new("x", "x86_64-linux", "/bin/sh");
    t.add_inputs(&mut drv);
    assert_eq!(drv.inputs.drvs.len(), 6);
    for n in ['a', 'b', 'c', 'd', 'f', 'g'] {
        let key = format!("/nix/store/{}-tool.drv", n.to_string().repeat(32));
        assert_eq!(drv.inputs.drvs.get(&key).unwrap().outputs, vec!["out".to_string()]);
    }
    // Adding them again changes nothing.
    t.add_inputs(&mut drv);
    assert_eq!(drv.inputs.drvs.len(), 6);
    let key = format!("/nix/store/{}-tool.drv", "a".repeat(32));
    assert_eq!(drv.inputs.drvs.get(&key).unwrap().outputs, vec!["out".to_string()]);
    let out = out_of(&tool('a').drv_path);
    assert_eq!(out.to_string(), format!("{key}^out"));
}

#[test]
fn tool_overrides_from_env_values() {
    let (drv, out) = tool_env_keys("PKG_CONFIG");
    assert_eq!(drv, "NIXCARGO_TOOL_PKG_CONFIG_DRV");
    assert_eq!(out, "NIXCARGO_TOOL_PKG_CONFIG_OUT");
    assert!(matches!(tool_from_env_values(None, None), Ok(None)));
    let good = format!("/nix/store/{}-x", "a".repeat(32));
    assert!(matches!(
        tool_from_env_values(Some(good.clone()), None),
        Err(ToolOverrideError::Incomplete)
    ));
    assert!(matches!(
        tool_from_env_values(None, Some(good.clone())),
        Err(ToolOverrideError::Incomplete)
    ));
    assert!(matches!(
        tool_from_env_values(Some("/tmp/x".to_string()), Some(good.clone())),
        Err(ToolOverrideError::InvalidDrvPath(_))
    ));
    assert!(matches!(
        tool_from_env_values(Some(good.clone()), Some("/tmp/x".to_string())),
        Err(ToolOverrideError::InvalidOutPath(_))
    ));
    match tool_from_env_values(Some(good.clone()), Some(good.clone())) {
        Ok(Some(t)) => {
            assert_eq!(t.drv_path.to_string(), good);
            assert_eq!(t.out_path.to_string(), good);
        }
        other => panic!("unexpected {other:?}"),
    }
}
