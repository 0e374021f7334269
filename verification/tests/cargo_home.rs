use nix_cargo::cargo_home::{
    build_cargo_home_materialization_plan, crates_io_archive_url, hex_nibble,
    is_crates_io_registry_source, parse_git_checkout_layout, parse_git_source, sha256_hex_bytes,
    sha256_hex_to_sri, sri_from_base64,
};
use nix_cargo::model::{Plan, PlanPackage};

const EMPTY_SHA256: &str = "e3b0c44298fc1c149afbf4c8996fb92427ae41e4649b934ca495991b7852b855";

fn package(key: &str, source: &str, rel: Option<&str>, checksum: Option<&str>) -> PlanPackage {
    PlanPackage {
        key: key.to_string(),
        name: "serde".to_string(),
        version: "1.0.0".to_string(),
        source: source.to_string(),
        manifest_path: "/x/Cargo.toml".to_string(),
        cargo_home_rel_manifest_path: rel.map(|s| s.to_string()),
        lock_checksum: checksum.map(|s| s.to_string()),
        workspace_member: false,
        dependencies: Vec::new(),
    }
}

fn plan_of(packages: Vec<PlanPackage>) -> Plan {
    Plan {
        workspace_root: "/ws".to_string(),
        manifest_path: "/ws/Cargo.toml".to_string(),
        cargo_home: "/home/u/.cargo".to_string(),
        target_dir: "/ws/target".to_string(),
        target_triple: None,
        packages,
        units: Vec::new(),
    }
}

#[test]
fn hex_and_sri() {
    assert_eq!(hex_nibble(b'0'), Some(0));
    assert_eq!(hex_nibble(b'f'), Some(15));
    assert_eq!(hex_nibble(b'A'), Some(10));
    assert_eq!(hex_nibble(b'g'), None);
    assert_eq!(sha256_hex_bytes("0aFf"), None);
    let bytes = sha256_hex_bytes(EMPTY_SHA256).unwrap();
    assert_eq!(bytes.len(), 32);
    assert_eq!(bytes[0], 0xe3);
    assert_eq!(bytes[31], 0x55);
    assert_eq!(
        sha256_hex_to_sri(EMPTY_SHA256),
        Some("sha256-47DEQpj8HBSa+/TImW+5JCeuQeRkm5NMpJWZG3hSuFU=".to_string())
    );
    assert_eq!(sha256_hex_to_sri(&EMPTY_SHA256.to_uppercase()), sha256_hex_to_sri(EMPTY_SHA256));
    assert_eq!(sha256_hex_to_sri("abc"), None);
    let mut bad = EMPTY_SHA256.to_string();
    bad.replace_range(10..11, "z");
    assert_eq!(sha256_hex_to_sri(&bad), None);
    assert_eq!(sri_from_base64("AAAA"), "sha256-AAAA");
}

#[test]
fn registry_sources_and_urls() {
    assert!(is_crates_io_registry_source(
        "registry+https://github.com/rust-lang/crates.io-index"
    ));
    assert!(is_crates_io_registry_source("sparse+https://index.crates.io/"));
    assert!(!is_crates_io_registry_source("registry+https://example.com/index"));
    let p = package("k", "registry+x", None, None);
    assert_eq!(
        crates_io_archive_url(&p),
        "https://static.crates.io/crates/serde/serde-1.0.0.crate"
    );
}

#[test]
fn git_sources() {
    let parsed = parse_git_source("git+https://github.com/a/b?branch=main&rev=abc123#def456").unwrap();
    assert_eq!(parsed.url, "https://github.com/a/b");
    assert_eq!(parsed.rev, "abc123");
    let parsed = parse_git_source("git+https://github.com/a/b#def456").unwrap();
    assert_eq!(parsed.url, "https://github.com/a/b");
    assert_eq!(parsed.rev, "def456");
    let parsed = parse_git_source("git+https://h/r?branch=x#f00").unwrap();
    assert_eq!(parsed.url, "https://h/r");
    assert_eq!(parsed.rev, "f00");
    assert!(parse_git_source("git+https://github.com/a/b#").is_none());
    assert!(parse_git_source("git+https://github.com/a/b?branch=main").is_none());
    assert!(parse_git_source("https://github.com/a/b#abc").is_none());
}

#[test]
fn git_checkout_layouts() {
    let layout = parse_git_checkout_layout("git/checkouts/repo-1234/abcdef/Cargo.toml").unwrap();
    assert_eq!(layout.destination_parent_rel, "git/checkouts/repo-1234/abcdef");
    assert_eq!(layout.repo_subpath, None);
    let layout =
        parse_git_checkout_layout("git/checkouts/repo-1234/abcdef/crates/sub/Cargo.toml").unwrap();
    assert_eq!(layout.destination_parent_rel, "git/checkouts/repo-1234/abcdef/crates/sub");
    assert_eq!(layout.repo_subpath, Some("crates/sub".to_string()));
    assert!(parse_git_checkout_layout("git/checkouts/repo/Cargo.toml").is_none());
    assert!(parse_git_checkout_layout("git/db/repo-1234/abcdef/Cargo.toml").is_none());
    assert!(parse_git_checkout_layout("git/checkouts/repo-1234/abcdef/lib.rs").is_none());
    assert!(parse_git_checkout_layout("registry/checkouts/r/a/Cargo.toml").is_none());
}

#[test]
fn cargo_home_plan_bindings() {
    let git = "git+https://github.com/a/b?rev=abc#abc";
    let plan = plan_of(vec![
        package(
            "reg",
            "registry+https://github.com/rust-lang/crates.io-index",
            Some("registry/src/index.crates.io-6f17d22bba15001f/serde-1.0.0/Cargo.toml"),
            Some(EMPTY_SHA256),
        ),
        package(
            "nochk",
            "registry+https://github.com/rust-lang/crates.io-index",
            Some("registry/src/i/serde-1.0.0/Cargo.toml"),
            None,
        ),
        package("other", "registry+https://example.com/index", Some("a/b/Cargo.toml"), None),
        package("g1", git, Some("git/checkouts/b-1/abc/Cargo.toml"), None),
        package("g2", git, Some("git/checkouts/b-1/abc/sub/Cargo.toml"), None),
        package("g3", "git+https://x/y#r", Some("git/checkouts/y-1/r/Cargo.toml"), None),
        package("badgit", "git+https://x/y", Some("git/checkouts/y-1/r/Cargo.toml"), None),
        package("local", "/ws/local", None, None),
        package("path", "path+file:///ws/p", Some("whatever/Cargo.toml"), None),
    ]);
    let r = build_cargo_home_materialization_plan(&plan);
    assert_eq!(r.registry_crates.len(), 1);
    assert_eq!(r.registry_crates[0].archive_binding, "cargoRegistryArchive0");
    assert_eq!(r.registry_crates[0].registry_src_parent, "registry/src/index.crates.io-6f17d22bba15001f");
    assert_eq!(
        r.registry_crates[0].download_url,
        "https://static.crates.io/crates/serde/serde-1.0.0.crate"
    );
    assert_eq!(
        r.registry_crates[0].hash_sri,
        "sha256-47DEQpj8HBSa+/TImW+5JCeuQeRkm5NMpJWZG3hSuFU="
    );
    assert_eq!(r.git_crates.len(), 3);
    assert_eq!(r.git_crates[0].source_binding, "cargoGitSource0");
    assert_eq!(r.git_crates[1].source_binding, "cargoGitSource0");
    assert_eq!(r.git_crates[2].source_binding, "cargoGitSource1");
    assert_eq!(r.git_crates[0].url, "https://github.com/a/b");
    assert_eq!(r.git_crates[0].rev, "abc");
    assert_eq!(r.git_crates[1].repo_subpath, Some("sub".to_string()));
    assert_eq!(r.git_crates[2].source_key, "git+https://x/y#r");
    assert_eq!(
        r.unsupported_package_keys,
        vec!["nochk".to_string(), "other".to_string(), "badgit".to_string()]
    );
}
