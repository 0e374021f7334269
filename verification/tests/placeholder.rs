use std::path::PathBuf;

use nix_cargo::placeholder::{output_path_name, Placeholder};
use nix_cargo::store_path::{StorePath, StorePathError};

#[test]
fn test_standard_placeholder() {
    let placeholder = Placeholder::standard_output("out");
    assert_eq!(
        PathBuf::from(placeholder.render()),
        PathBuf::from("/1rz4g4znpzjwh1xymhjpm42vipw92pr73vdgl6xs1hycac8kf2n9")
    );
}

#[test]
fn test_ca_placeholder() {
    let store_path = StorePath::new("/nix/store/g1w7hy3qg1w7hy3qg1w7hy3qg1w7hy3q-foo.drv").unwrap();
    let placeholder = Placeholder::ca_output(&store_path, "out");
    assert_eq!(
        PathBuf::from(placeholder.render()),
        PathBuf::from("/0c6rn30q4frawknapgwq386zq358m8r6msvywcvc89n6m5p2dgbz")
    );
}

#[test]
fn test_dynamic_placeholder() {
    let store_path = StorePath::new("/nix/store/g1w7hy3qg1w7hy3qg1w7hy3qg1w7hy3q-foo.drv.drv").unwrap();
    let placeholder = Placeholder::ca_output(&store_path, "out");
    let dynamic = Placeholder::dynamic_output(&placeholder, "out");
    assert_eq!(
        PathBuf::from(dynamic.render()),
        PathBuf::from("/0gn6agqxjyyalf0dpihgyf49xq5hqxgw100f0wydnj6yqrhqsb3w"),
    )
}

#[test]
fn test_store_path_parsing() {
    let path = StorePath::new("/nix/store/ac8da0sqpg4pyhzyr0qgl26d5dnpn7qp-hello-2.10.tar.gz").unwrap();
    assert_eq!(path.hash_part(), "ac8da0sqpg4pyhzyr0qgl26d5dnpn7qp");
    assert_eq!(path.name(), "hello-2.10.tar.gz");

    let drv_path = StorePath::new("/nix/store/q3lv9bi7r4di3kxdjhy7kvwgvpmanfza-hello-2.10.drv").unwrap();
    assert_eq!(drv_path.hash_part(), "q3lv9bi7r4di3kxdjhy7kvwgvpmanfza");
    assert_eq!(drv_path.name(), "hello-2.10.drv");
    assert!(drv_path.is_derivation());
}

#[test]
fn test_output_path_name() {
    assert_eq!(output_path_name("hello-2.10", "out"), "hello-2.10");
    assert_eq!(output_path_name("hello-2.10", "bin"), "hello-2.10-bin");
    assert_eq!(output_path_name("hello-2.10", "dev"), "hello-2.10-dev");
}

#[test]
fn store_path_errors() {
    match StorePath::new("/nix/store/") {
        Err(StorePathError::InvalidFormat(name)) => assert_eq!(name, "store"),
        other => panic!("unexpected result {:?}", other),
    }
    assert!(matches!(StorePath::new("/"), Err(StorePathError::MissingFilename)));
    match StorePath::new("/nix/store/short-name") {
        Err(StorePathError::InvalidFormat(name)) => assert_eq!(name, "short-name"),
        other => panic!("unexpected result {:?}", other),
    }
    assert!(matches!(StorePath::new(""), Err(StorePathError::MissingFilename)));
    let p = StorePath::new("/nix/store/ac8da0sqpg4pyhzyr0qgl26d5dnpn7qp-hello").unwrap();
    assert!(!p.is_derivation());
    assert_eq!(p.path(), "/nix/store/ac8da0sqpg4pyhzyr0qgl26d5dnpn7qp-hello");
}

#[test]
fn standard_placeholders_differ_by_output() {
    let out = Placeholder::standard_output("out").render();
    let dev = Placeholder::standard_output("dev").render();
    assert_ne!(out, dev);
    assert_eq!(out.len(), 53);
}

#[test]
fn placeholder_from_base32_text() {
    let text = "0ysj00x31q08vxsznqd9pmvwa0rrzza8qqjy3hcvhallzm054cxb";
    let p = Placeholder::try_from(text.to_string()).unwrap();
    assert_eq!(p.render(), format!("/{text}"));
    let err = Placeholder::try_from("0ysj00x31q08vxsznqd9pmvwa0rrzza8qqjy3hcvhallzm054cxe".to_string())
        .unwrap_err();
    assert_eq!(err.text, "0ysj00x31q08vxsznqd9pmvwa0rrzza8qqjy3hcvhallzm054cxe");
    // A rendered placeholder starts with `/`, which is no base32 digit.
    let rendered = Placeholder::standard_output("out").render();
    assert!(Placeholder::try_from(rendered).is_err());
    // A text with a non-digit is refused whatever its length.
    assert_eq!(Placeholder::try_from("e".to_string()).unwrap_err().text, "e");
    assert!(Placeholder::try_from("0t0".to_string()).is_err());
}

#[test]
fn store_path_hash_part_counts_characters() {
    let path = format!("/nix/store/é{}-x", "a".repeat(31));
    let p = StorePath::new(&path).unwrap();
    assert_eq!(p.hash_part(), format!("é{}", "a".repeat(31)));
    assert_eq!(p.hash_part().chars().count(), 32);
    assert_eq!(p.name(), "x");
    assert_eq!(format!("{}-{}", p.hash_part(), p.name()), format!("é{}-x", "a".repeat(31)));
    let q = StorePath::new(&format!("/nix/store/{}é-x.drv", "a".repeat(31))).unwrap();
    assert_eq!(q.hash_part(), format!("{}é", "a".repeat(31)));
    assert_eq!(q.name(), "x.drv");
    assert!(q.is_derivation());
}

#[test]
fn ca_placeholders_drop_one_drv_suffix() {
    let h = "abcdefghijklmnopqrstuvwxyz123456";
    let a = StorePath::new(&format!("/nix/store/{h}-hello.drv")).unwrap();
    let b = StorePath::new(&format!("/nix/store/{h}-hello")).unwrap();
    for o in ["out", "dev"] {
        assert_eq!(
            Placeholder::ca_output(&a, o).render(),
            Placeholder::ca_output(&b, o).render()
        );
    }
    let c = StorePath::new(&format!("/nix/store/{h}-hello.drv.drv")).unwrap();
    assert_ne!(Placeholder::ca_output(&c, "out").render(), Placeholder::ca_output(&b, "out").render());
}
