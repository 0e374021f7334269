use nix_cargo::derived_path::{SingleDerivedPath, SingleDerivedPathBuilt};
use nix_cargo::store_path::StorePath;

fn sample_store_path() -> StorePath {
    StorePath::new("/nix/store/abcdefghijklmnopqrstuvwxyz123456-test").unwrap()
}

#[test]
fn opaque_path() {
    let store_path = sample_store_path();
    let path = SingleDerivedPath::Opaque(store_path.clone());

    assert_eq!(path.store_path(), store_path);
    assert_eq!(path.to_string(), store_path.to_string());
}

#[test]
fn built_path() {
    let store_path = sample_store_path();
    let built = SingleDerivedPathBuilt::new(store_path.clone(), "out".to_string());
    let path = SingleDerivedPath::Built(built);

    assert_eq!(path.store_path(), store_path);
    assert_eq!(path.to_string(), format!("{}^out", store_path.to_string()));
}

#[test]
fn nested_path() {
    let store_path = sample_store_path();
    let inner_built = SingleDerivedPathBuilt::new(store_path.clone(), "inner".to_string());
    let inner_path = SingleDerivedPath::Built(inner_built);
    let outer_built = SingleDerivedPathBuilt::from_derived_path(inner_path, "outer".to_string());
    let outer_path = SingleDerivedPath::Built(outer_built);

    assert_eq!(outer_path.store_path(), store_path);
    assert_eq!(outer_path.to_string(), format!("{}^inner^outer", store_path.to_string()));
}
