//! Planning and rendering logic for building Cargo workspaces as Nix derivations.

pub mod builder_script;
pub mod cargo_home;
pub mod cargo_plan;
pub mod command_display;
pub mod command_layout;
pub mod command_script;
pub mod derivation;
pub mod derived_path;
pub mod host_path;
pub mod libstore_backend;
pub mod model;
pub mod nix_emit;
pub mod nix_string;
pub mod nix_tool;
pub mod placeholder;
pub mod plan_package;
pub mod sorted;
pub mod source_scope;
pub mod store_path;
pub mod string_map;
pub mod text;
pub mod toolchain;
pub mod workspace;
