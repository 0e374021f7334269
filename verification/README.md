# nix_cargo

Plans and materializes per-package Nix builds of a Cargo workspace.

- `src/` is the library, verified with Verus: the workspace and build plan
  models, the normalization of captured compiler commands, the dependency
  order of packages, the split of each package into a metadata phase and a
  full phase, the derivations and builder scripts, the Nix expression, the
  Cargo home plan, derivations and derived paths, store paths and
  placeholders, and the decisions around the `nix` command line.
- `app/` is the `nix-cargo` program around it: the command line, driving
  Cargo, running `nix`, staging sources on disk, and the JSON forms of the
  library's types.
- `tests/` runs the library on concrete inputs.
