//! Rendering a plan as a Nix expression: the preamble with the plan's
//! paths, the Cargo home fetches, the per-package crate plan, and the public
//! attributes.

use vstd::prelude::*;

use crate::cargo_home::{
    git_view, registry_view, CargoHomeMaterializationPlan, GitCrateMaterialization,
    RegistryCrateMaterialization,
};
use crate::model::{
    Plan, PATH_MARKER_CARGO_BIN, PATH_MARKER_CARGO_HOME, PATH_MARKER_RUSTC, PATH_MARKER_SRC,
    PATH_MARKER_TARGET,
};
use crate::nix_string::{
    join, nix_bool, nix_escape, nix_optional_string, nix_string, nix_string_list,
    spec_nix_escape, spec_nix_string, spec_nix_string_list,
};
use crate::string_map::StringSet;
use crate::text::strings_view;

verus! {

/// A Nix string literal for `Some`, `null` for `None`.
pub open spec fn spec_nix_optional_string(value: Option<Seq<char>>) -> Seq<char> {
    match value {
        Some(v) => spec_nix_string(v),
        None => "null"@,
    }
}

/// An indented `name = value;` binding line of a `let` block.
pub open spec fn nix_binding(name: Seq<char>, value: Seq<char>) -> Seq<char> {
    "  "@ + name + " = "@ + value + ";\n"@
}

fn append_binding(out: &mut String, name: &str, value: &str)
    ensures
        final(out)@ == old(out)@ + nix_binding(name@, value@),
{
    out.append("  ");
    out.append(name);
    out.append(" = ");
    out.append(value);
    out.append(";\n");
}

/// The header of the expression: its arguments (the source, Cargo home, git
/// hashes, impure git fetching, release mode) and the plan's paths, target
/// triple and path markers.
pub open spec fn spec_preamble(
    workspace_root: Seq<char>,
    target_dir: Seq<char>,
    target_triple: Option<Seq<char>>,
    default_src: Seq<char>,
    release_default: Seq<char>,
) -> Seq<char> {
    "{ pkgs ? import <nixpkgs> {}, src ? "@ + default_src
        + ", cargoHome ? null, gitSourceHashes ? {}, allowImpureGitFetch ? false, release ? "@
        + release_default + " }:\n"@ + "let\n"@ + "  inherit (pkgs.lib) foldl';\n"@
        + "  buildMode = if release then \"release\" else \"debug\";\n"@ + nix_binding(
        "planWorkspaceRoot"@,
        spec_nix_string(workspace_root),
    ) + nix_binding("planTargetDir"@, spec_nix_string(target_dir)) + nix_binding(
        "planTargetTriple"@,
        spec_nix_optional_string(target_triple),
    ) + nix_binding("markerSrc"@, spec_nix_string(PATH_MARKER_SRC@)) + nix_binding(
        "markerTarget"@,
        spec_nix_string(PATH_MARKER_TARGET@),
    ) + nix_binding("markerCargoHome"@, spec_nix_string(PATH_MARKER_CARGO_HOME@)) + nix_binding(
        "markerRustc"@,
        spec_nix_string(PATH_MARKER_RUSTC@),
    ) + nix_binding("markerCargoBin"@, spec_nix_string(PATH_MARKER_CARGO_BIN@))
}

/// Appends the header of the expression.
pub fn append_preamble(out: &mut String, plan: &Plan, default_src: &str, release_default: &str)
    ensures
        final(out)@ == old(out)@ + spec_preamble(
            plan.workspace_root@,
            plan.target_dir@,
            match plan.target_triple {
                Some(t) => Some(t@),
                None => None,
            },
            default_src@,
            release_default@,
        ),
{
    let mut s = String::new();
    s.append("{ pkgs ? import <nixpkgs> {}, src ? ");
    s.append(default_src);
    s.append(", cargoHome ? null, gitSourceHashes ? {}, allowImpureGitFetch ? false, release ? ");
    s.append(release_default);
    s.append(" }:\n");
    s.append("let\n");
    s.append("  inherit (pkgs.lib) foldl';\n");
    s.append("  buildMode = if release then \"release\" else \"debug\";\n");
    let ws = nix_string(plan.workspace_root.as_str());
    append_binding(&mut s, "planWorkspaceRoot", ws.as_str());
    let td = nix_string(plan.target_dir.as_str());
    append_binding(&mut s, "planTargetDir", td.as_str());
    let triple = match &plan.target_triple {
        Some(t) => nix_optional_string(Some(t.as_str())),
        None => nix_optional_string(None),
    };
    append_binding(&mut s, "planTargetTriple", triple.as_str());
    let m1 = nix_string(PATH_MARKER_SRC);
    append_binding(&mut s, "markerSrc", m1.as_str());
    let m2 = nix_string(PATH_MARKER_TARGET);
    append_binding(&mut s, "markerTarget", m2.as_str());
    let m3 = nix_string(PATH_MARKER_CARGO_HOME);
    append_binding(&mut s, "markerCargoHome", m3.as_str());
    let m4 = nix_string(PATH_MARKER_RUSTC);
    append_binding(&mut s, "markerRustc", m4.as_str());
    let m5 = nix_string(PATH_MARKER_CARGO_BIN);
    append_binding(&mut s, "markerCargoBin", m5.as_str());
    out.append(s.as_str());
}

/// The fetch of one registry crate archive.
pub open spec fn registry_fetch_line(r: (Seq<char>, Seq<char>, Seq<char>, Seq<char>)) -> Seq<char> {
    "  "@ + r.0 + " = pkgs.fetchurl { url = "@ + spec_nix_string(r.2) + "; hash = "@
        + spec_nix_string(r.3) + "; };\n"@
}

/// The fetch of one git source: pinned by a hash from `gitSourceHashes`,
/// else impure when allowed, else an error.
pub open spec fn git_fetch_line(
    g: (Seq<char>, Seq<char>, Seq<char>, Seq<char>, Seq<char>, Option<Seq<char>>),
) -> Seq<char> {
    "  "@ + g.0 + " = if builtins.hasAttr "@ + spec_nix_string(g.1)
        + " gitSourceHashes then pkgs.fetchgit { url = "@ + spec_nix_string(g.2) + "; rev = "@
        + spec_nix_string(g.3) + "; hash = builtins.getAttr "@ + spec_nix_string(g.1)
        + " gitSourceHashes; } else if allowImpureGitFetch then builtins.fetchGit { url = "@
        + spec_nix_string(g.2) + "; rev = "@ + spec_nix_string(g.3)
        + "; } else throw \"nix-cargo: missing git hash for source "@ + spec_nix_escape(g.1)
        + ". Pass gitSourceHashes or set allowImpureGitFetch = true.\";\n"@
}

fn registry_fetch_string(entry: &RegistryCrateMaterialization) -> (r: String)
    ensures
        r@ == registry_fetch_line(registry_view(*entry)),
{
    let mut s = String::new();
    s.append("  ");
    s.append(entry.archive_binding.as_str());
    s.append(" = pkgs.fetchurl { url = ");
    s.append(nix_string(entry.download_url.as_str()).as_str());
    s.append("; hash = ");
    s.append(nix_string(entry.hash_sri.as_str()).as_str());
    s.append("; };\n");
    s
}

fn git_fetch_string(entry: &GitCrateMaterialization) -> (r: String)
    ensures
        r@ == git_fetch_line(git_view(*entry)),
{
    let key = nix_string(entry.source_key.as_str());
    let url = nix_string(entry.url.as_str());
    let rev = nix_string(entry.rev.as_str());
    let mut s = String::new();
    s.append("  ");
    s.append(entry.source_binding.as_str());
    s.append(" = if builtins.hasAttr ");
    s.append(key.as_str());
    s.append(" gitSourceHashes then pkgs.fetchgit { url = ");
    s.append(url.as_str());
    s.append("; rev = ");
    s.append(rev.as_str());
    s.append("; hash = builtins.getAttr ");
    s.append(key.as_str());
    s.append(" gitSourceHashes; } else if allowImpureGitFetch then builtins.fetchGit { url = ");
    s.append(url.as_str());
    s.append("; rev = ");
    s.append(rev.as_str());
    s.append("; } else throw \"nix-cargo: missing git hash for source ");
    s.append(nix_escape(entry.source_key.as_str()).as_str());
    s.append(". Pass gitSourceHashes or set allowImpureGitFetch = true.\";\n");
    s
}

fn registry_extract_string(entry: &RegistryCrateMaterialization) -> (r: String)
    ensures
        r@ == registry_extract_lines(registry_view(*entry)),
{
    let parent = nix_escape(entry.registry_src_parent.as_str());
    let mut s = String::new();
    s.append("    mkdir -p \"$out/");
    s.append(parent.as_str());
    s.append("\"\n");
    s.append("    tar -xzf ${");
    s.append(entry.archive_binding.as_str());
    s.append("} -C \"$out/");
    s.append(parent.as_str());
    s.append("\"\n");
    s
}

fn git_copy_string(entry: &GitCrateMaterialization) -> (r: String)
    ensures
        r@ == git_copy_lines(git_view(*entry)),
{
    let dest = nix_escape(entry.destination_parent_rel.as_str());
    let mut s = String::new();
    s.append("    mkdir -p \"$out/");
    s.append(dest.as_str());
    s.append("\"\n");
    match &entry.repo_subpath {
        Some(sub) => {
            s.append("    cp -R \"${");
            s.append(entry.source_binding.as_str());
            s.append("}/");
            s.append(nix_escape(sub.as_str()).as_str());
            s.append("/.\" \"$out/");
            s.append(dest.as_str());
            s.append("/\"\n");
        },
        None => {
            s.append("    cp -R \"${");
            s.append(entry.source_binding.as_str());
            s.append("}/.\" \"$out/");
            s.append(dest.as_str());
            s.append("/\"\n");
        },
    }
    s
}

/// The registry fetches, in order.
pub open spec fn registry_fetch_lines(reg: Seq<(Seq<char>, Seq<char>, Seq<char>, Seq<char>)>) -> Seq<
    char,
>
    decreases reg.len(),
{
    if reg.len() == 0 {
        Seq::empty()
    } else {
        registry_fetch_lines(reg.drop_last()) + registry_fetch_line(reg.last())
    }
}

/// The git fetches, one per binding not in `emitted`, in order of first use.
pub open spec fn git_fetch_lines(
    git: Seq<(Seq<char>, Seq<char>, Seq<char>, Seq<char>, Seq<char>, Option<Seq<char>>)>,
    emitted: Set<Seq<char>>,
) -> Seq<char>
    decreases git.len(),
{
    if git.len() == 0 {
        Seq::empty()
    } else if emitted.contains(git[0].0) {
        git_fetch_lines(git.drop_first(), emitted)
    } else {
        git_fetch_line(git[0]) + git_fetch_lines(git.drop_first(), emitted.insert(git[0].0))
    }
}

/// Start of the derivation that assembles Cargo home.
pub const CARGO_HOME_SCRIPT_HEAD: &'static str = "  materializedCargoHome = pkgs.runCommand \"nix-cargo-home\" {\n    nativeBuildInputs = [ pkgs.coreutils pkgs.gnutar pkgs.gzip ];\n  } ''\n    set -euo pipefail\n    mkdir -p \"$out\" \"$out/registry/src\" \"$out/git/checkouts\" \"$out/git/db\"\n";

/// The choice between a given Cargo home, the assembled one, and an error.
pub const EFFECTIVE_CARGO_HOME: &'static str = "  effectiveCargoHome =\n    if cargoHome != null then cargoHome\n    else if unsupportedCargoHomePackages == [ ] then materializedCargoHome\n    else throw \"nix-cargo: cannot auto-materialize cargoHome for packages: ${builtins.concatStringsSep \", \" unsupportedCargoHomePackages}. Pass cargoHome override.\";\n";

/// Unpacking one registry archive into Cargo home.
pub open spec fn registry_extract_lines(r: (Seq<char>, Seq<char>, Seq<char>, Seq<char>)) -> Seq<char> {
    "    mkdir -p \"$out/"@ + spec_nix_escape(r.1) + "\"\n"@ + "    tar -xzf ${"@ + r.0 + "} -C \"$out/"@
        + spec_nix_escape(r.1) + "\"\n"@
}

/// Copying one git checkout into Cargo home.
pub open spec fn git_copy_lines(
    g: (Seq<char>, Seq<char>, Seq<char>, Seq<char>, Seq<char>, Option<Seq<char>>),
) -> Seq<char> {
    "    mkdir -p \"$out/"@ + spec_nix_escape(g.4) + "\"\n"@ + match g.5 {
        Some(sub) => "    cp -R \"${"@ + g.0 + "}/"@ + spec_nix_escape(sub) + "/.\" \"$out/"@
            + spec_nix_escape(g.4) + "/\"\n"@,
        None => "    cp -R \"${"@ + g.0 + "}/.\" \"$out/"@ + spec_nix_escape(g.4) + "/\"\n"@,
    }
}

/// The unpacking of all registry archives, in order.
pub open spec fn registry_extracts(reg: Seq<(Seq<char>, Seq<char>, Seq<char>, Seq<char>)>) -> Seq<char>
    decreases reg.len(),
{
    if reg.len() == 0 {
        Seq::empty()
    } else {
        registry_extracts(reg.drop_last()) + registry_extract_lines(reg.last())
    }
}

/// The copying of all git checkouts, in order.
pub open spec fn git_copies(
    git: Seq<(Seq<char>, Seq<char>, Seq<char>, Seq<char>, Seq<char>, Option<Seq<char>>)>,
) -> Seq<char>
    decreases git.len(),
{
    if git.len() == 0 {
        Seq::empty()
    } else {
        git_copies(git.drop_last()) + git_copy_lines(git.last())
    }
}

/// The Cargo home section of the expression.
pub open spec fn spec_cargo_home_section(
    reg: Seq<(Seq<char>, Seq<char>, Seq<char>, Seq<char>)>,
    git: Seq<(Seq<char>, Seq<char>, Seq<char>, Seq<char>, Seq<char>, Option<Seq<char>>)>,
    unsupported: Seq<Seq<char>>,
) -> Seq<char> {
    registry_fetch_lines(reg) + git_fetch_lines(git, Set::empty()) + CARGO_HOME_SCRIPT_HEAD@
        + registry_extracts(reg) + git_copies(git) + "  '';\n"@
        + "  unsupportedCargoHomePackages = [ "@ + join(
        unsupported.map_values(|k: Seq<char>| spec_nix_string(k)),
        " "@,
    ) + " ];\n"@ + EFFECTIVE_CARGO_HOME@
}

/// Appends the Cargo home section: fetches of registry archives and git
/// sources, the derivation that assembles them, and the choice of Cargo home.
pub fn append_cargo_home_section(out: &mut String, cargo_home_plan: &CargoHomeMaterializationPlan)
    ensures
        final(out)@ == old(out)@ + spec_cargo_home_section(
            cargo_home_plan.registry_crates@.map_values(|x: RegistryCrateMaterialization| registry_view(x)),
            cargo_home_plan.git_crates@.map_values(|x: GitCrateMaterialization| git_view(x)),
            strings_view(cargo_home_plan.unsupported_package_keys@),
        ),
{
    let ghost start = out@;
    let ghost reg = cargo_home_plan.registry_crates@.map_values(|x: RegistryCrateMaterialization| registry_view(x));
    let ghost git = cargo_home_plan.git_crates@.map_values(|x: GitCrateMaterialization| git_view(x));
    let mut i: usize = 0;
    while i < cargo_home_plan.registry_crates.len()
        invariant
            i <= reg.len(),
            reg == cargo_home_plan.registry_crates@.map_values(|x: RegistryCrateMaterialization| registry_view(x)),
            out@ == start + registry_fetch_lines(reg.take(i as int)),
        decreases reg.len() - i,
    {
        let entry = &cargo_home_plan.registry_crates[i];
        proof {
            assert(reg.take(i + 1).drop_last() =~= reg.take(i as int));
            assert(reg.take(i + 1).last() == registry_view(*entry));
        }
        out.append(registry_fetch_string(entry).as_str());
        i = i + 1;
    }
    proof {
        assert(reg.take(i as int) =~= reg);
    }
    let ghost after_reg = out@;
    let mut emitted = StringSet::new();
    let mut j: usize = 0;
    proof {
        assert(git.skip(0) =~= git);
    }
    while j < cargo_home_plan.git_crates.len()
        invariant
            j <= git.len(),
            git == cargo_home_plan.git_crates@.map_values(|x: GitCrateMaterialization| git_view(x)),
            out@ + git_fetch_lines(git.skip(j as int), emitted@) == after_reg + git_fetch_lines(git, Set::empty()),
        decreases git.len() - j,
    {
        let entry = &cargo_home_plan.git_crates[j];
        let ghost rest = git.skip(j as int);
        proof {
            assert(rest[0] == git_view(*entry));
            assert(rest.drop_first() =~= git.skip(j + 1));
        }
        let ghost before = out@;
        let ghost seen = emitted@;
        if !emitted.contains(entry.source_binding.as_str()) {
            emitted.insert(entry.source_binding.clone());
            out.append(git_fetch_string(entry).as_str());
            proof {
                assert(git_fetch_lines(rest, seen) == git_fetch_line(git_view(*entry)) + git_fetch_lines(
                    git.skip(j + 1),
                    emitted@,
                ));
            }
        }
        j = j + 1;
    }
    proof {
        assert(git.skip(j as int) =~= Seq::<(Seq<char>, Seq<char>, Seq<char>, Seq<char>, Seq<char>, Option<Seq<char>>)>::empty());
    }
    out.append(CARGO_HOME_SCRIPT_HEAD);
    let ghost after_head = out@;
    let mut i: usize = 0;
    while i < cargo_home_plan.registry_crates.len()
        invariant
            i <= reg.len(),
            reg == cargo_home_plan.registry_crates@.map_values(|x: RegistryCrateMaterialization| registry_view(x)),
            out@ == after_head + registry_extracts(reg.take(i as int)),
        decreases reg.len() - i,
    {
        let entry = &cargo_home_plan.registry_crates[i];
        proof {
            assert(reg.take(i + 1).drop_last() =~= reg.take(i as int));
            assert(reg.take(i + 1).last() == registry_view(*entry));
        }
        out.append(registry_extract_string(entry).as_str());
        i = i + 1;
    }
    proof {
        assert(reg.take(i as int) =~= reg);
    }
    let ghost after_extracts = out@;
    let mut j: usize = 0;
    while j < cargo_home_plan.git_crates.len()
        invariant
            j <= git.len(),
            git == cargo_home_plan.git_crates@.map_values(|x: GitCrateMaterialization| git_view(x)),
            out@ == after_extracts + git_copies(git.take(j as int)),
        decreases git.len() - j,
    {
        let entry = &cargo_home_plan.git_crates[j];
        proof {
            assert(git.take(j + 1).drop_last() =~= git.take(j as int));
            assert(git.take(j + 1).last() == git_view(*entry));
        }
        out.append(git_copy_string(entry).as_str());
        j = j + 1;
    }
    proof {
        assert(git.take(j as int) =~= git);
    }
    out.append("  '';\n");
    let mut quoted: Vec<String> = Vec::new();
    let mut k: usize = 0;
    let ghost keys = strings_view(cargo_home_plan.unsupported_package_keys@);
    while k < cargo_home_plan.unsupported_package_keys.len()
        invariant
            k <= keys.len(),
            keys == strings_view(cargo_home_plan.unsupported_package_keys@),
            strings_view(quoted@) == keys.take(k as int).map_values(|x: Seq<char>| spec_nix_string(x)),
        decreases keys.len() - k,
    {
        let ghost before = strings_view(quoted@);
        quoted.push(nix_string(cargo_home_plan.unsupported_package_keys[k].as_str()));
        proof {
            assert(strings_view(quoted@) =~= before.push(spec_nix_string(keys[k as int])));
            assert(keys.take(k + 1) =~= keys.take(k as int).push(keys[k as int]));
            assert(keys.take(k + 1).map_values(|x: Seq<char>| spec_nix_string(x)) =~= keys.take(k as int).map_values(
                |x: Seq<char>| spec_nix_string(x),
            ).push(spec_nix_string(keys[k as int])));
        }
        k = k + 1;
    }
    proof {
        assert(keys.take(k as int) =~= keys);
    }
    out.append("  unsupportedCargoHomePackages = [ ");
    out.append(crate::nix_string::join_strings(&quoted, " ").as_str());
    out.append(" ];\n");
    out.append(EFFECTIVE_CARGO_HOME);
}

/// The public attributes: the package derivations and outputs, layouts,
/// the driver's targets, and the workspace packages. They refer to the
/// bindings `packageDerivations` and `workspacePackageKeys`, which this
/// library does not write: the expression is completed by a section that
/// defines them (one derivation per entry of `cratePlan`), which is not part
/// of this library.
pub const PUBLIC_ATTRS: &'static str = "  dynamicPackageDerivations = packageDerivations;\n  dynamicPackages = builtins.mapAttrs (_: drv: builtins.outputOf (builtins.unsafeDiscardOutputDependency drv.drvPath) \"out\") dynamicPackageDerivations;\n  packageLayouts = builtins.listToAttrs (map (packageDef: {\n    name = packageDef.key;\n    value = {\n      targetTriples = packageDef.targetTriples;\n      needsHostArtifacts = packageDef.needsHostArtifacts;\n    };\n  }) cratePlan);\n  workspacePackageLayouts = builtins.listToAttrs (map (key: {\n    name = key;\n    value = builtins.getAttr key packageLayouts;\n  }) workspacePackageKeys);\n  workspaceDynamicPackages = builtins.listToAttrs (map (key: {\n    name = key;\n    value = builtins.getAttr key dynamicPackages;\n  }) workspacePackageKeys);\n\nin\n{\n  inherit packageDerivations dynamicPackageDerivations;\n  packages = packageDerivations;\n  dynamicPackages = dynamicPackages;\n  targetTriple = planTargetTriple;\n  packageLayouts = packageLayouts;\n  workspacePackageLayouts = workspacePackageLayouts;\n  driver = {\n    kind = \"nix-cargo-driver\";\n    targets = builtins.listToAttrs (map (key: {\n      name = key;\n      value = {\n        ref = builtins.getAttr key dynamicPackageDerivations;\n        target = builtins.getAttr key dynamicPackages;\n      };\n    }) (builtins.attrNames dynamicPackages));\n    workspaceTargets = builtins.listToAttrs (map (key: { name = key; value = builtins.getAttr key dynamicPackages; }) workspacePackageKeys);\n    defaultWorkspaceTarget = if workspacePackageKeys == [ ] then null else builtins.getAttr (builtins.head workspacePackageKeys) dynamicPackages;\n  };\n  workspacePackages = builtins.listToAttrs (map (key: {\n    name = key;\n    value = builtins.getAttr key packageDerivations;\n  }) workspacePackageKeys);\n  workspaceDynamicPackages = workspaceDynamicPackages;\n  default = pkgs.buildEnv {\n    name = \"nix-cargo-workspace\";\n    paths = map (key: builtins.getAttr key packageDerivations) workspacePackageKeys;\n    ignoreCollisions = true;\n  };\n}\n";

/// Appends the public attributes and closes the expression.
pub fn append_public_attrs_section(out: &mut String)
    ensures
        final(out)@ == old(out)@ + PUBLIC_ATTRS@,
{
    out.append(PUBLIC_ATTRS);
}

/// A package as the crate plan of the expression lists it.
#[derive(Debug)]
pub struct RenderedPackagePlan {
    pub key: String,
    pub name: String,
    pub version: String,
    pub source: String,
    pub lock_checksum: Option<String>,
    pub cargo_home_rel_manifest_path: Option<String>,
    pub workspace_member: bool,
    pub dependencies: Vec<String>,
    pub workspace_source_prefixes: Vec<String>,
    pub target_triples: Vec<String>,
    pub needs_host_artifacts: bool,
    pub command_script: String,
}

/// `r` is `package` with its layout, source prefixes and command script
/// from the tables (none of each when the table has no entry for it).
pub open spec fn is_rendered_package(
    r: RenderedPackagePlan,
    package: crate::model::PlanPackage,
    units: Map<Seq<char>, Vec<crate::model::Unit>>,
    layouts: Map<Seq<char>, crate::command_layout::PackageLayoutRequirements>,
    prefixes: Map<Seq<char>, Vec<String>>,
) -> bool {
    let key = package.key@;
    &&& r.key == package.key
    &&& r.name == package.name
    &&& r.version == package.version
    &&& r.source == package.source
    &&& r.lock_checksum == package.lock_checksum
    &&& r.cargo_home_rel_manifest_path == package.cargo_home_rel_manifest_path
    &&& r.workspace_member == package.workspace_member
    &&& r.dependencies@ == package.dependencies@
    &&& r.workspace_source_prefixes@ == if prefixes.contains_key(key) {
        prefixes[key]@
    } else {
        Seq::empty()
    }
    &&& r.target_triples@ == if layouts.contains_key(key) {
        layouts[key].target_triples@
    } else {
        Seq::empty()
    }
    &&& r.needs_host_artifacts == (layouts.contains_key(key) && layouts[key].needs_host_artifacts)
    &&& r.command_script@ == crate::command_script::spec_render_command_script(
        if units.contains_key(key) {
            units[key]@
        } else {
            Seq::empty()
        },
    )
}

/// The crate plan entries of the packages, in order.
pub fn build_rendered_package_plans(
    ordered_packages: &Vec<crate::model::PlanPackage>,
    units_by_package: &crate::string_map::StringMap<Vec<crate::model::Unit>>,
    package_layout: &crate::string_map::StringMap<crate::command_layout::PackageLayoutRequirements>,
    source_prefixes_by_package: &crate::string_map::StringMap<Vec<String>>,
) -> (r: Vec<RenderedPackagePlan>)
    ensures
        r@.len() == ordered_packages@.len(),
        forall|k: int|
            0 <= k < r@.len() ==> is_rendered_package(
                #[trigger] r@[k],
                ordered_packages@[k],
                units_by_package@,
                package_layout@,
                source_prefixes_by_package@,
            ),
{
    let mut r: Vec<RenderedPackagePlan> = Vec::new();
    let mut k: usize = 0;
    while k < ordered_packages.len()
        invariant
            k <= ordered_packages@.len(),
            r@.len() == k,
            forall|j: int|
                0 <= j < k ==> is_rendered_package(
                    #[trigger] r@[j],
                    ordered_packages@[j],
                    units_by_package@,
                    package_layout@,
                    source_prefixes_by_package@,
                ),
        decreases ordered_packages@.len() - k,
    {
        let package = &ordered_packages[k];
        let command_script = match units_by_package.get(package.key.as_str()) {
            Some(units) => crate::command_script::render_command_script(units),
            None => {
                let none: Vec<crate::model::Unit> = Vec::new();
                let script = crate::command_script::render_command_script(&none);
                assert(none@ =~= Seq::<crate::model::Unit>::empty());
                script
            },
        };
        let (target_triples, needs_host_artifacts) = match package_layout.get(package.key.as_str()) {
            Some(layout) => (crate::nix_tool::clone_strings(&layout.target_triples), layout.needs_host_artifacts),
            None => (Vec::new(), false),
        };
        let workspace_source_prefixes = match source_prefixes_by_package.get(package.key.as_str()) {
            Some(p) => crate::nix_tool::clone_strings(p),
            None => Vec::new(),
        };
        let rendered = RenderedPackagePlan {
            key: package.key.clone(),
            name: package.name.clone(),
            version: package.version.clone(),
            source: package.source.clone(),
            lock_checksum: crate::model::clone_opt_string(&package.lock_checksum),
            cargo_home_rel_manifest_path: crate::model::clone_opt_string(&package.cargo_home_rel_manifest_path),
            workspace_member: package.workspace_member,
            dependencies: crate::nix_tool::clone_strings(&package.dependencies),
            workspace_source_prefixes,
            target_triples,
            needs_host_artifacts,
            command_script,
        };
        r.push(rendered);
        k = k + 1;
    }
    r
}

/// One entry of the crate plan.
pub open spec fn crate_plan_entry(p: RenderedPackagePlan) -> Seq<char> {
    "    { key = "@ + spec_nix_string(p.key@) + "; name = "@ + spec_nix_string(p.name@)
        + "; version = "@ + spec_nix_string(p.version@) + "; source = "@ + spec_nix_string(p.source@)
        + "; lockChecksum = "@ + spec_nix_optional_string(
        match p.lock_checksum {
            Some(c) => Some(c@),
            None => None,
        },
    ) + "; cargoHomeRelManifestPath = "@ + spec_nix_optional_string(
        match p.cargo_home_rel_manifest_path {
            Some(c) => Some(c@),
            None => None,
        },
    ) + "; workspaceMember = "@ + (if p.workspace_member {
        "true"@
    } else {
        "false"@
    }) + "; dependencies = "@ + spec_nix_string_list(strings_view(p.dependencies@))
        + "; workspaceSourcePrefixes = "@ + spec_nix_string_list(strings_view(p.workspace_source_prefixes@))
        + "; targetTriples = "@ + spec_nix_string_list(strings_view(p.target_triples@))
        + "; needsHostArtifacts = "@ + (if p.needs_host_artifacts {
        "true"@
    } else {
        "false"@
    }) + "; commandScript = "@ + spec_nix_string(p.command_script@) + "; }\n"@
}

/// The crate plan entries, in order.
pub open spec fn crate_plan_entries(packages: Seq<RenderedPackagePlan>) -> Seq<char>
    decreases packages.len(),
{
    if packages.len() == 0 {
        Seq::empty()
    } else {
        crate_plan_entries(packages.drop_last()) + crate_plan_entry(packages.last())
    }
}

fn crate_plan_entry_string(p: &RenderedPackagePlan) -> (r: String)
    ensures
        r@ == crate_plan_entry(*p),
{
    let mut s = String::new();
    s.append("    { key = ");
    s.append(nix_string(p.key.as_str()).as_str());
    s.append("; name = ");
    s.append(nix_string(p.name.as_str()).as_str());
    s.append("; version = ");
    s.append(nix_string(p.version.as_str()).as_str());
    s.append("; source = ");
    s.append(nix_string(p.source.as_str()).as_str());
    s.append("; lockChecksum = ");
    let lock = match &p.lock_checksum {
        Some(c) => nix_optional_string(Some(c.as_str())),
        None => nix_optional_string(None),
    };
    s.append(lock.as_str());
    s.append("; cargoHomeRelManifestPath = ");
    let rel = match &p.cargo_home_rel_manifest_path {
        Some(c) => nix_optional_string(Some(c.as_str())),
        None => nix_optional_string(None),
    };
    s.append(rel.as_str());
    s.append("; workspaceMember = ");
    s.append(nix_bool(p.workspace_member).as_str());
    s.append("; dependencies = ");
    s.append(nix_string_list(&p.dependencies).as_str());
    s.append("; workspaceSourcePrefixes = ");
    s.append(nix_string_list(&p.workspace_source_prefixes).as_str());
    s.append("; targetTriples = ");
    s.append(nix_string_list(&p.target_triples).as_str());
    s.append("; needsHostArtifacts = ");
    s.append(nix_bool(p.needs_host_artifacts).as_str());
    s.append("; commandScript = ");
    s.append(nix_string(p.command_script.as_str()).as_str());
    s.append("; }\n");
    s
}

/// Appends the crate plan: one entry per package, in order.
pub fn append_crate_plan_section(out: &mut String, packages: &Vec<RenderedPackagePlan>)
    ensures
        final(out)@ == old(out)@ + "  cratePlan = [\n"@ + crate_plan_entries(packages@) + "  ];\n"@,
{
    let mut s = String::new();
    s.append("  cratePlan = [\n");
    let ghost head = s@;
    let mut k: usize = 0;
    while k < packages.len()
        invariant
            k <= packages@.len(),
            s@ == head + crate_plan_entries(packages@.take(k as int)),
        decreases packages@.len() - k,
    {
        proof {
            assert(packages@.take(k + 1).drop_last() =~= packages@.take(k as int));
            assert(packages@.take(k + 1).last() == packages@[k as int]);
        }
        s.append(crate_plan_entry_string(&packages[k]).as_str());
        k = k + 1;
    }
    proof {
        assert(packages@.take(k as int) =~= packages@);
    }
    s.append("  ];\n");
    out.append(s.as_str());
}

/// The derivation that stands for an empty source tree.
pub const EMPTY_SRC: &'static str = "  emptySrc = pkgs.runCommand \"nix-cargo-empty-src\" {} ''\n    mkdir -p \"$out\"\n  '';\n";

/// The default `src` argument: the workspace root, or the expression's own
/// directory when the root is empty.
pub open spec fn spec_default_src(workspace_root: Seq<char>) -> Seq<char> {
    if workspace_root.len() == 0 {
        "builtins.path { path = ./.; name = \"nix-cargo-src\"; }"@
    } else {
        "builtins.path { path = "@ + spec_nix_string(workspace_root) + "; name = \"nix-cargo-src\"; }"@
    }
}

/// The whole expression from its parts. It has no section that binds
/// `packageDerivations` and `workspacePackageKeys`, to which the public
/// attributes refer (see `PUBLIC_ATTRS`).
#[verifier::opaque]
pub open spec fn spec_nix_expression(
    workspace_root: Seq<char>,
    target_dir: Seq<char>,
    target_triple: Option<Seq<char>>,
    release_mode: bool,
    cargo_home: (
        Seq<(Seq<char>, Seq<char>, Seq<char>, Seq<char>)>,
        Seq<(Seq<char>, Seq<char>, Seq<char>, Seq<char>, Seq<char>, Option<Seq<char>>)>,
        Seq<Seq<char>>,
    ),
    packages: Seq<RenderedPackagePlan>,
) -> Seq<char> {
    spec_preamble(
        workspace_root,
        target_dir,
        target_triple,
        spec_default_src(workspace_root),
        if release_mode {
            "true"@
        } else {
            "false"@
        },
    ) + spec_cargo_home_section(cargo_home.0, cargo_home.1, cargo_home.2) + EMPTY_SRC@
        + "  cratePlan = [\n"@ + crate_plan_entries(packages) + "  ];\n"@ + PUBLIC_ATTRS@
}

fn default_src(workspace_root: &str) -> (r: String)
    ensures
        r@ == spec_default_src(workspace_root@),
{
    if workspace_root.unicode_len() == 0 {
        "builtins.path { path = ./.; name = \"nix-cargo-src\"; }".to_string()
    } else {
        let mut s = "builtins.path { path = ".to_string();
        s.append(nix_string(workspace_root).as_str());
        s.append("; name = \"nix-cargo-src\"; }");
        s
    }
}

/// The expression for a plan whose Cargo home plan and crate plan entries
/// are given.
pub fn nix_expression_from(
    plan: &Plan,
    release_mode: bool,
    cargo_home_plan: &CargoHomeMaterializationPlan,
    rendered_packages: &Vec<RenderedPackagePlan>,
) -> (r: String)
    ensures
        r@ == spec_nix_expression(
            plan.workspace_root@,
            plan.target_dir@,
            match plan.target_triple {
                Some(t) => Some(t@),
                None => None,
            },
            release_mode,
            (
                cargo_home_plan.registry_crates@.map_values(|x: RegistryCrateMaterialization| registry_view(x)),
                cargo_home_plan.git_crates@.map_values(|x: GitCrateMaterialization| git_view(x)),
                strings_view(cargo_home_plan.unsupported_package_keys@),
            ),
            rendered_packages@,
        ),
{
    let release_default = if release_mode {
        "true"
    } else {
        "false"
    };
    let src = default_src(plan.workspace_root.as_str());
    let mut out = String::new();
    append_preamble(&mut out, plan, src.as_str(), release_default);
    append_cargo_home_section(&mut out, cargo_home_plan);
    out.append(EMPTY_SRC);
    append_crate_plan_section(&mut out, rendered_packages);
    append_public_attrs_section(&mut out);
    proof {
        reveal(spec_nix_expression);
        assert(out@ =~= spec_nix_expression(
            plan.workspace_root@,
            plan.target_dir@,
            match plan.target_triple {
                Some(t) => Some(t@),
                None => None,
            },
            release_mode,
            (
                cargo_home_plan.registry_crates@.map_values(|x: RegistryCrateMaterialization| registry_view(x)),
                cargo_home_plan.git_crates@.map_values(|x: GitCrateMaterialization| git_view(x)),
                strings_view(cargo_home_plan.unsupported_package_keys@),
            ),
            rendered_packages@,
        ));
    }
    out
}

/// The view of an optional string.
pub open spec fn opt_view(o: Option<String>) -> Option<Seq<char>> {
    match o {
        Some(s) => Some(s@),
        None => None,
    }
}

/// `r` lists package `i` of the plan in the crate plan: its fields, the
/// layout its units need, the source prefixes of (the last package with) its
/// key, and the command script of its units.
pub open spec fn renders_plan_package(r: RenderedPackagePlan, plan: Plan, i: int) -> bool {
    let packages = plan.packages@;
    let p = packages[i];
    let key = p.key@;
    &&& r.key == p.key
    &&& r.name == p.name
    &&& r.version == p.version
    &&& r.source == p.source
    &&& r.lock_checksum == p.lock_checksum
    &&& r.cargo_home_rel_manifest_path == p.cargo_home_rel_manifest_path
    &&& r.workspace_member == p.workspace_member
    &&& r.dependencies@ == p.dependencies@
    &&& crate::command_layout::layout_for(
        crate::command_layout::PackageLayoutRequirements {
            target_triples: r.target_triples,
            needs_host_artifacts: r.needs_host_artifacts,
        },
        packages,
        plan.units@,
        key,
    )
    &&& exists|j: int|
        #[trigger] crate::source_scope::last_with_key(packages, j, packages.len() as int)
            && packages[j].key@ == key && strings_view(r.workspace_source_prefixes@)
            == crate::source_scope::prefixes_for(plan.workspace_root@, packages[j].source@)
    &&& exists|us: Seq<crate::model::Unit>|
        #[trigger] crate::model::same_units(us, crate::plan_package::units_of(plan.units@, key))
            && r.command_script@ == crate::command_script::spec_render_command_script(us)
}

/// Some package with a key is the last one with it.
proof fn lemma_last_with_key_exists(packages: Seq<crate::model::PlanPackage>, i: int)
    requires
        0 <= i < packages.len(),
    ensures
        exists|j: int|
            #[trigger] crate::source_scope::last_with_key(packages, j, packages.len() as int)
                && packages[j].key@ == packages[i].key@,
    decreases packages.len() - i,
{
    let n = packages.len() as int;
    if exists|m: int| i < m < n && (#[trigger] packages[m]).key@ == packages[i].key@ {
        let m = choose|m: int| i < m < n && (#[trigger] packages[m]).key@ == packages[i].key@;
        lemma_last_with_key_exists(packages, m);
    } else {
        assert(crate::source_scope::last_with_key(packages, i, n));
    }
}

proof fn lemma_renders_plan_package(
    plan: Plan,
    i: int,
    package: crate::model::PlanPackage,
    rendered: RenderedPackagePlan,
    units: Map<Seq<char>, Vec<crate::model::Unit>>,
    layouts: Map<Seq<char>, crate::command_layout::PackageLayoutRequirements>,
    prefixes: Map<Seq<char>, Vec<String>>,
)
    requires
        0 <= i < plan.packages@.len(),
        crate::model::same_package(package, plan.packages@[i]),
        is_rendered_package(rendered, package, units, layouts, prefixes),
        units.dom() == crate::command_layout::package_keys(plan.packages@),
        forall|k: Seq<char>| #[trigger]
            units.contains_key(k) ==> crate::model::same_units(units[k]@, crate::plan_package::units_of(plan.units@, k)),
        layouts.dom() == crate::command_layout::package_keys(plan.packages@),
        forall|k: Seq<char>| #[trigger]
            layouts.contains_key(k) ==> crate::command_layout::layout_for(layouts[k], plan.packages@, plan.units@, k),
        prefixes.dom() == crate::command_layout::package_keys(plan.packages@),
        forall|a: int|
            #[trigger] crate::source_scope::last_with_key(plan.packages@, a, plan.packages@.len() as int)
                ==> strings_view(prefixes[plan.packages@[a].key@]@) == crate::source_scope::prefixes_for(
                plan.workspace_root@,
                plan.packages@[a].source@,
            ),
    ensures
        renders_plan_package(rendered, plan, i),
{
    let key = plan.packages@[i].key@;
    assert(crate::command_layout::package_keys(plan.packages@).contains(key));
    assert(layouts.contains_key(key));
    assert(units.contains_key(key));
    assert(prefixes.contains_key(key));
    lemma_last_with_key_exists(plan.packages@, i);
    let j = choose|j: int|
        #[trigger] crate::source_scope::last_with_key(plan.packages@, j, plan.packages@.len() as int)
            && plan.packages@[j].key@ == key;
    assert(crate::model::same_units(units[key]@, crate::plan_package::units_of(plan.units@, key)));
    assert(crate::command_layout::layout_for(layouts[key], plan.packages@, plan.units@, key));
}

/// The Nix expression for a plan: the packages in the order of `dfs_order`
/// (dependencies first), each with its layout, source prefixes and command
/// script, after the Cargo home section.
pub fn render_nix_expression(plan: &Plan, release_mode: bool) -> (r: String)
    ensures
        exists|rendered: Seq<RenderedPackagePlan>|
            rendered.len() == crate::plan_package::dfs_order(plan.packages@).len() && (forall|k: int|
                0 <= k < rendered.len() ==> renders_plan_package(
                    #[trigger] rendered[k],
                    *plan,
                    crate::plan_package::dfs_order(plan.packages@)[k] as int,
                )) && r@ == #[trigger] spec_nix_expression(
                plan.workspace_root@,
                plan.target_dir@,
                opt_view(plan.target_triple),
                release_mode,
                (
                    crate::cargo_home::cargo_home_plan_of(plan.packages@).0,
                    crate::cargo_home::cargo_home_plan_of(plan.packages@).1,
                    crate::cargo_home::cargo_home_plan_of(plan.packages@).2,
                ),
                rendered,
            ),
{
    let ordered_refs = crate::plan_package::topologically_sorted_packages(plan);
    let ghost order = crate::plan_package::dfs_order(plan.packages@);
    let mut ordered: Vec<crate::model::PlanPackage> = Vec::new();
    let mut k: usize = 0;
    while k < ordered_refs.len()
        invariant
            k <= ordered_refs@.len(),
            ordered@.len() == k,
            forall|j: int| 0 <= j < k ==> crate::model::same_package(#[trigger] ordered@[j], *ordered_refs@[j]),
        decreases ordered_refs@.len() - k,
    {
        ordered.push(ordered_refs[k].clone());
        k = k + 1;
    }
    let units = crate::plan_package::units_by_package(plan);
    let layouts = crate::command_layout::package_layout_by_key(plan);
    let prefixes = crate::source_scope::workspace_source_prefixes_by_package(plan);
    let cargo_home = crate::cargo_home::build_cargo_home_materialization_plan(plan);
    let rendered = build_rendered_package_plans(&ordered, &units, &layouts, &prefixes);
    let r = nix_expression_from(plan, release_mode, &cargo_home, &rendered);
    proof {
        assert forall|k: int| 0 <= k < rendered@.len() implies renders_plan_package(
            #[trigger] rendered@[k],
            *plan,
            order[k] as int,
        ) by {
            assert(crate::model::same_package(ordered@[k], *ordered_refs@[k]));
            lemma_renders_plan_package(*plan, order[k] as int, ordered@[k], rendered@[k], units@, layouts@, prefixes@);
        }
        assert(strings_view(cargo_home.unsupported_package_keys@) == crate::cargo_home::cargo_home_plan_of(plan.packages@).2);
    }
    r
}

} // verus!
