//! The tools from nixpkgs that every package derivation builds with.

use vstd::prelude::*;

use crate::derivation::{derived_path_added, Derivation};
use crate::derived_path::{SingleDerivedPath, SingleDerivedPathBuilt};
use crate::store_path::{StorePath, StorePathError};

verus! {

/// A tool from nixpkgs: the derivation that builds it and its output path.
#[derive(Debug)]
pub struct NixpkgsTool {
    pub drv_path: StorePath,
    pub out_path: StorePath,
}

/// The tools a package build uses.
#[derive(Debug)]
pub struct Toolchain {
    pub bash: NixpkgsTool,
    pub coreutils: NixpkgsTool,
    pub cargo: NixpkgsTool,
    pub rustc: NixpkgsTool,
    pub pkg_config: NixpkgsTool,
    pub cc: NixpkgsTool,
}

/// `b` is `a` with the derived paths `paths` added as inputs, in order.
pub open spec fn derived_paths_added(a: Derivation, b: Derivation, paths: Seq<SingleDerivedPath>) -> bool
    decreases paths.len(),
{
    if paths.len() == 0 {
        b == a
    } else {
        exists|mid: Derivation|
            derived_paths_added(a, mid, paths.drop_last()) && #[trigger] derived_path_added(
                mid,
                b,
                paths.last(),
            )
    }
}

/// Adding one more derived path extends the chain.
pub proof fn lemma_derived_paths_added_push(
    a: Derivation,
    mid: Derivation,
    b: Derivation,
    paths: Seq<SingleDerivedPath>,
    p: SingleDerivedPath,
)
    requires
        derived_paths_added(a, mid, paths),
        derived_path_added(mid, b, p),
    ensures
        derived_paths_added(a, b, paths.push(p)),
{
    assert(paths.push(p).drop_last() =~= paths);
    assert(paths.push(p).last() == p);
}

/// Adding two lists of derived paths one after the other adds their
/// concatenation.
pub proof fn lemma_derived_paths_added_concat(
    a: Derivation,
    mid: Derivation,
    b: Derivation,
    first: Seq<SingleDerivedPath>,
    second: Seq<SingleDerivedPath>,
)
    requires
        derived_paths_added(a, mid, first),
        derived_paths_added(mid, b, second),
    ensures
        derived_paths_added(a, b, first + second),
    decreases second.len(),
{
    if second.len() == 0 {
        assert(first + second =~= first);
    } else {
        let m = choose|m: Derivation|
            derived_paths_added(mid, m, second.drop_last()) && #[trigger] derived_path_added(
                m,
                b,
                second.last(),
            );
        lemma_derived_paths_added_concat(a, mid, m, first, second.drop_last());
        assert((first + second).drop_last() =~= first + second.drop_last());
        assert((first + second).last() == second.last());
    }
}

/// `p` is the store path `s`, added as is.
pub open spec fn names_opaque(p: SingleDerivedPath, s: Seq<char>) -> bool {
    p matches SingleDerivedPath::Opaque(sp) && sp@ == s
}

/// The store paths among `paths` that are added as input sources.
pub open spec fn opaque_srcs(paths: Seq<SingleDerivedPath>) -> Set<Seq<char>> {
    Set::new(|s: Seq<char>| exists|i: int| 0 <= i < paths.len() && #[trigger] names_opaque(paths[i], s))
}

/// Adding derived paths adds exactly the plain store paths among them to the
/// input sources; built paths leave the input sources alone.
pub proof fn lemma_derived_paths_added_srcs(a: Derivation, b: Derivation, paths: Seq<SingleDerivedPath>)
    requires
        derived_paths_added(a, b, paths),
    ensures
        b.inputs.srcs@ == a.inputs.srcs@.union(opaque_srcs(paths)),
    decreases paths.len(),
{
    if paths.len() == 0 {
        assert(opaque_srcs(paths) =~= Set::empty());
        assert(b.inputs.srcs@ =~= a.inputs.srcs@.union(opaque_srcs(paths)));
    } else {
        let rest = paths.drop_last();
        let m = choose|m: Derivation|
            derived_paths_added(a, m, rest) && #[trigger] derived_path_added(m, b, paths.last());
        lemma_derived_paths_added_srcs(a, m, rest);
        assert forall|s: Seq<char>| #[trigger] opaque_srcs(paths).contains(s) == (opaque_srcs(
            rest,
        ).contains(s) || names_opaque(paths.last(), s)) by {
            if opaque_srcs(paths).contains(s) {
                let i = choose|i: int| 0 <= i < paths.len() && #[trigger] names_opaque(paths[i], s);
                if i < rest.len() {
                    assert(names_opaque(rest[i], s));
                }
            }
            if opaque_srcs(rest).contains(s) {
                let i = choose|i: int| 0 <= i < rest.len() && #[trigger] names_opaque(rest[i], s);
                assert(names_opaque(paths[i], s));
            }
            if names_opaque(paths.last(), s) {
                assert(names_opaque(paths[paths.len() - 1], s));
            }
        }
        match paths.last() {
            SingleDerivedPath::Opaque(sp) => {
                assert forall|s: Seq<char>| names_opaque(paths.last(), s) == (s == sp@) by {}
            },
            SingleDerivedPath::Built(_) => {},
        }
        assert(b.inputs.srcs@ =~= a.inputs.srcs@.union(opaque_srcs(paths)));
    }
}

/// Adding inputs changes nothing but the inputs.
pub proof fn lemma_derived_paths_added_keeps(a: Derivation, b: Derivation, paths: Seq<SingleDerivedPath>)
    requires
        derived_paths_added(a, b, paths),
    ensures
        b.version == a.version,
        b.name == a.name,
        b.system == a.system,
        b.builder == a.builder,
        b.args@ == a.args@,
        b.env@ == a.env@,
        b.outputs@ == a.outputs@,
    decreases paths.len(),
{
    if paths.len() > 0 {
        let m = choose|m: Derivation|
            derived_paths_added(a, m, paths.drop_last()) && #[trigger] derived_path_added(
                m,
                b,
                paths.last(),
            );
        lemma_derived_paths_added_keeps(a, m, paths.drop_last());
    }
}

/// The `out` output of the derivation at `drv_path`.
pub open spec fn is_out_of(p: SingleDerivedPath, drv_path: StorePath) -> bool {
    p matches SingleDerivedPath::Built(b) && *b.derived_path == SingleDerivedPath::Opaque(drv_path)
        && b.output@ == "out"@
}

/// The tools in the order their derivations are added as inputs.
pub open spec fn tool_seq(t: Toolchain) -> Seq<NixpkgsTool> {
    seq![t.bash, t.coreutils, t.cargo, t.rustc, t.pkg_config, t.cc]
}

/// `paths` are the `out` outputs of the tools' derivations, in order.
pub open spec fn are_tool_outputs(paths: Seq<SingleDerivedPath>, t: Toolchain) -> bool {
    paths.len() == 6 && forall|k: int| 0 <= k < 6 ==> is_out_of(#[trigger] paths[k], tool_seq(t)[k].drv_path)
}

/// The `out` output of the derivation at `drv_path`.
pub fn out_of(drv_path: &StorePath) -> (r: SingleDerivedPath)
    ensures
        is_out_of(r, *drv_path),
{
    SingleDerivedPath::Built(SingleDerivedPathBuilt::new(drv_path.clone(), "out".to_string()))
}

impl Toolchain {
    /// The bash executable that runs the builder script.
    pub fn bash_builder(&self) -> (r: String)
        ensures
            r@ == self.bash.out_path@ + "/bin/bash"@,
    {
        let mut r = self.bash.out_path.to_string();
        r.append("/bin/bash");
        r
    }

    /// The `rustc` executable.
    pub fn rustc_bin(&self) -> (r: String)
        ensures
            r@ == self.rustc.out_path@ + "/bin/rustc"@,
    {
        let mut r = self.rustc.out_path.to_string();
        r.append("/bin/rustc");
        r
    }

    /// The `cargo` executable.
    pub fn cargo_bin(&self) -> (r: String)
        ensures
            r@ == self.cargo.out_path@ + "/bin/cargo"@,
    {
        let mut r = self.cargo.out_path.to_string();
        r.append("/bin/cargo");
        r
    }

    /// `PATH` for the build: the `bin` directories of coreutils, pkg-config,
    /// the C compiler and bash.
    pub fn path_env(&self) -> (r: String)
        ensures
            r@ == self.coreutils.out_path@ + "/bin:"@ + self.pkg_config.out_path@ + "/bin:"@
                + self.cc.out_path@ + "/bin:"@ + self.bash.out_path@ + "/bin"@,
    {
        let mut r = self.coreutils.out_path.to_string();
        r.append("/bin:");
        r.append(self.pkg_config.out_path.to_string().as_str());
        r.append("/bin:");
        r.append(self.cc.out_path.to_string().as_str());
        r.append("/bin:");
        r.append(self.bash.out_path.to_string().as_str());
        r.append("/bin");
        r
    }

    /// Adds the `out` output of each tool's derivation as an input.
    pub fn add_inputs(&self, derivation: &mut Derivation)
        ensures
            exists|paths: Seq<SingleDerivedPath>|
                #[trigger] are_tool_outputs(paths, *self) && derived_paths_added(
                    *old(derivation),
                    *final(derivation),
                    paths,
                ),
    {
        let ghost start = *derivation;
        let ghost mut paths = Seq::<SingleDerivedPath>::empty();
        let tools = [&self.bash, &self.coreutils, &self.cargo, &self.rustc, &self.pkg_config, &self.cc];
        let mut k: usize = 0;
        while k < 6
            invariant
                k <= 6,
                tools@.len() == 6,
                forall|j: int| 0 <= j < 6 ==> *tools@[j] == tool_seq(*self)[j],
                paths.len() == k,
                forall|j: int| 0 <= j < k ==> is_out_of(#[trigger] paths[j], tool_seq(*self)[j].drv_path),
                derived_paths_added(start, *derivation, paths),
            decreases 6 - k,
        {
            let reference = out_of(&tools[k].drv_path);
            let ghost mid = *derivation;
            derivation.add_derived_path(&reference);
            proof {
                lemma_derived_paths_added_push(start, mid, *derivation, paths, reference);
                paths = paths.push(reference);
            }
            k = k + 1;
        }
        proof {
            assert(are_tool_outputs(paths, *self));
        }
    }
}

/// Why a tool given by environment variables was refused.
#[derive(Debug)]
pub enum ToolOverrideError {
    /// Only one of the two variables is set.
    Incomplete,
    /// The derivation path is not a store path.
    InvalidDrvPath(StorePathError),
    /// The output path is not a store path.
    InvalidOutPath(StorePathError),
}

/// The environment variables that override a tool: the derivation path and
/// the output path.
pub fn tool_env_keys(env_prefix: &str) -> (r: (String, String))
    ensures
        r.0@ == "NIXCARGO_TOOL_"@ + env_prefix@ + "_DRV"@,
        r.1@ == "NIXCARGO_TOOL_"@ + env_prefix@ + "_OUT"@,
{
    let mut drv = "NIXCARGO_TOOL_".to_string();
    drv.append(env_prefix);
    drv.append("_DRV");
    let mut out = "NIXCARGO_TOOL_".to_string();
    out.append(env_prefix);
    out.append("_OUT");
    (drv, out)
}

/// The tool that the override variables give: none when neither is set, the
/// two store paths when both are, an error otherwise.
pub fn tool_from_env_values(drv_path: Option<String>, out_path: Option<String>) -> (r: Result<
    Option<NixpkgsTool>,
    ToolOverrideError,
>)
    ensures
        drv_path is None && out_path is None ==> r matches Ok(None),
        drv_path is Some != out_path is Some ==> r matches Err(ToolOverrideError::Incomplete),
        r matches Ok(Some(t)) ==> drv_path matches Some(d) && out_path matches Some(o) && t.drv_path@ == d@
            && t.out_path@ == o@,
        drv_path matches Some(d) && out_path is Some && !crate::store_path::valid_store_path(d@) ==> r matches Err(
            ToolOverrideError::InvalidDrvPath(_),
        ),
        drv_path matches Some(d) && out_path matches Some(o) && crate::store_path::valid_store_path(d@)
            && !crate::store_path::valid_store_path(o@) ==> r matches Err(ToolOverrideError::InvalidOutPath(_)),
        drv_path matches Some(d) && out_path matches Some(o) && crate::store_path::valid_store_path(d@)
            && crate::store_path::valid_store_path(o@) ==> r matches Ok(Some(_)),
{
    match (drv_path, out_path) {
        (None, None) => Ok(None),
        (Some(d), Some(o)) => {
            let drv = match StorePath::new(d.as_str()) {
                Ok(p) => p,
                Err(e) => return Err(ToolOverrideError::InvalidDrvPath(e)),
            };
            let out = match StorePath::new(o.as_str()) {
                Ok(p) => p,
                Err(e) => return Err(ToolOverrideError::InvalidOutPath(e)),
            };
            Ok(Some(NixpkgsTool { drv_path: drv, out_path: out }))
        },
        _ => Err(ToolOverrideError::Incomplete),
    }
}

} // verus!
