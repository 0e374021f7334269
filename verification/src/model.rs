//! The plan captured from Cargo: packages, units and the commands that build them.

use vstd::prelude::*;

use crate::nix_tool::clone_strings;

verus! {

/// Stands for the workspace source directory in captured commands.
pub const PATH_MARKER_SRC: &'static str = "@@NIXCARGO_SRC@@";

/// Stands for the Cargo target directory in captured commands.
pub const PATH_MARKER_TARGET: &'static str = "@@NIXCARGO_TARGET@@";

/// Stands for the Cargo home directory in captured commands.
pub const PATH_MARKER_CARGO_HOME: &'static str = "@@NIXCARGO_CARGO_HOME@@";

/// Stands for the `rustc` executable in captured commands.
pub const PATH_MARKER_RUSTC: &'static str = "@@NIXCARGO_RUSTC@@";

/// Stands for the `cargo` executable in captured commands.
pub const PATH_MARKER_CARGO_BIN: &'static str = "@@NIXCARGO_CARGO@@";

/// A copy of an optional string.
pub fn clone_opt_string(o: &Option<String>) -> (r: Option<String>)
    ensures
        r == *o,
{
    match o {
        Some(s) => Some(s.clone()),
        None => None,
    }
}

/// A workspace as the `graph` command prints it.
#[derive(Debug)]
pub struct WorkspaceSummary {
    pub manifest_path: String,
    pub workspace_root: String,
    pub packages: Vec<PackageSummary>,
}

/// A workspace member as the `graph` command prints it.
#[derive(Debug)]
pub struct PackageSummary {
    pub id: String,
    pub name: String,
    pub version: String,
    pub manifest_path: String,
    pub relative_manifest_path: String,
    pub targets: Vec<String>,
    pub dependency_names: Vec<String>,
    pub workspace_dependencies: Vec<String>,
}

/// The packages and units of a Cargo build, with the paths they refer to.
#[derive(Debug)]
pub struct Plan {
    pub workspace_root: String,
    pub manifest_path: String,
    pub cargo_home: String,
    pub target_dir: String,
    pub target_triple: Option<String>,
    pub packages: Vec<PlanPackage>,
    pub units: Vec<Unit>,
}

/// One compiler (or build script) invocation that Cargo made.
#[derive(Debug)]
pub struct Unit {
    pub unit_id: String,
    pub package_key: String,
    pub package_name: String,
    pub package_version: String,
    pub target_name: String,
    pub target_kind: String,
    pub compile_mode: String,
    pub target_triple: Option<String>,
    pub build_script_binary: Option<String>,
    pub package_dependencies: Vec<String>,
    pub command: CommandSpec,
}

/// A resolved package.
#[derive(Debug)]
pub struct PlanPackage {
    pub key: String,
    pub name: String,
    pub version: String,
    pub source: String,
    pub manifest_path: String,
    pub cargo_home_rel_manifest_path: Option<String>,
    pub lock_checksum: Option<String>,
    pub workspace_member: bool,
    pub dependencies: Vec<String>,
}

/// A captured command: working directory, environment, program and arguments.
#[derive(Debug)]
pub struct CommandSpec {
    pub cwd: Option<String>,
    pub env: Vec<CommandEnv>,
    pub program: String,
    pub args: Vec<String>,
}

/// One environment variable of a captured command.
#[derive(Debug)]
pub struct CommandEnv {
    pub key: String,
    pub value: String,
}

/// The two commands hold the same values.
pub open spec fn same_command(a: CommandSpec, b: CommandSpec) -> bool {
    a.cwd == b.cwd && a.env@ == b.env@ && a.program == b.program && a.args@ == b.args@
}

/// The two package summaries hold the same values.
pub open spec fn same_summary(a: PackageSummary, b: PackageSummary) -> bool {
    &&& a.id == b.id
    &&& a.name == b.name
    &&& a.version == b.version
    &&& a.manifest_path == b.manifest_path
    &&& a.relative_manifest_path == b.relative_manifest_path
    &&& a.targets@ == b.targets@
    &&& a.dependency_names@ == b.dependency_names@
    &&& a.workspace_dependencies@ == b.workspace_dependencies@
}

/// The two units hold the same values.
pub open spec fn same_unit(a: Unit, b: Unit) -> bool {
    &&& a.unit_id == b.unit_id
    &&& a.package_key == b.package_key
    &&& a.package_name == b.package_name
    &&& a.package_version == b.package_version
    &&& a.target_name == b.target_name
    &&& a.target_kind == b.target_kind
    &&& a.compile_mode == b.compile_mode
    &&& a.target_triple == b.target_triple
    &&& a.build_script_binary == b.build_script_binary
    &&& a.package_dependencies@ == b.package_dependencies@
    &&& same_command(a.command, b.command)
}

/// The two packages hold the same values.
pub open spec fn same_package(a: PlanPackage, b: PlanPackage) -> bool {
    &&& a.key == b.key
    &&& a.name == b.name
    &&& a.version == b.version
    &&& a.source == b.source
    &&& a.manifest_path == b.manifest_path
    &&& a.cargo_home_rel_manifest_path == b.cargo_home_rel_manifest_path
    &&& a.lock_checksum == b.lock_checksum
    &&& a.workspace_member == b.workspace_member
    &&& a.dependencies@ == b.dependencies@
}

/// Two lists of units hold the same values, in the same order.
pub open spec fn same_units(a: Seq<Unit>, b: Seq<Unit>) -> bool {
    a.len() == b.len() && forall|i: int| 0 <= i < a.len() ==> #[trigger] same_unit(a[i], b[i])
}

impl Clone for CommandEnv {
    fn clone(&self) -> (r: Self)
        ensures
            r == *self,
    {
        CommandEnv { key: self.key.clone(), value: self.value.clone() }
    }
}

/// A copy of a list of environment entries.
pub fn clone_envs(v: &Vec<CommandEnv>) -> (r: Vec<CommandEnv>)
    ensures
        r@ == v@,
{
    let mut r: Vec<CommandEnv> = Vec::new();
    let mut i: usize = 0;
    while i < v.len()
        invariant
            i <= v@.len(),
            r@ == v@.take(i as int),
        decreases v@.len() - i,
    {
        r.push(v[i].clone());
        assert(r@ =~= v@.take(i + 1));
        i = i + 1;
    }
    assert(v@.take(i as int) =~= v@);
    r
}

impl Clone for CommandSpec {
    fn clone(&self) -> (r: Self)
        ensures
            same_command(r, *self),
    {
        CommandSpec {
            cwd: clone_opt_string(&self.cwd),
            env: clone_envs(&self.env),
            program: self.program.clone(),
            args: clone_strings(&self.args),
        }
    }
}

impl Clone for Unit {
    fn clone(&self) -> (r: Self)
        ensures
            same_unit(r, *self),
    {
        Unit {
            unit_id: self.unit_id.clone(),
            package_key: self.package_key.clone(),
            package_name: self.package_name.clone(),
            package_version: self.package_version.clone(),
            target_name: self.target_name.clone(),
            target_kind: self.target_kind.clone(),
            compile_mode: self.compile_mode.clone(),
            target_triple: clone_opt_string(&self.target_triple),
            build_script_binary: clone_opt_string(&self.build_script_binary),
            package_dependencies: clone_strings(&self.package_dependencies),
            command: self.command.clone(),
        }
    }
}

impl Clone for PackageSummary {
    fn clone(&self) -> (r: Self)
        ensures
            same_summary(r, *self),
    {
        PackageSummary {
            id: self.id.clone(),
            name: self.name.clone(),
            version: self.version.clone(),
            manifest_path: self.manifest_path.clone(),
            relative_manifest_path: self.relative_manifest_path.clone(),
            targets: clone_strings(&self.targets),
            dependency_names: clone_strings(&self.dependency_names),
            workspace_dependencies: clone_strings(&self.workspace_dependencies),
        }
    }
}

impl Clone for PlanPackage {
    fn clone(&self) -> (r: Self)
        ensures
            same_package(r, *self),
    {
        PlanPackage {
            key: self.key.clone(),
            name: self.name.clone(),
            version: self.version.clone(),
            source: self.source.clone(),
            manifest_path: self.manifest_path.clone(),
            cargo_home_rel_manifest_path: clone_opt_string(&self.cargo_home_rel_manifest_path),
            lock_checksum: clone_opt_string(&self.lock_checksum),
            workspace_member: self.workspace_member,
            dependencies: clone_strings(&self.dependencies),
        }
    }
}

} // verus!
