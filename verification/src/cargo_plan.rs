//! Turning what Cargo ran into a plan that does not depend on where it ran:
//! absolute paths of the workspace, target directory, Cargo home and `rustc`
//! inside captured commands become markers.

use vstd::prelude::*;

use crate::command_layout::{command_target_triple, spec_command_target_triple};
use crate::host_path::{path_strip_prefix, strip_path_prefix};
use crate::model::{
    CommandEnv, CommandSpec, PlanPackage, Unit, PATH_MARKER_CARGO_BIN, PATH_MARKER_CARGO_HOME, PATH_MARKER_RUSTC,
    PATH_MARKER_SRC, PATH_MARKER_TARGET,
};
use crate::text::{
    chars_contain, chars_find, chars_of, file_name_of, has_char, has_prefix, is_whitespace,
    lemma_find_from_spec, path_file_name, push_chars, push_range, spec_is_whitespace, str_equal,
    find_from, chars_start_with, strings_contain, strings_view,
};
use crate::sorted::{sorted_unique, strictly_sorted};
use crate::source_scope::last_with_key;

verus! {

/// The absolute paths of one Cargo run that captured commands refer to.
#[derive(Debug)]
pub struct RewriteContext {
    pub workspace_root: String,
    pub target_dir: String,
    pub cargo_home: String,
    pub rustc_path: String,
}

/// A character that may come just before a path token.
pub open spec fn boundary_before(c: Option<char>) -> bool {
    match c {
        None => true,
        Some(c) => spec_is_whitespace(c) || c == '"' || c == '\'' || c == '=' || c == ':' || c
            == ';' || c == ',' || c == '(' || c == '[' || c == '{',
    }
}

/// A character that may come just after a path token.
pub open spec fn boundary_after(c: Option<char>) -> bool {
    match c {
        None => true,
        Some(c) => spec_is_whitespace(c) || c == '"' || c == '\'' || c == '=' || c == ':' || c
            == ';' || c == ',' || c == ')' || c == ']' || c == '}' || c == '/' || c == '\\',
    }
}

/// Whether `ch` (the character before a match, if any) lets a path token start.
pub fn is_path_token_boundary_before(ch: Option<char>) -> (r: bool)
    ensures
        r == boundary_before(ch),
{
    match ch {
        None => true,
        Some(c) => is_whitespace(c) || c == '"' || c == '\'' || c == '=' || c == ':' || c == ';'
            || c == ',' || c == '(' || c == '[' || c == '{',
    }
}

/// Whether `ch` (the character after a match, if any) lets a path token end.
pub fn is_path_token_boundary_after(ch: Option<char>) -> (r: bool)
    ensures
        r == boundary_after(ch),
{
    match ch {
        None => true,
        Some(c) => is_whitespace(c) || c == '"' || c == '\'' || c == '=' || c == ':' || c == ';'
            || c == ',' || c == ')' || c == ']' || c == '}' || c == '/' || c == '\\',
    }
}

/// The character just before index `i` of `s`, if any.
pub open spec fn char_before(s: Seq<char>, i: int) -> Option<char> {
    if 0 < i <= s.len() {
        Some(s[i - 1])
    } else {
        None
    }
}

/// The character at index `i` of `s`, if any.
pub open spec fn char_at(s: Seq<char>, i: int) -> Option<char> {
    if 0 <= i < s.len() {
        Some(s[i])
    } else {
        None
    }
}

/// `s[start..]` with each occurrence of `from` that stands as a whole path
/// token replaced by `marker`. Occurrences are taken left to right; after a
/// replaced one the scan resumes past it, after one that is not a token the
/// scan resumes one character later.
pub open spec fn rewrite_tokens(s: Seq<char>, from: Seq<char>, marker: Seq<char>, start: int) -> Seq<
    char,
>
    decreases s.len() - start,
{
    if from.len() == 0 || start < 0 || start > s.len() {
        Seq::empty()
    } else {
        match find_from(s, from, start) {
            None => s.subrange(start, s.len() as int),
            Some(i) => if i < start || i + from.len() > s.len() {
                s.subrange(start, s.len() as int)
            } else if boundary_before(char_before(s, i)) && boundary_after(
                char_at(s, i + from.len()),
            ) {
                s.subrange(start, i) + marker + rewrite_tokens(s, from, marker, i + from.len())
            } else {
                s.subrange(start, i + 1) + rewrite_tokens(s, from, marker, i + 1)
            },
        }
    }
}

/// `value` with each path token `from` replaced by `marker` (unchanged when
/// `from` is empty).
pub open spec fn spec_replace_prefix(value: Seq<char>, from: Seq<char>, marker: Seq<char>) -> Seq<
    char,
> {
    if from.len() == 0 {
        value
    } else {
        rewrite_tokens(value, from, marker, 0)
    }
}

/// A value in which `from` does not occur is left as it is.
pub proof fn lemma_replace_prefix_absent(value: Seq<char>, from: Seq<char>, marker: Seq<char>)
    requires
        !crate::text::seq_contains(value, from),
    ensures
        spec_replace_prefix(value, from, marker) == value,
{
    if from.len() > 0 {
        lemma_find_from_spec(value, from, 0);
        if find_from(value, from, 0) is Some {
            let i = find_from(value, from, 0)->0;
            assert(crate::text::occurs_at(value, from, i));
        }
        assert(value.subrange(0, value.len() as int) =~= value);
    }
}

/// Replaces each occurrence of the path `from` in `value` that stands as a
/// whole token (delimited by quotes, separators, whitespace, or a following
/// path separator) by `marker`.
pub fn replace_prefix(value: String, from: &str, marker: &str) -> (r: String)
    ensures
        r@ == spec_replace_prefix(value@, from@, marker@),
{
    let f = chars_of(from);
    if f.len() == 0 {
        return value;
    }
    let s = chars_of(value.as_str());
    let m = chars_of(marker);
    let ghost whole = rewrite_tokens(s@, f@, m@, 0);
    let mut out = String::new();
    let mut scan: usize = 0;
    loop
        invariant_except_break
            out@ + rewrite_tokens(s@, f@, m@, scan as int) == whole,
        invariant
            f@ == from@,
            s@ == value@,
            m@ == marker@,
            f@.len() > 0,
            scan <= s@.len(),
            whole == rewrite_tokens(s@, f@, m@, 0),
        ensures
            out@ == whole,
        decreases s@.len() - scan,
    {
        proof {
            lemma_find_from_spec(s@, f@, scan as int);
        }
        match chars_find(&s, &f, scan) {
            None => {
                let ghost before = out@;
                push_range(&mut out, &s, scan, s.len());
                proof {
                    assert(rewrite_tokens(s@, f@, m@, scan as int) == s@.subrange(scan as int, s@.len() as int));
                }
                break;
            },
            Some(i) => {
                let end = i + f.len();
                let prev = if i == 0 {
                    None
                } else {
                    Some(s[i - 1])
                };
                let next = if end < s.len() {
                    Some(s[end])
                } else {
                    None
                };
                let ghost before = out@;
                let ghost tail = rewrite_tokens(s@, f@, m@, scan as int);
                if is_path_token_boundary_before(prev) && is_path_token_boundary_after(next) {
                    push_range(&mut out, &s, scan, i);
                    push_chars(&mut out, &m);
                    proof {
                        assert(prev == char_before(s@, i as int));
                        assert(next == char_at(s@, end as int));
                        assert(tail == s@.subrange(scan as int, i as int) + m@ + rewrite_tokens(s@, f@, m@, end as int));
                        assert(out@ =~= before + s@.subrange(scan as int, i as int) + m@);
                        assert(out@ + rewrite_tokens(s@, f@, m@, end as int) =~= before + tail);
                    }
                    scan = end;
                } else {
                    push_range(&mut out, &s, scan, i + 1);
                    proof {
                        assert(prev == char_before(s@, i as int));
                        assert(next == char_at(s@, end as int));
                        assert(tail == s@.subrange(scan as int, i + 1) + rewrite_tokens(s@, f@, m@, i + 1));
                        assert(out@ =~= before + s@.subrange(scan as int, i + 1));
                        assert(out@ + rewrite_tokens(s@, f@, m@, i + 1) =~= before + tail);
                    }
                    scan = i + 1;
                }
            },
        }
    }
    out
}

/// Whether `value` contains a path separator (`/` or `\`).
pub fn path_like(value: &str) -> (r: bool)
    ensures
        r == (has_char(value@, '/') || has_char(value@, '\\')),
{
    let v = chars_of(value);
    chars_contain(&v, '/') || chars_contain(&v, '\\')
}

/// The file name of `value` as a path, or `value` itself when it has none.
pub open spec fn program_name(value: Seq<char>) -> Seq<char> {
    match path_file_name(value) {
        Some(name) => name,
        None => value,
    }
}

/// Whether the program `value` is `rustc` (by its file name).
pub fn looks_like_rustc(value: &str) -> (r: bool)
    ensures
        r == (program_name(value@) == "rustc"@ || program_name(value@) == "rustc.exe"@),
{
    let v = chars_of(value);
    let candidate = match file_name_of(&v) {
        Some(name) => name,
        None => v,
    };
    let rustc = chars_of("rustc");
    let rustc_exe = chars_of("rustc.exe");
    crate::text::chars_equal(&candidate, &rustc) || crate::text::chars_equal(&candidate, &rustc_exe)
}

/// A captured value with the run's paths replaced by markers: the target
/// directory, then the workspace root, then Cargo home, then (when it is a
/// path) the `rustc` path.
pub open spec fn spec_normalize_value(value: Seq<char>, context: RewriteContext) -> Seq<char> {
    let a = spec_replace_prefix(value, context.target_dir@, PATH_MARKER_TARGET@);
    let b = spec_replace_prefix(a, context.workspace_root@, PATH_MARKER_SRC@);
    let c = spec_replace_prefix(b, context.cargo_home@, PATH_MARKER_CARGO_HOME@);
    if has_char(context.rustc_path@, '/') || has_char(context.rustc_path@, '\\') {
        spec_replace_prefix(c, context.rustc_path@, PATH_MARKER_RUSTC@)
    } else {
        c
    }
}

/// Replaces the run's paths in `value` by markers.
pub fn normalize_value(value: &str, context: &RewriteContext) -> (r: String)
    ensures
        r@ == spec_normalize_value(value@, *context),
{
    let mut rewritten = value.to_string();
    rewritten = replace_prefix(rewritten, context.target_dir.as_str(), PATH_MARKER_TARGET);
    rewritten = replace_prefix(rewritten, context.workspace_root.as_str(), PATH_MARKER_SRC);
    rewritten = replace_prefix(rewritten, context.cargo_home.as_str(), PATH_MARKER_CARGO_HOME);
    if path_like(context.rustc_path.as_str()) {
        rewritten = replace_prefix(rewritten, context.rustc_path.as_str(), PATH_MARKER_RUSTC);
    }
    rewritten
}

/// The value stored for environment entry `key`: the `cargo` and `rustc`
/// markers for `CARGO` and `RUSTC`, else the value with its paths replaced.
pub open spec fn spec_normalize_env_value(
    key: Seq<char>,
    value: Seq<char>,
    context: RewriteContext,
) -> Seq<char> {
    if key == "CARGO"@ {
        PATH_MARKER_CARGO_BIN@
    } else if key == "RUSTC"@ {
        PATH_MARKER_RUSTC@
    } else {
        spec_normalize_value(value, context)
    }
}

/// An environment entry with its value made independent of the run.
pub fn normalize_env(entry: CommandEnv, context: &RewriteContext) -> (r: CommandEnv)
    ensures
        r.key == entry.key,
        r.value@ == spec_normalize_env_value(entry.key@, entry.value@, *context),
{
    let mut entry = entry;
    if str_equal(entry.key.as_str(), "CARGO") {
        entry.value = PATH_MARKER_CARGO_BIN.to_string();
        return entry;
    }
    if str_equal(entry.key.as_str(), "RUSTC") {
        entry.value = PATH_MARKER_RUSTC.to_string();
        return entry;
    }
    entry.value = normalize_value(entry.value.as_str(), context);
    entry
}

/// The program of a captured command: the `rustc` marker for `rustc`
/// (by file name, or the run's `rustc` path), else with its paths replaced.
pub open spec fn spec_normalize_program(program: Seq<char>, context: RewriteContext) -> Seq<char> {
    if program_name(program) == "rustc"@ || program_name(program) == "rustc.exe"@ || program
        == context.rustc_path@ {
        PATH_MARKER_RUSTC@
    } else {
        spec_normalize_value(program, context)
    }
}

/// The program of a captured command, made independent of the run.
pub fn normalize_program(program: &str, context: &RewriteContext) -> (r: String)
    ensures
        r@ == spec_normalize_program(program@, *context),
{
    if looks_like_rustc(program) || str_equal(program, context.rustc_path.as_str()) {
        return PATH_MARKER_RUSTC.to_string();
    }
    normalize_value(program, context)
}

/// `r` is `command` with every path of the run replaced by its marker.
pub open spec fn is_normalized_command(
    r: CommandSpec,
    command: CommandSpec,
    context: RewriteContext,
) -> bool {
    &&& (r.cwd is Some <==> command.cwd is Some)
    &&& (command.cwd matches Some(c) ==> r.cwd.unwrap()@ == spec_normalize_value(c@, context))
    &&& r.env@.len() == command.env@.len()
    &&& forall|k: int|
        0 <= k < r.env@.len() ==> (#[trigger] r.env@[k]).key == command.env@[k].key
            && r.env@[k].value@ == spec_normalize_env_value(
            command.env@[k].key@,
            command.env@[k].value@,
            context,
        )
    &&& r.program@ == spec_normalize_program(command.program@, context)
    &&& r.args@.len() == command.args@.len()
    &&& forall|k: int|
        0 <= k < r.args@.len() ==> (#[trigger] r.args@[k])@ == spec_normalize_value(
            command.args@[k]@,
            context,
        )
}

/// A captured command made independent of the run.
pub fn normalize_command(command: CommandSpec, context: &RewriteContext) -> (r: CommandSpec)
    ensures
        is_normalized_command(r, command, *context),
{
    let cwd = match &command.cwd {
        Some(c) => Some(normalize_value(c.as_str(), context)),
        None => None,
    };
    let mut env: Vec<CommandEnv> = Vec::new();
    let mut k: usize = 0;
    while k < command.env.len()
        invariant
            k <= command.env@.len(),
            env@.len() == k,
            forall|j: int|
                0 <= j < k ==> (#[trigger] env@[j]).key == command.env@[j].key && env@[j].value@
                    == spec_normalize_env_value(command.env@[j].key@, command.env@[j].value@, *context),
        decreases command.env@.len() - k,
    {
        let entry = command.env[k].clone();
        env.push(normalize_env(entry, context));
        k = k + 1;
    }
    let program = normalize_program(command.program.as_str(), context);
    let mut args: Vec<String> = Vec::new();
    let mut k: usize = 0;
    while k < command.args.len()
        invariant
            k <= command.args@.len(),
            args@.len() == k,
            forall|j: int|
                0 <= j < k ==> (#[trigger] args@[j])@ == spec_normalize_value(command.args@[j]@, *context),
        decreases command.args@.len() - k,
    {
        args.push(normalize_value(command.args[k].as_str(), context));
        k = k + 1;
    }
    CommandSpec { cwd, env, program, args }
}

/// The source that `Cargo.lock` records for a package source: registry and
/// git sources as they are, none for others.
pub open spec fn spec_lock_source(source: Seq<char>) -> Option<Seq<char>> {
    if has_prefix(source, "registry+"@) || has_prefix(source, "git+"@) {
        Some(source)
    } else {
        None
    }
}

/// The source to look a package up by in `Cargo.lock`.
pub fn lock_source_for_lookup(source: &str) -> (r: Option<String>)
    ensures
        r is Some <==> spec_lock_source(source@) is Some,
        r matches Some(s) ==> spec_lock_source(source@) == Some(s@),
{
    let s = chars_of(source);
    if chars_start_with(&s, &chars_of("registry+")) || chars_start_with(&s, &chars_of("git+")) {
        return Some(source.to_string());
    }
    None
}

/// A `[[package]]` entry of `Cargo.lock`.
#[derive(Debug)]
pub struct LockPackage {
    pub name: String,
    pub version: String,
    pub source: Option<String>,
    pub checksum: Option<String>,
}

/// The entry records a checksum for `name`, `version` and `source`.
pub open spec fn lock_entry_matches(
    e: LockPackage,
    name: Seq<char>,
    version: Seq<char>,
    source: Seq<char>,
) -> bool {
    &&& e.name@ == name
    &&& e.version@ == version
    &&& e.source matches Some(s) && s@ == source
    &&& e.checksum is Some
}

/// The checksum that `Cargo.lock` records for a package (the last matching
/// entry counts; entries without a source or a checksum are ignored).
pub open spec fn spec_lock_checksum(
    entries: Seq<LockPackage>,
    name: Seq<char>,
    version: Seq<char>,
    source: Option<Seq<char>>,
) -> Option<Seq<char>>
    decreases entries.len(),
{
    match source {
        None => None,
        Some(src) => if entries.len() == 0 {
            None
        } else if lock_entry_matches(entries.last(), name, version, src) {
            Some(entries.last().checksum.unwrap()@)
        } else {
            spec_lock_checksum(entries.drop_last(), name, version, source)
        },
    }
}

/// The checksum `Cargo.lock` records for the package with this name, version
/// and package source (looked up by `lock_source_for_lookup`).
pub fn package_lock_checksum(
    entries: &Vec<LockPackage>,
    name: &str,
    version: &str,
    source: &str,
) -> (r: Option<String>)
    ensures
        r is Some <==> spec_lock_checksum(entries@, name@, version@, spec_lock_source(source@)) is Some,
        r matches Some(c) ==> spec_lock_checksum(entries@, name@, version@, spec_lock_source(source@))
            == Some(c@),
{
    let lookup = lock_source_for_lookup(source);
    let src = match lookup {
        None => return None,
        Some(s) => s,
    };
    let ghost want = spec_lock_source(source@);
    let mut i = entries.len();
    assert(entries@.take(i as int) =~= entries@);
    while i > 0
        invariant
            i <= entries@.len(),
            want == Some(src@),
            want == spec_lock_source(source@),
            spec_lock_checksum(entries@, name@, version@, want) == spec_lock_checksum(
                entries@.take(i as int),
                name@,
                version@,
                want,
            ),
        decreases i,
    {
        let e = &entries[i - 1];
        proof {
            assert(entries@.take(i as int).last() == entries@[i - 1]);
            assert(entries@.take(i as int).drop_last() =~= entries@.take(i - 1));
        }
        match &e.source {
            Some(s) => match &e.checksum {
                Some(c) => {
                    if str_equal(e.name.as_str(), name) && str_equal(e.version.as_str(), version)
                        && str_equal(s.as_str(), src.as_str()) {
                        proof {
                            assert(lock_entry_matches(entries@[i - 1], name@, version@, src@));
                            assert(entries@.take(i as int).last() == entries@[i - 1]);
                            assert(spec_lock_checksum(entries@.take(i as int), name@, version@, want)
                                == Some(entries@[i - 1].checksum.unwrap()@));
                        }
                        let r = c.clone();
                        assert(r@ == c@);
                        return Some(r);
                    }
                },
                None => {},
            },
            None => {},
        }
        i = i - 1;
    }
    None
}

/// The artifact that a compiler message reports as linked: the path of an
/// `artifact` message whose `emit` is `link`.
pub fn link_artifact_of(message_type: &str, artifact: Option<String>, emit: Option<String>) -> (r:
    Option<String>)
    ensures
        r == (if message_type@ == "artifact"@ && (emit matches Some(e) && e@ == "link"@) {
            artifact
        } else {
            None
        }),
{
    if str_equal(message_type, "artifact") {
        match &emit {
            Some(e) => {
                if str_equal(e.as_str(), "link") {
                    return artifact;
                }
            },
            None => {},
        }
    }
    None
}

/// A compiler or build-script invocation as Cargo ran it.
#[derive(Debug)]
pub struct CapturedUnit {
    pub unit_id: String,
    pub package_key: String,
    pub package_name: String,
    pub target_name: String,
    pub target_kind: String,
    pub compile_mode: String,
    pub link_artifact: Option<String>,
    pub command: CommandSpec,
}

/// The unit recorded for a captured invocation: its command made independent
/// of the run, its target triple, the build-script binary it links (for a
/// build script's compilation), and its package's version and dependencies
/// (of the last package with its key; `unknown` and none when there is none).
pub open spec fn is_plan_unit(
    r: Unit,
    captured: CapturedUnit,
    packages: Seq<PlanPackage>,
    context: RewriteContext,
) -> bool {
    &&& r.unit_id == captured.unit_id
    &&& r.package_key == captured.package_key
    &&& r.package_name == captured.package_name
    &&& r.target_name == captured.target_name
    &&& r.target_kind == captured.target_kind
    &&& r.compile_mode == captured.compile_mode
    &&& is_normalized_command(r.command, captured.command, context)
    &&& (r.target_triple is Some <==> spec_command_target_triple(r.command) is Some)
    &&& (r.target_triple matches Some(t) ==> spec_command_target_triple(r.command) == Some(t@))
    &&& (if captured.target_kind@ == "custom-build"@ && captured.compile_mode@ == "Build"@ {
        (r.build_script_binary is Some <==> captured.link_artifact is Some) && (
        captured.link_artifact matches Some(a) ==> r.build_script_binary.unwrap()@
            == spec_normalize_value(a@, context))
    } else {
        r.build_script_binary is None
    })
    &&& if exists|i: int| #[trigger] last_with_key(packages, i, packages.len() as int)
        && packages[i].key@ == captured.package_key@ {
        let i = choose|i: int| #[trigger] last_with_key(packages, i, packages.len() as int)
            && packages[i].key@ == captured.package_key@;
        r.package_version@ == packages[i].version@ && r.package_dependencies@
            == packages[i].dependencies@
    } else {
        r.package_version@ == "unknown"@ && r.package_dependencies@.len() == 0
    }
}

/// The units of the plan, one for each captured invocation, in order.
pub fn plan_units(
    captured: Vec<CapturedUnit>,
    packages: &Vec<PlanPackage>,
    context: &RewriteContext,
) -> (r: Vec<Unit>)
    ensures
        r@.len() == captured@.len(),
        forall|k: int| 0 <= k < r@.len() ==> is_plan_unit(#[trigger] r@[k], captured@[k], packages@, *context),
{
    let by_key = crate::plan_package::index_by_key(packages);
    let mut r: Vec<Unit> = Vec::new();
    let mut k: usize = 0;
    while k < captured.len()
        invariant
            k <= captured@.len(),
            r@.len() == k,
            by_key@.dom() == crate::command_layout::package_keys(packages@),
            forall|key: Seq<char>| #[trigger]
                by_key@.contains_key(key) ==> last_with_key(packages@, by_key@[key] as int, packages@.len() as int)
                    && packages@[by_key@[key] as int].key@ == key,
            forall|j: int| 0 <= j < k ==> is_plan_unit(#[trigger] r@[j], captured@[j], packages@, *context),
        decreases captured@.len() - k,
    {
        let c = &captured[k];
        let command = normalize_command(c.command.clone(), context);
        let target_triple = command_target_triple(&command);
        let build_script_binary = if str_equal(c.target_kind.as_str(), "custom-build") && str_equal(
            c.compile_mode.as_str(),
            "Build",
        ) {
            match &c.link_artifact {
                Some(a) => Some(normalize_value(a.as_str(), context)),
                None => None,
            }
        } else {
            None
        };
        let (package_version, package_dependencies) = match by_key.get(c.package_key.as_str()) {
            Some(i) => {
                let p = &packages[*i];
                proof {
                    let ii = *i as int;
                    assert(last_with_key(packages@, ii, packages@.len() as int) && packages@[ii].key@ == c.package_key@);
                    let jj = choose|j: int| #[trigger] last_with_key(packages@, j, packages@.len() as int)
                        && packages@[j].key@ == c.package_key@;
                    if jj < ii {
                        assert(packages@[ii].key@ == packages@[jj].key@);
                    } else if ii < jj {
                        assert(packages@[ii].key@ == packages@[jj].key@);
                    }
                }
                (p.version.clone(), crate::nix_tool::clone_strings(&p.dependencies))
            },
            None => {
                proof {
                    if exists|i: int| #[trigger] last_with_key(packages@, i, packages@.len() as int)
                        && packages@[i].key@ == c.package_key@ {
                        let i = choose|i: int| #[trigger] last_with_key(packages@, i, packages@.len() as int)
                            && packages@[i].key@ == c.package_key@;
                        assert(crate::command_layout::package_keys(packages@).contains(c.package_key@));
                    }
                }
                ("unknown".to_string(), Vec::new())
            },
        };
        proof {
            reveal_strlit("unknown");
        }
        let unit = Unit {
            unit_id: c.unit_id.clone(),
            package_key: c.package_key.clone(),
            package_name: c.package_name.clone(),
            package_version,
            target_name: c.target_name.clone(),
            target_kind: c.target_kind.clone(),
            compile_mode: c.compile_mode.clone(),
            target_triple,
            build_script_binary,
            package_dependencies,
            command,
        };
        r.push(unit);
        proof {
            assert forall|j: int| 0 <= j < k + 1 implies is_plan_unit(#[trigger] r@[j], captured@[j], packages@, *context) by {
                if j == k {
                    assert(r@[j] == unit);
                }
            }
        }
        k = k + 1;
    }
    r
}

/// A resolved package as the plan records it: its manifest's path under
/// Cargo home (if it is there), its dependency keys sorted and without
/// repeats, whether it is a workspace member, and the checksum that
/// `Cargo.lock` records for it.
pub fn plan_package(
    key: String,
    name: String,
    version: String,
    source: String,
    manifest_path: String,
    cargo_home: &str,
    dependency_keys: &Vec<String>,
    member_keys: &Vec<String>,
    lock: &Vec<LockPackage>,
) -> (r: PlanPackage)
    ensures
        r.key == key,
        r.name == name,
        r.version == version,
        r.source == source,
        r.manifest_path == manifest_path,
        r.cargo_home_rel_manifest_path is Some <==> path_strip_prefix(manifest_path@, cargo_home@) is Some,
        r.cargo_home_rel_manifest_path matches Some(p) ==> path_strip_prefix(manifest_path@, cargo_home@)
            == Some(p@),
        r.workspace_member == strings_view(member_keys@).contains(key@),
        strictly_sorted(strings_view(r.dependencies@)),
        strings_view(r.dependencies@).to_set() == strings_view(dependency_keys@).to_set(),
        r.lock_checksum is Some <==> spec_lock_checksum(lock@, name@, version@, spec_lock_source(source@)) is Some,
        r.lock_checksum matches Some(c) ==> spec_lock_checksum(lock@, name@, version@, spec_lock_source(source@))
            == Some(c@),
{
    let lock_checksum = package_lock_checksum(lock, name.as_str(), version.as_str(), source.as_str());
    let cargo_home_rel_manifest_path = strip_path_prefix(manifest_path.as_str(), cargo_home);
    let workspace_member = strings_contain(member_keys, key.as_str());
    let dependencies = sorted_unique(dependency_keys);
    PlanPackage {
        key,
        name,
        version,
        source,
        manifest_path,
        cargo_home_rel_manifest_path,
        lock_checksum,
        workspace_member,
        dependencies,
    }
}

} // verus!
