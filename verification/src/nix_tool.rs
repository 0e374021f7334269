//! The `nix` command line: the arguments this library passes to it, how its
//! output is read, and how `nix derivation add` is retried on an output path
//! mismatch. Running the commands is left to the caller.

use vstd::prelude::*;

use crate::derivation::{env_set, output_path_set, same_but_env, same_but_outputs, Derivation};
use crate::derived_path::{spec_render_derived, SingleDerivedPath};
use crate::store_path::{is_store_path_result, valid_store_path, StorePath, StorePathError};
use crate::text::{
    chars_find, chars_find_char, chars_of, chars_range, chars_split, chars_trim, find_char_from,
    find_from, spec_lines, spec_trim, split_on, str_equal, str_less, string_from_chars,
    strings_view,
};

verus! {

/// Configuration for Nix store operations.
#[derive(Debug)]
pub struct StoreConfig {
    /// Path to the Nix executable.
    pub nix_tool: String,
    /// Extra arguments to pass to Nix commands.
    pub extra_args: Vec<String>,
}

impl Default for StoreConfig {
    fn default() -> (r: Self)
        ensures
            r.nix_tool@ == "nix"@,
            r.extra_args@.len() == 0,
    {
        StoreConfig { nix_tool: String::from_str("nix"), extra_args: Vec::new() }
    }
}

impl Clone for StoreConfig {
    fn clone(&self) -> (r: Self)
        ensures
            r.nix_tool == self.nix_tool,
            r.extra_args@ == self.extra_args@,
    {
        StoreConfig { nix_tool: self.nix_tool.clone(), extra_args: clone_strings(&self.extra_args) }
    }
}

/// A copy of a list of strings.
pub fn clone_strings(v: &Vec<String>) -> (r: Vec<String>)
    ensures
        r@ == v@,
{
    let mut r: Vec<String> = Vec::new();
    let mut i: usize = 0;
    while i < v.len()
        invariant
            i <= v@.len(),
            r@ == v@.take(i as int),
        decreases v@.len() - i,
    {
        r.push(v[i].clone());
        assert(r@ =~= v@.take(i + 1));
        i = i + 1;
    }
    assert(v@.take(i as int) =~= v@);
    r
}

/// Appends a copy of the string slice `item` to `v`.
fn push_str(v: &mut Vec<String>, item: &str)
    ensures
        strings_view(final(v)@) == strings_view(old(v)@).push(item@),
{
    v.push(String::from_str(item));
    assert(strings_view(v@) =~= strings_view(old(v)@).push(item@));
}

/// Runs the configured `nix` executable.
#[derive(Debug)]
pub struct NixTool {
    config: StoreConfig,
}

impl NixTool {
    /// The configuration this tool runs with.
    pub closed spec fn spec_config(&self) -> StoreConfig {
        self.config
    }

    /// A tool running with `config`.
    pub fn new(config: StoreConfig) -> (r: Self)
        ensures
            r.spec_config() == config,
    {
        NixTool { config }
    }

    /// The configuration this tool runs with.
    pub fn config(&self) -> (r: &StoreConfig)
        ensures
            *r == self.spec_config(),
    {
        &self.config
    }

    /// The arguments of `nix build` for `derived_paths`: the extra arguments,
    /// `build -L --no-link --print-out-paths`, and each path's textual form.
    pub fn build_args(&self, derived_paths: &Vec<SingleDerivedPath>) -> (r: Vec<String>)
        ensures
            strings_view(r@) == strings_view(self.spec_config().extra_args@) + seq![
                "build"@,
                "-L"@,
                "--no-link"@,
                "--print-out-paths"@,
            ] + derived_paths@.map_values(|p: SingleDerivedPath| spec_render_derived(p)),
    {
        let mut r = clone_strings(&self.config.extra_args);
        push_str(&mut r, "build");
        push_str(&mut r, "-L");
        push_str(&mut r, "--no-link");
        push_str(&mut r, "--print-out-paths");
        let ghost prefix = strings_view(r@);
        let mut i: usize = 0;
        while i < derived_paths.len()
            invariant
                i <= derived_paths@.len(),
                strings_view(r@) == prefix + derived_paths@.take(i as int).map_values(
                    |p: SingleDerivedPath| spec_render_derived(p),
                ),
            decreases derived_paths@.len() - i,
        {
            let ghost before = strings_view(r@);
            let item = derived_paths[i].to_string();
            r.push(item);
            proof {
                assert(strings_view(r@) =~= before.push(item@));
                assert(derived_paths@.take(i + 1).map_values(
                    |p: SingleDerivedPath| spec_render_derived(p),
                ) =~= derived_paths@.take(i as int).map_values(
                    |p: SingleDerivedPath| spec_render_derived(p),
                ).push(spec_render_derived(derived_paths@[i as int])));
                assert(strings_view(r@) =~= prefix + derived_paths@.take(i + 1).map_values(
                    |p: SingleDerivedPath| spec_render_derived(p),
                ));
            }
            i = i + 1;
        }
        proof {
            assert(derived_paths@.take(i as int) =~= derived_paths@);
            assert(prefix =~= strings_view(self.config.extra_args@) + seq![
                "build"@,
                "-L"@,
                "--no-link"@,
                "--print-out-paths"@,
            ]);
        }
        r
    }

    /// The arguments of `nix store add` for `path`: the extra arguments,
    /// `store add`, `--name <name>` when a name is given, and the path.
    pub fn store_add_args(&self, path: &str, name: Option<&str>) -> (r: Vec<String>)
        ensures
            strings_view(r@) == strings_view(self.spec_config().extra_args@) + seq![
                "store"@,
                "add"@,
            ] + (match name {
                Some(n) => seq!["--name"@, n@],
                None => Seq::<Seq<char>>::empty(),
            }) + seq![path@],
    {
        let mut r = clone_strings(&self.config.extra_args);
        push_str(&mut r, "store");
        push_str(&mut r, "add");
        match name {
            Some(n) => {
                push_str(&mut r, "--name");
                push_str(&mut r, n);
            },
            None => {},
        }
        push_str(&mut r, path);
        proof {
            let base = strings_view(self.config.extra_args@);
            match name {
                Some(n) => {
                    assert(strings_view(r@) =~= base + seq!["store"@, "add"@] + seq![
                        "--name"@,
                        n@,
                    ] + seq![path@]);
                },
                None => {
                    assert(strings_view(r@) =~= base + seq!["store"@, "add"@]
                        + Seq::<Seq<char>>::empty() + seq![path@]);
                },
            }
        }
        r
    }

    /// The arguments of `nix derivation show` for `drv_path`.
    pub fn derivation_show_args(&self, drv_path: &StorePath) -> (r: Vec<String>)
        ensures
            strings_view(r@) == strings_view(self.spec_config().extra_args@) + seq![
                "derivation"@,
                "show"@,
                drv_path@,
            ],
    {
        let mut r = clone_strings(&self.config.extra_args);
        push_str(&mut r, "derivation");
        push_str(&mut r, "show");
        let ghost before = strings_view(r@);
        let item = drv_path.to_string();
        r.push(item);
        assert(strings_view(r@) =~= before.push(item@));
        assert(strings_view(r@) =~= strings_view(self.config.extra_args@) + seq![
            "derivation"@,
            "show"@,
            drv_path@,
        ]);
        r
    }

    /// The arguments of `nix derivation add` (which reads the derivation as
    /// JSON on its standard input).
    pub fn derivation_add_args(&self) -> (r: Vec<String>)
        ensures
            strings_view(r@) == strings_view(self.spec_config().extra_args@) + seq![
                "derivation"@,
                "add"@,
            ],
    {
        let mut r = clone_strings(&self.config.extra_args);
        push_str(&mut r, "derivation");
        push_str(&mut r, "add");
        assert(strings_view(r@) =~= strings_view(self.config.extra_args@) + seq![
            "derivation"@,
            "add"@,
        ]);
        r
    }
}

/// The path of an output whose base name `nix derivation show` gave: the
/// base name in the store directory that holds the derivation `drv_path`.
pub fn output_store_path(drv_path: &StorePath, output_basename: &str) -> (r: Option<String>)
    ensures
        r is Some <==> crate::host_path::path_parent(drv_path@) is Some,
        r matches Some(p) ==> p@ == crate::host_path::path_join(
            crate::host_path::path_parent(drv_path@).unwrap(),
            output_basename@,
        ),
{
    match crate::host_path::parent_of(drv_path.path().as_str()) {
        Some(store_dir) => Some(crate::host_path::join_paths(store_dir.as_str(), output_basename)),
        None => None,
    }
}

/// The path of output `output_name` of the derivation `drv_path`, from what
/// `nix derivation show` reports: `shown` maps the file name of each shown
/// derivation to the base names of its outputs' paths, by output name. The
/// base name is joined onto the store directory that holds the derivation.
pub fn shown_output_path(
    shown: &crate::string_map::StringMap<crate::string_map::StringMap<String>>,
    drv_path: &StorePath,
    output_name: &str,
) -> (r: Option<String>)
    ensures
        r is Some <==> (shown@.contains_key(crate::store_path::store_file_name(drv_path@))
            && shown@[crate::store_path::store_file_name(drv_path@)]@.contains_key(output_name@)
            && crate::host_path::path_parent(drv_path@) is Some),
        r matches Some(p) ==> p@ == crate::host_path::path_join(
            crate::host_path::path_parent(drv_path@).unwrap(),
            shown@[crate::store_path::store_file_name(drv_path@)]@[output_name@]@,
        ),
{
    let file_name = drv_path.file_name_string();
    match shown.get(file_name.as_str()) {
        None => None,
        Some(outputs) => match outputs.get(output_name) {
            None => None,
            Some(base) => output_store_path(drv_path, base.as_str()),
        },
    }
}

/// Reads the store path that `nix store add` or `nix derivation add` printed:
/// the output without surrounding whitespace must be a store path.
pub fn parse_store_path_output(stdout: &str) -> (r: Result<StorePath, StorePathError>)
    ensures
        is_store_path_result(r, spec_trim(stdout@)),
{
    let v = chars_of(stdout);
    assert(v@.subrange(0, v@.len() as int) =~= v@);
    let t = string_from_chars(&chars_trim(&v, 0, v.len()));
    StorePath::new(t.as_str())
}

/// The store paths that `nix build --print-out-paths` printed, one per line.
pub open spec fn build_output_lines(stdout: Seq<char>) -> Seq<Seq<char>> {
    spec_lines(stdout).map_values(|l: Seq<char>| spec_trim(l))
}

/// Reads the store paths that `nix build --print-out-paths` printed: each
/// line without surrounding whitespace must be a store path; the first one
/// that is not gives the error.
pub fn parse_build_output(stdout: &str) -> (r: Result<Vec<StorePath>, StorePathError>)
    ensures
        r is Ok <==> forall|i: int|
            0 <= i < build_output_lines(stdout@).len() ==> valid_store_path(
                #[trigger] build_output_lines(stdout@)[i],
            ),
        r matches Ok(paths) ==> paths@.len() == build_output_lines(stdout@).len() && forall|i: int|
            0 <= i < paths@.len() ==> #[trigger] paths@[i]@ == build_output_lines(stdout@)[i],
        r matches Err(e) ==> exists|i: int|
            0 <= i < build_output_lines(stdout@).len() && is_store_path_result(
                Err(e),
                #[trigger] build_output_lines(stdout@)[i],
            ) && forall|j: int| 0 <= j < i ==> valid_store_path(build_output_lines(stdout@)[j]),
{
    let v = chars_of(stdout);
    let parts = chars_split(&v, '\n', 0);
    let ghost lines = spec_lines(stdout@);
    proof {
        assert(v@.skip(0) =~= v@);
    }
    let count = if parts[parts.len() - 1].len() == 0 {
        parts.len() - 1
    } else {
        parts.len()
    };
    proof {
        lemma_split_on_nonempty(stdout@, '\n');
        assert(lines.len() == count);
        assert forall|j: int| 0 <= j < count implies lines[j] == parts@[j]@ by {
            assert(split_on(stdout@, '\n')[j] == parts@[j]@);
        }
    }
    let mut paths: Vec<StorePath> = Vec::new();
    let mut i: usize = 0;
    while i < count
        invariant
            count <= parts@.len(),
            lines.len() == count,
            lines == spec_lines(stdout@),
            forall|j: int| 0 <= j < count ==> lines[j] == parts@[j]@,
            i <= count,
            paths@.len() == i,
            forall|j: int| 0 <= j < i ==> valid_store_path(#[trigger] build_output_lines(stdout@)[j]),
            forall|j: int| 0 <= j < i ==> #[trigger] paths@[j]@ == build_output_lines(stdout@)[j],
        decreases count - i,
    {
        let line = &parts[i];
        assert(line@.subrange(0, line@.len() as int) =~= line@);
        let trimmed = string_from_chars(&chars_trim(line, 0, line.len()));
        assert(build_output_lines(stdout@)[i as int] == trimmed@);
        match StorePath::new(trimmed.as_str()) {
            Ok(p) => paths.push(p),
            Err(e) => {
                proof {
                    assert(is_store_path_result(Err(e), build_output_lines(stdout@)[i as int]));
                }
                return Err(e);
            },
        }
        i = i + 1;
    }
    Ok(paths)
}

proof fn lemma_split_on_nonempty(s: Seq<char>, c: char)
    ensures
        split_on(s, c).len() > 0,
    decreases s.len(),
{
    match find_char_from(s, c, 0) {
        None => {},
        Some(i) => if 0 <= i < s.len() {
            lemma_split_on_nonempty(s.skip(i + 1), c);
        },
    }
}

/// The store path that a `nix derivation add` error message gives for an
/// output: the text after `should be '` up to the next `'`, where the quoted
/// text starts with `/nix/store/`.
pub open spec fn spec_expected_output_store_path(stderr: Seq<char>) -> Option<Seq<char>> {
    match find_from(stderr, "should be '/nix/store/"@, 0) {
        None => None,
        Some(i) => match find_char_from(stderr, '\'', i + "should be '"@.len()) {
            None => None,
            Some(j) => Some(stderr.subrange(i + "should be '"@.len(), j)),
        },
    }
}

/// Reads the output store path that Nix expected from a `nix derivation add`
/// error message.
pub fn extract_expected_output_store_path(stderr: &str) -> (r: Option<String>)
    ensures
        r is Some <==> spec_expected_output_store_path(stderr@) is Some,
        r matches Some(p) ==> spec_expected_output_store_path(stderr@) == Some(p@),
{
    let s = chars_of(stderr);
    let marker = chars_of("should be '/nix/store/");
    let prefix = chars_of("should be '");
    proof {
        reveal_strlit("should be '/nix/store/");
        reveal_strlit("should be '");
    }
    let idx = match chars_find(&s, &marker, 0) {
        Some(i) => i,
        None => return None,
    };
    proof {
        lemma_find_from_found(s@, marker@, 0);
    }
    let start = idx + prefix.len();
    let end = match chars_find_char(&s, '\'', start) {
        Some(j) => j,
        None => return None,
    };
    proof {
        crate::text::lemma_find_char_from_found(s@, '\'', start as int);
    }
    Some(string_from_chars(&chars_range(&s, start, end)))
}

proof fn lemma_find_from_found(s: Seq<char>, p: Seq<char>, start: int)
    ensures
        find_from(s, p, start) matches Some(i) ==> start <= i && i + p.len() <= s.len(),
    decreases s.len() - start,
{
    if start >= 0 && start + p.len() <= s.len() && !crate::text::occurs_at(s, p, start) && start
        < s.len() {
        lemma_find_from_found(s, p, start + 1);
    }
}

/// What to do after `nix derivation add` failed.
#[derive(Debug)]
pub enum DerivationAddRetry {
    /// The path of `output` was set to the path Nix expected; try again.
    Retry { output: String },
    /// Nix expected a different output path, but the derivation has no outputs.
    NoOutputs,
    /// The error is not an output path mismatch.
    Failed,
}

/// The output whose path is set when Nix expected another output path:
/// `out` when there is one, otherwise the least output name.
pub open spec fn retry_output_name(outputs: Map<Seq<char>, crate::derivation::Output>, name: Seq<char>) -> bool {
    if outputs.contains_key("out"@) {
        name == "out"@
    } else {
        outputs.contains_key(name) && forall|k: Seq<char>|
            #[trigger] outputs.contains_key(k) && k != name ==> crate::text::seq_lt(name, k)
    }
}

/// `b` is `a` with the path of output `output` (chosen by
/// `retry_output_name`) set to `path`, and the environment variable of the
/// same name set to `path`; nothing else changes.
pub open spec fn is_retry_adjustment(a: Derivation, b: Derivation, output: Seq<char>, path: Seq<char>) -> bool {
    &&& retry_output_name(a.outputs@, output)
    &&& output_path_set(a.outputs@, b.outputs@, output, path)
    &&& env_set(a.env@, b.env@, output, path)
    &&& b.version == a.version
    &&& b.name == a.name
    &&& b.system == a.system
    &&& b.builder == a.builder
    &&& b.args@ == a.args@
    &&& b.inputs.drvs@ == a.inputs.drvs@
    &&& b.inputs.srcs@ == a.inputs.srcs@
}

/// Decides how to continue after `nix derivation add` rejected `candidate`
/// with the message `stderr`. When Nix names the output path it expected
/// and the derivation has outputs, that path is set as the path of the
/// chosen output and as the environment variable of the same name.
pub fn plan_derivation_add_retry(candidate: &mut Derivation, stderr: &str) -> (r:
    DerivationAddRetry)
    ensures
        spec_expected_output_store_path(stderr@) is None ==> r is Failed && *final(candidate)
            == *old(candidate),
        spec_expected_output_store_path(stderr@) is Some && old(candidate).outputs@.len() == 0
            ==> r is NoOutputs && *final(candidate) == *old(candidate),
        (spec_expected_output_store_path(stderr@) is Some && old(
            candidate,
        ).outputs@.len() > 0) ==> (r matches DerivationAddRetry::Retry { output } && is_retry_adjustment(
            *old(candidate),
            *final(candidate),
            output@,
            spec_expected_output_store_path(stderr@).unwrap(),
        )),
{
    let expected = match extract_expected_output_store_path(stderr) {
        Some(p) => p,
        None => return DerivationAddRetry::Failed,
    };
    if candidate.outputs.len() == 0 {
        return DerivationAddRetry::NoOutputs;
    }
    proof {
        if candidate.outputs@.dom() == Set::<Seq<char>>::empty() {
            assert(candidate.outputs@.len() == 0);
        }
    }
    let output = if candidate.outputs.contains_key("out") {
        String::from_str("out")
    } else {
        least_output_name(candidate)
    };
    candidate.set_output_path(output.as_str(), expected.as_str());
    candidate.set_env(output.as_str(), expected.as_str());
    DerivationAddRetry::Retry { output }
}

/// How many times `nix derivation add` is run before an output path mismatch
/// is given up on.
pub const DERIVATION_ADD_ATTEMPTS: usize = 4;

/// Why a build gave no output paths.
#[derive(Debug)]
pub enum BuildFailure {
    /// `nix build` failed; its error output.
    Failed(String),
    /// A printed line is not a store path.
    InvalidOutput(StorePathError),
}

/// The output paths of a run of `nix build --print-out-paths`, given
/// whether it succeeded and what it printed: on success, each printed line
/// without surrounding whitespace, in order, each a store path.
pub fn build_outputs(succeeded: bool, stdout: &str, stderr: &str) -> (r: Result<Vec<String>, BuildFailure>)
    ensures
        !succeeded ==> (r matches Err(BuildFailure::Failed(m)) && m@ == stderr@),
        succeeded ==> !(r matches Err(BuildFailure::Failed(_))),
        succeeded ==> (r is Ok <==> forall|i: int|
            0 <= i < build_output_lines(stdout@).len() ==> valid_store_path(
                #[trigger] build_output_lines(stdout@)[i],
            )),
        r matches Ok(paths) ==> strings_view(paths@) == build_output_lines(stdout@),
        r matches Err(BuildFailure::InvalidOutput(e)) ==> exists|i: int|
            0 <= i < build_output_lines(stdout@).len() && is_store_path_result(
                Err(e),
                #[trigger] build_output_lines(stdout@)[i],
            ) && forall|j: int| 0 <= j < i ==> valid_store_path(build_output_lines(stdout@)[j]),
{
    if !succeeded {
        return Err(BuildFailure::Failed(String::from_str(stderr)));
    }
    match parse_build_output(stdout) {
        Ok(paths) => {
            let mut r: Vec<String> = Vec::new();
            let mut i: usize = 0;
            while i < paths.len()
                invariant
                    i <= paths@.len(),
                    strings_view(r@) == paths@.take(i as int).map_values(|p: StorePath| p@),
                decreases paths@.len() - i,
            {
                let ghost before = strings_view(r@);
                let text = paths[i].to_string();
                r.push(text);
                proof {
                    assert(strings_view(r@) =~= before.push(paths@[i as int]@));
                    assert(paths@.take(i + 1).map_values(|p: StorePath| p@) =~= paths@.take(i as int).map_values(
                        |p: StorePath| p@,
                    ).push(paths@[i as int]@));
                }
                i = i + 1;
            }
            proof {
                assert(paths@.take(i as int) =~= paths@);
                assert(strings_view(r@) =~= build_output_lines(stdout@));
            }
            Ok(r)
        },
        Err(e) => Err(BuildFailure::InvalidOutput(e)),
    }
}

/// What comes after one run of `nix derivation add`.
#[derive(Debug)]
pub enum DerivationAddNext {
    /// The run succeeded: the store path it printed (or why that is none).
    Added(Result<StorePath, StorePathError>),
    /// The derivation was adjusted to the output path Nix expected; run again.
    Again,
    /// Nix refused the derivation for another reason; its message.
    Refused(String),
    /// The output path mismatch could not be resolved.
    Unresolved,
}

/// Decides what follows run number `attempt` (from 0) of `nix derivation add`
/// on `candidate`, given whether it succeeded and what it printed: the
/// printed store path on success; otherwise a retry with the output path
/// that Nix expected, as long as attempts are left.
pub fn derivation_add_next(
    candidate: &mut Derivation,
    attempt: usize,
    succeeded: bool,
    stdout: &str,
    stderr: &str,
) -> (r: DerivationAddNext)
    requires
        attempt < DERIVATION_ADD_ATTEMPTS,
    ensures
        succeeded ==> *final(candidate) == *old(candidate) && (r matches DerivationAddNext::Added(res)
            && is_store_path_result(res, spec_trim(stdout@))),
        !succeeded && spec_expected_output_store_path(stderr@) is None ==> *final(candidate) == *old(candidate) && (
        r matches DerivationAddNext::Refused(m) && m@ == stderr@),
        !succeeded && spec_expected_output_store_path(stderr@) is Some && old(candidate).outputs@.len() == 0
            ==> *final(candidate) == *old(candidate) && r is Unresolved,
        !succeeded && spec_expected_output_store_path(stderr@) is Some && old(candidate).outputs@.len() > 0 ==> (
        exists|output: Seq<char>|
            #[trigger] is_retry_adjustment(
                *old(candidate),
                *final(candidate),
                output,
                spec_expected_output_store_path(stderr@).unwrap(),
            )) && (r is Again <==> attempt + 1 < DERIVATION_ADD_ATTEMPTS) && (r is Unresolved <==> attempt + 1
            >= DERIVATION_ADD_ATTEMPTS),
{
    if succeeded {
        return DerivationAddNext::Added(parse_store_path_output(stdout));
    }
    match plan_derivation_add_retry(candidate, stderr) {
        DerivationAddRetry::Retry { output } => {
            if attempt + 1 < DERIVATION_ADD_ATTEMPTS {
                DerivationAddNext::Again
            } else {
                DerivationAddNext::Unresolved
            }
        },
        DerivationAddRetry::NoOutputs => DerivationAddNext::Unresolved,
        DerivationAddRetry::Failed => DerivationAddNext::Refused(String::from_str(stderr)),
    }
}

/// The least output name of a derivation that has outputs.
fn least_output_name(drv: &Derivation) -> (r: String)
    requires
        drv.outputs@.dom() != Set::<Seq<char>>::empty(),
        !drv.outputs@.contains_key("out"@),
    ensures
        retry_output_name(drv.outputs@, r@),
{
    let entries = drv.outputs.entries();
    proof {
        assert(entries@.len() > 0) by {
            if entries@.len() == 0 {
                assert(drv.outputs@.dom() =~= Set::<Seq<char>>::empty());
            }
        }
    }
    let mut best: usize = 0;
    let mut i: usize = 1;
    while i < entries.len()
        invariant
            0 <= best < i <= entries@.len(),
            forall|j: int|
                0 <= j < i && j != best ==> crate::text::seq_lt(
                    entries@[best as int].0@,
                    #[trigger] entries@[j].0@,
                ),
            crate::string_map::key_seq(entries@).no_duplicates(),
        decreases entries@.len() - i,
    {
        if str_less(entries[i].0.as_str(), entries[best].0.as_str()) {
            proof {
                assert forall|j: int| 0 <= j < i + 1 && j != i implies crate::text::seq_lt(
                    entries@[i as int].0@,
                    #[trigger] entries@[j].0@,
                ) by {
                    if j != best {
                        crate::sorted::lemma_seq_lt_transitive(
                            entries@[i as int].0@,
                            entries@[best as int].0@,
                            entries@[j].0@,
                        );
                    }
                }
            }
            best = i;
        } else {
            proof {
                assert(crate::string_map::key_seq(entries@)[i as int] == entries@[i as int].0@);
                assert(crate::string_map::key_seq(entries@)[best as int]
                    == entries@[best as int].0@);
                crate::sorted::lemma_seq_lt_total(entries@[i as int].0@, entries@[best as int].0@);
            }
        }
        i = i + 1;
    }
    proof {
        crate::string_map::lemma_entry_in_view(entries@, best as int);
        assert forall|k: Seq<char>| #[trigger]
            drv.outputs@.contains_key(k) && k != entries@[best as int].0@ implies crate::text::seq_lt(
            entries@[best as int].0@,
            k,
        ) by {
            crate::string_map::lemma_view_key(entries@, k);
        }
    }
    entries[best].0.clone()
}

} // verus!
