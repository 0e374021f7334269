//! Turning a plan into Nix derivations: which phase of each dependency a
//! package needs, the metadata-only phase of library crates, and the builder
//! script and derivation of each phase.

use vstd::prelude::*;

use crate::nix_string::{join, join_strings, replace_char};
use crate::text::{
    chars_end_with, chars_equal, chars_find_char, chars_of, chars_range, chars_split,
    chars_start_with, file_name_of, has_prefix, has_suffix, path_file_name, split_on,
    str_equal, string_from_chars, strings_contain, strings_view, find_char_from,
    lemma_find_char_from_bounds, trim_end_char,
};

verus! {

/// Which output of a dependency a phase needs: its metadata (`.rmeta`) or
/// the full build.
#[derive(Debug, Clone, Copy, PartialEq, Eq, Structural)]
pub enum DependencyPhase {
    Metadata,
    Full,
}

/// The phase that satisfies both needs: `Full` if either is `Full`.
pub open spec fn spec_stronger_phase(
    current: DependencyPhase,
    next: DependencyPhase,
) -> DependencyPhase {
    if current == DependencyPhase::Full || next == DependencyPhase::Full {
        DependencyPhase::Full
    } else {
        DependencyPhase::Metadata
    }
}

/// The stronger of two dependency phases.
pub fn stronger_phase(current: DependencyPhase, next: DependencyPhase) -> (r: DependencyPhase)
    ensures
        r == spec_stronger_phase(current, next),
{
    match (current, next) {
        (DependencyPhase::Full, _) | (_, DependencyPhase::Full) => DependencyPhase::Full,
        _ => DependencyPhase::Metadata,
    }
}

/// Combining needs does not depend on their order.
pub proof fn lemma_stronger_phase_commutative(a: DependencyPhase, b: DependencyPhase)
    ensures
        spec_stronger_phase(a, b) == spec_stronger_phase(b, a),
{
}

/// Combining needs does not depend on their grouping.
pub proof fn lemma_stronger_phase_associative(
    a: DependencyPhase,
    b: DependencyPhase,
    c: DependencyPhase,
)
    ensures
        spec_stronger_phase(spec_stronger_phase(a, b), c) == spec_stronger_phase(
            a,
            spec_stronger_phase(b, c),
        ),
{
}

/// Combining a need with itself changes nothing.
pub proof fn lemma_stronger_phase_idempotent(a: DependencyPhase)
    ensures
        spec_stronger_phase(a, a) == a,
{
}

/// Once a dependency is needed in full, it stays needed in full; a metadata
/// need adds nothing.
pub proof fn lemma_stronger_phase_bounds(a: DependencyPhase)
    ensures
        spec_stronger_phase(DependencyPhase::Full, a) == DependencyPhase::Full,
        spec_stronger_phase(DependencyPhase::Metadata, a) == a,
{
}

/// `i` is the first index of `s` whose element satisfies `pred`.
pub open spec fn is_first_match(s: Seq<Seq<char>>, pred: spec_fn(Seq<char>) -> bool, i: int) -> bool {
    &&& 0 <= i < s.len()
    &&& pred(s[i])
    &&& forall|j: int| 0 <= j < i ==> !pred(#[trigger] s[j])
}

/// The first index of `s` whose element satisfies `pred`, if any.
pub open spec fn first_match(s: Seq<Seq<char>>, pred: spec_fn(Seq<char>) -> bool) -> Option<int> {
    if exists|i: int| is_first_match(s, pred, i) {
        Some(choose|i: int| is_first_match(s, pred, i))
    } else {
        None
    }
}

pub proof fn lemma_first_match_at(s: Seq<Seq<char>>, pred: spec_fn(Seq<char>) -> bool, i: int)
    requires
        is_first_match(s, pred, i),
    ensures
        first_match(s, pred) == Some(i),
{
    let c = choose|c: int| is_first_match(s, pred, c);
    if c < i {
        assert(!pred(s[c]));
    } else if i < c {
        assert(!pred(s[i]));
    }
}

pub proof fn lemma_first_match_none(s: Seq<Seq<char>>, pred: spec_fn(Seq<char>) -> bool)
    requires
        forall|j: int| 0 <= j < s.len() ==> !pred(#[trigger] s[j]),
    ensures
        first_match(s, pred) is None,
{
}

/// Strings that start with `p`.
pub open spec fn prefixed(p: Seq<char>) -> spec_fn(Seq<char>) -> bool {
    |a: Seq<char>| has_prefix(a, p)
}

/// Strings equal to `p`.
pub open spec fn equal_to(p: Seq<char>) -> spec_fn(Seq<char>) -> bool {
    |a: Seq<char>| a == p
}

/// The first argument that starts with `prefix`.
fn find_prefixed(args: &Vec<String>, prefix: &str) -> (r: Option<usize>)
    ensures
        r matches Some(i) ==> i < args@.len() && first_match(strings_view(args@), prefixed(prefix@)) == Some(i as int),
        r is None ==> first_match(strings_view(args@), prefixed(prefix@)) is None,
{
    let p = chars_of(prefix);
    let ghost s = strings_view(args@);
    let mut i: usize = 0;
    while i < args.len()
        invariant
            i <= args@.len(),
            s == strings_view(args@),
            p@ == prefix@,
            forall|j: int| 0 <= j < i ==> !prefixed(prefix@)(#[trigger] s[j]),
        decreases args@.len() - i,
    {
        let a = chars_of(args[i].as_str());
        if chars_start_with(&a, &p) {
            proof {
                lemma_first_match_at(s, prefixed(prefix@), i as int);
            }
            return Some(i);
        }
        i = i + 1;
    }
    proof {
        lemma_first_match_none(s, prefixed(prefix@));
    }
    None
}

/// The first argument equal to `value`.
fn find_equal(args: &Vec<String>, value: &str) -> (r: Option<usize>)
    ensures
        r matches Some(i) ==> i < args@.len() && first_match(strings_view(args@), equal_to(value@)) == Some(i as int),
        r is None ==> first_match(strings_view(args@), equal_to(value@)) is None,
{
    let ghost s = strings_view(args@);
    let mut i: usize = 0;
    while i < args.len()
        invariant
            i <= args@.len(),
            s == strings_view(args@),
            forall|j: int| 0 <= j < i ==> !equal_to(value@)(#[trigger] s[j]),
        decreases args@.len() - i,
    {
        if str_equal(args[i].as_str(), value) {
            proof {
                lemma_first_match_at(s, equal_to(value@), i as int);
            }
            return Some(i);
        }
        i = i + 1;
    }
    proof {
        lemma_first_match_none(s, equal_to(value@));
    }
    None
}

/// Whether the comma-separated `value` has a part equal to `part`.
fn has_comma_part(value: &Vec<char>, part: &str) -> (r: bool)
    ensures
        r == split_on(value@, ',').contains(part@),
{
    let parts = chars_split(value, ',', 0);
    let p = chars_of(part);
    let ghost views = parts@.map_values(|x: Vec<char>| x@);
    proof {
        assert(value@.skip(0) =~= value@);
    }
    let mut i: usize = 0;
    while i < parts.len()
        invariant
            i <= parts@.len(),
            views == parts@.map_values(|x: Vec<char>| x@),
            views == split_on(value@, ','),
            p@ == part@,
            forall|j: int| 0 <= j < i ==> views[j] != part@,
        decreases parts@.len() - i,
    {
        if chars_equal(&parts[i], &p) {
            proof {
                assert(views[i as int] == part@);
            }
            return true;
        }
        i = i + 1;
    }
    false
}

/// The value of the first `--emit=` argument, else the argument after the
/// first `--emit`, asks for metadata.
pub open spec fn spec_command_emits_metadata(args: Seq<Seq<char>>) -> bool {
    match first_match(args, prefixed("--emit="@)) {
        Some(i) => split_on(args[i].skip("--emit="@.len() as int), ',').contains("metadata"@),
        None => match first_match(args, equal_to("--emit"@)) {
            Some(i) => i + 1 < args.len() && split_on(args[i + 1], ',').contains("metadata"@),
            None => false,
        },
    }
}

/// Whether the command asks the compiler to emit metadata.
pub fn command_emits_metadata(command: &crate::model::CommandSpec) -> (r: bool)
    ensures
        r == spec_command_emits_metadata(strings_view(command.args@)),
{
    let ghost s = strings_view(command.args@);
    match find_prefixed(&command.args, "--emit=") {
        Some(i) => {
            let a = chars_of(command.args[i].as_str());
            let p = chars_of("--emit=");
            proof {
                assert(has_prefix(s[i as int], "--emit="@));
            }
            let rest = chars_range(&a, p.len(), a.len());
            proof {
                assert(rest@ =~= s[i as int].skip("--emit="@.len() as int));
            }
            has_comma_part(&rest, "metadata")
        },
        None => match find_equal(&command.args, "--emit") {
            Some(i) => {
                let n = command.args.len();
                assert(i < n);
                if i + 1 < n {
                    let v = chars_of(command.args[i + 1].as_str());
                    has_comma_part(&v, "metadata")
                } else {
                    false
                }
            },
            None => false,
        },
    }
}

/// The value of the first `--crate-type=` argument, else the argument after
/// the first `--crate-type`, is `lib`.
pub open spec fn spec_command_has_lib_crate_type(args: Seq<Seq<char>>) -> bool {
    match first_match(args, prefixed("--crate-type="@)) {
        Some(i) => args[i].skip("--crate-type="@.len() as int) == "lib"@,
        None => match first_match(args, equal_to("--crate-type"@)) {
            Some(i) => i + 1 < args.len() && args[i + 1] == "lib"@,
            None => false,
        },
    }
}

/// Whether the command compiles a `lib` crate.
pub fn command_has_lib_crate_type(command: &crate::model::CommandSpec) -> (r: bool)
    ensures
        r == spec_command_has_lib_crate_type(strings_view(command.args@)),
{
    let ghost s = strings_view(command.args@);
    let lib = chars_of("lib");
    match find_prefixed(&command.args, "--crate-type=") {
        Some(i) => {
            let a = chars_of(command.args[i].as_str());
            let p = chars_of("--crate-type=");
            proof {
                assert(has_prefix(s[i as int], "--crate-type="@));
            }
            let rest = chars_range(&a, p.len(), a.len());
            proof {
                assert(rest@ =~= s[i as int].skip("--crate-type="@.len() as int));
            }
            chars_equal(&rest, &lib)
        },
        None => match find_equal(&command.args, "--crate-type") {
            Some(i) => {
                let n = command.args.len();
                assert(i < n);
                if i + 1 < n {
                    str_equal(command.args[i + 1].as_str(), "lib")
                } else {
                    false
                }
            },
            None => false,
        },
    }
}

/// `name=path` split at its first `=`.
pub open spec fn spec_parse_extern_spec(spec: Seq<char>) -> Option<(Seq<char>, Seq<char>)> {
    match find_char_from(spec, '=', 0) {
        Some(i) => Some((spec.take(i), spec.skip(i + 1))),
        None => None,
    }
}

/// Splits an `--extern` value `name=path` into the crate name and the path.
pub fn parse_extern_spec(spec: &str) -> (r: Option<(String, String)>)
    ensures
        r is Some <==> spec_parse_extern_spec(spec@) is Some,
        r matches Some(p) ==> spec_parse_extern_spec(spec@) == Some((p.0@, p.1@)),
{
    let v = chars_of(spec);
    proof {
        lemma_find_char_from_bounds(v@, '=', 0);
    }
    match chars_find_char(&v, '=', 0) {
        Some(i) => {
            assert(find_char_from(v@, '=', 0) == Some(i as int));
            assert(i < v.len());
            let name = chars_range(&v, 0, i);
            let path = chars_range(&v, i + 1, v.len());
            proof {
                assert(name@ =~= spec@.take(i as int));
                assert(path@ =~= spec@.skip(i + 1));
            }
            Some((string_from_chars(&name), string_from_chars(&path)))
        },
        None => None,
    }
}

/// The parsed `--extern` specs of the arguments from index `i` on: the
/// argument after each `--extern`, and the value of each `--extern=`.
pub open spec fn extern_specs_from(args: Seq<Seq<char>>, i: int) -> Seq<(Seq<char>, Seq<char>)>
    decreases args.len() - i,
{
    if i < 0 || i >= args.len() {
        Seq::empty()
    } else if args[i] == "--extern"@ {
        if i + 1 < args.len() {
            match spec_parse_extern_spec(args[i + 1]) {
                Some(p) => seq![p] + extern_specs_from(args, i + 2),
                None => extern_specs_from(args, i + 2),
            }
        } else {
            Seq::empty()
        }
    } else if has_prefix(args[i], "--extern="@) {
        match spec_parse_extern_spec(args[i].skip("--extern="@.len() as int)) {
            Some(p) => seq![p] + extern_specs_from(args, i + 1),
            None => extern_specs_from(args, i + 1),
        }
    } else {
        extern_specs_from(args, i + 1)
    }
}

/// The `(crate name, artifact path)` pairs that the command's `--extern`
/// arguments name, in order.
pub fn command_extern_artifacts(command: &crate::model::CommandSpec) -> (r: Vec<(String, String)>)
    ensures
        r@.map_values(|p: (String, String)| (p.0@, p.1@)) == extern_specs_from(
            strings_view(command.args@),
            0,
        ),
{
    let ghost s = strings_view(command.args@);
    let inline = chars_of("--extern=");
    let mut r: Vec<(String, String)> = Vec::new();
    let mut i: usize = 0;
    while i < command.args.len()
        invariant
            i <= command.args@.len() + 1,
            s == strings_view(command.args@),
            inline@ == "--extern="@,
            r@.map_values(|p: (String, String)| (p.0@, p.1@)) + extern_specs_from(s, i as int)
                == extern_specs_from(s, 0),
        decreases command.args@.len() + 1 - i,
    {
        let ghost before = r@.map_values(|p: (String, String)| (p.0@, p.1@));
        let arg = &command.args[i];
        if str_equal(arg.as_str(), "--extern") {
            if i + 1 < command.args.len() {
                match parse_extern_spec(command.args[i + 1].as_str()) {
                    Some(p) => {
                        r.push(p);
                        proof {
                            assert(r@.map_values(|p: (String, String)| (p.0@, p.1@)) =~= before + seq![(p.0@, p.1@)]);
                        }
                    },
                    None => {},
                }
                i = i + 2;
            } else {
                proof {
                    assert(extern_specs_from(s, i as int) == Seq::<(Seq<char>, Seq<char>)>::empty());
                    assert(extern_specs_from(s, i + 1) == Seq::<(Seq<char>, Seq<char>)>::empty());
                }
                i = i + 1;
            }
        } else {
            let a = chars_of(arg.as_str());
            if chars_start_with(&a, &inline) {
                let rest = chars_range(&a, inline.len(), a.len());
                let rest_str = string_from_chars(&rest);
                proof {
                    assert(rest@ =~= s[i as int].skip("--extern="@.len() as int));
                }
                match parse_extern_spec(rest_str.as_str()) {
                    Some(p) => {
                        r.push(p);
                        proof {
                            assert(r@.map_values(|p: (String, String)| (p.0@, p.1@)) =~= before + seq![(p.0@, p.1@)]);
                        }
                    },
                    None => {},
                }
            }
            i = i + 1;
        }
    }
    proof {
        assert(extern_specs_from(s, i as int) == Seq::<(Seq<char>, Seq<char>)>::empty());
        assert(r@.map_values(|p: (String, String)| (p.0@, p.1@)) =~= extern_specs_from(s, 0));
    }
    r
}

/// An artifact ending in `.rmeta` needs only the metadata phase.
pub open spec fn spec_dependency_phase_for_artifact(path: Seq<char>) -> DependencyPhase {
    if has_suffix(path, ".rmeta"@) {
        DependencyPhase::Metadata
    } else {
        DependencyPhase::Full
    }
}

/// The phase of a dependency that an `--extern` artifact path needs.
pub fn dependency_phase_for_artifact(artifact_path: &str) -> (r: DependencyPhase)
    ensures
        r == spec_dependency_phase_for_artifact(artifact_path@),
{
    if chars_end_with(&chars_of(artifact_path), &chars_of(".rmeta")) {
        DependencyPhase::Metadata
    } else {
        DependencyPhase::Full
    }
}

/// A crate name with `-` replaced by `_`.
pub fn normalize_crate_name(value: &str) -> (r: String)
    ensures
        r@ == replace_char(value@, '-', "_"@),
{
    let v = chars_of(value);
    let mut r = String::new();
    let mut i: usize = 0;
    while i < v.len()
        invariant
            i <= v@.len(),
            v@ == value@,
            r@ == replace_char(v@.take(i as int), '-', "_"@),
        decreases v@.len() - i,
    {
        proof {
            assert(v@.take(i + 1).drop_last() =~= v@.take(i as int));
            assert(v@.take(i + 1).last() == v@[i as int]);
        }
        if v[i] == '-' {
            r.append("_");
        } else {
            crate::text::push_char(&mut r, v[i]);
        }
        i = i + 1;
    }
    assert(v@.take(i as int) =~= v@);
    r
}

/// `s` with every trailing repetition of `suffix` removed
/// (`str::trim_end_matches` with a string pattern).
pub open spec fn trim_suffix_all(s: Seq<char>, suffix: Seq<char>) -> Seq<char>
    decreases s.len(),
{
    if suffix.len() > 0 && has_suffix(s, suffix) {
        trim_suffix_all(s.take(s.len() - suffix.len()), suffix)
    } else {
        s
    }
}

/// A library file name without its extensions.
pub open spec fn without_library_extension(name: Seq<char>) -> Seq<char> {
    let a = trim_suffix_all(name, ".rmeta"@);
    let b = trim_suffix_all(a, ".rlib"@);
    let c = trim_suffix_all(b, ".so"@);
    let d = trim_suffix_all(c, ".dylib"@);
    let e = trim_suffix_all(d, ".dll"@);
    trim_suffix_all(e, ".a"@)
}

/// The index of the last `c` in `s`.
pub open spec fn last_index_of(s: Seq<char>, c: char) -> Option<int>
    decreases s.len(),
{
    if s.len() == 0 {
        None
    } else if s.last() == c {
        Some(s.len() - 1)
    } else {
        last_index_of(s.drop_last(), c)
    }
}

/// An ASCII hexadecimal digit.
pub open spec fn is_ascii_hex(c: char) -> bool {
    ('0' <= c && c <= '9') || ('a' <= c && c <= 'f') || ('A' <= c && c <= 'F')
}

/// Every character of `s` from index `start` on is an ASCII hex digit.
pub open spec fn all_hex_from(s: Seq<char>, start: int) -> bool {
    forall|j: int| start <= j < s.len() ==> is_ascii_hex(#[trigger] s[j])
}

/// `s` without a leading `lib`.
pub open spec fn strip_lib_prefix(s: Seq<char>) -> Seq<char> {
    if has_prefix(s, "lib"@) {
        s.skip(3)
    } else {
        s
    }
}

/// `stem` without a final `-<hex hash>`; none when `stem` has no `-`.
pub open spec fn strip_hash_suffix(stem: Seq<char>) -> Option<Seq<char>> {
    match last_index_of(stem, '-') {
        None => None,
        Some(i) => if all_hex_from(stem, i + 1) {
            Some(stem.take(i))
        } else {
            Some(stem)
        },
    }
}

/// The crate name an artifact path stands for: its file name without
/// library extensions and `lib` prefix, and without a final `-<hex hash>`
/// (none when the path has no file name or the rest has no `-`).
pub open spec fn spec_artifact_crate_stem(path: Seq<char>) -> Option<Seq<char>> {
    match path_file_name(path) {
        None => None,
        Some(file_name) => strip_hash_suffix(strip_lib_prefix(without_library_extension(file_name))),
    }
}

proof fn lemma_last_index_of_bounds(s: Seq<char>, c: char)
    ensures
        last_index_of(s, c) matches Some(i) ==> 0 <= i < s.len() && s[i] == c && forall|j: int|
            i < j < s.len() ==> s[j] != c,
        last_index_of(s, c) is None ==> forall|j: int| 0 <= j < s.len() ==> s[j] != c,
    decreases s.len(),
{
    if s.len() > 0 && s.last() != c {
        let t = s.drop_last();
        lemma_last_index_of_bounds(t, c);
        assert forall|j: int| 0 <= j < t.len() implies t[j] == s[j] by {}
        if last_index_of(s, c) is None {
            assert forall|j: int| 0 <= j < s.len() implies s[j] != c by {
                if j < t.len() {
                    assert(t[j] == s[j]);
                }
            }
        }
    }
}

/// `v` with every trailing repetition of `suffix` removed.
fn chars_trim_suffix_all(v: Vec<char>, suffix: &str) -> (r: Vec<char>)
    ensures
        r@ == trim_suffix_all(v@, suffix@),
{
    let p = chars_of(suffix);
    if p.len() == 0 {
        return v;
    }
    let mut cur = v;
    while chars_end_with(&cur, &p)
        invariant
            p@ == suffix@,
            p@.len() > 0,
            trim_suffix_all(cur@, suffix@) == trim_suffix_all(v@, suffix@),
        decreases cur@.len(),
    {
        let n = cur.len() - p.len();
        cur = chars_range(&cur, 0, n);
    }
    cur
}

/// The crate name that an artifact path stands for (see
/// `spec_artifact_crate_stem`).
pub fn artifact_crate_stem(artifact_path: &str) -> (r: Option<String>)
    ensures
        r is Some <==> spec_artifact_crate_stem(artifact_path@) is Some,
        r matches Some(s) ==> spec_artifact_crate_stem(artifact_path@) == Some(s@),
{
    let v = chars_of(artifact_path);
    let file_name = match file_name_of(&v) {
        None => return None,
        Some(f) => f,
    };
    let ghost fname = file_name@;
    let a = chars_trim_suffix_all(file_name, ".rmeta");
    let b = chars_trim_suffix_all(a, ".rlib");
    let c = chars_trim_suffix_all(b, ".so");
    let d = chars_trim_suffix_all(c, ".dylib");
    let e = chars_trim_suffix_all(d, ".dll");
    let w = chars_trim_suffix_all(e, ".a");
    assert(w@ == without_library_extension(fname));
    assert(path_file_name(artifact_path@) == Some(fname));
    let lib = chars_of("lib");
    proof {
        reveal_strlit("lib");
    }
    let stem = if chars_start_with(&w, &lib) {
        chars_range(&w, 3, w.len())
    } else {
        w
    };
    proof {
        assert(stem@ == strip_lib_prefix(w@));
    }
    let mut i = stem.len();
    assert(stem@.take(i as int) =~= stem@);
    while i > 0 && stem[i - 1] != '-'
        invariant
            i <= stem@.len(),
            last_index_of(stem@, '-') == last_index_of(stem@.take(i as int), '-'),
        decreases i,
    {
        proof {
            assert(stem@.take(i as int).drop_last() =~= stem@.take(i - 1));
        }
        i = i - 1;
    }
    if i == 0 {
        proof {
            assert(stem@.take(0) =~= Seq::<char>::empty());
        }
        return None;
    }
    let dash = i - 1;
    proof {
        assert(stem@.take(i as int).last() == '-');
        assert(last_index_of(stem@, '-') == Some(dash as int));
    }
    let mut j = dash + 1;
    let mut all_hex = true;
    while j < stem.len()
        invariant
            dash < stem@.len(),
            dash + 1 <= j <= stem@.len(),
            all_hex == forall|k: int| dash + 1 <= k < j ==> is_ascii_hex(#[trigger] stem@[k]),
        decreases stem@.len() - j,
    {
        let ch = stem[j];
        if !(('0' <= ch && ch <= '9') || ('a' <= ch && ch <= 'f') || ('A' <= ch && ch <= 'F')) {
            all_hex = false;
        }
        j = j + 1;
    }
    if all_hex {
        let crate_stem = chars_range(&stem, 0, dash);
        proof {
            assert(crate_stem@ =~= stem@.take(dash as int));
            assert(all_hex_from(stem@, dash + 1));
            assert(spec_artifact_crate_stem(artifact_path@) == Some(stem@.take(dash as int)));
        }
        Some(string_from_chars(&crate_stem))
    } else {
        proof {
            let k = choose|k: int| dash + 1 <= k < stem@.len() && !is_ascii_hex(#[trigger] stem@[k]);
            assert(!all_hex_from(stem@, dash + 1));
            assert(spec_artifact_crate_stem(artifact_path@) == Some(stem@));
        }
        Some(string_from_chars(&stem))
    }
}

/// A part of an `--emit` value that the metadata phase keeps.
pub open spec fn kept_emit_part(p: Seq<char>) -> bool {
    p == "metadata"@ || p == "dep-info"@ || has_prefix(p, "dep-info="@) || has_prefix(p, "metadata="@)
}

/// The parts that the metadata phase keeps, in order.
pub open spec fn kept_emit_parts(parts: Seq<Seq<char>>) -> Seq<Seq<char>>
    decreases parts.len(),
{
    if parts.len() == 0 {
        Seq::empty()
    } else if kept_emit_part(parts.last()) {
        kept_emit_parts(parts.drop_last()).push(parts.last())
    } else {
        kept_emit_parts(parts.drop_last())
    }
}

/// An `--emit` value for the metadata phase: its `metadata` and `dep-info`
/// parts, with `metadata` added when missing.
pub open spec fn spec_metadata_emit_value(value: Seq<char>) -> Seq<char> {
    let kept = kept_emit_parts(split_on(value, ','));
    if kept.contains("metadata"@) {
        join(kept, ","@)
    } else {
        join(kept.push("metadata"@), ","@)
    }
}

/// The `--emit` value for the metadata phase.
pub fn metadata_emit_value(value: &str) -> (r: String)
    ensures
        r@ == spec_metadata_emit_value(value@),
{
    let v = chars_of(value);
    let parts = chars_split(&v, ',', 0);
    let ghost views = parts@.map_values(|x: Vec<char>| x@);
    proof {
        assert(v@.skip(0) =~= v@);
    }
    let metadata = chars_of("metadata");
    let dep_info = chars_of("dep-info");
    let dep_info_eq = chars_of("dep-info=");
    let metadata_eq = chars_of("metadata=");
    let mut kept: Vec<String> = Vec::new();
    let mut i: usize = 0;
    while i < parts.len()
        invariant
            i <= parts@.len(),
            views == parts@.map_values(|x: Vec<char>| x@),
            views == split_on(value@, ','),
            metadata@ == "metadata"@,
            dep_info@ == "dep-info"@,
            dep_info_eq@ == "dep-info="@,
            metadata_eq@ == "metadata="@,
            strings_view(kept@) == kept_emit_parts(views.take(i as int)),
        decreases parts@.len() - i,
    {
        proof {
            assert(views.take(i + 1).drop_last() =~= views.take(i as int));
            assert(views.take(i + 1).last() == parts@[i as int]@);
        }
        let part = &parts[i];
        if chars_equal(part, &metadata) || chars_equal(part, &dep_info) || chars_start_with(
            part,
            &dep_info_eq,
        ) || chars_start_with(part, &metadata_eq) {
            kept.push(string_from_chars(part));
            proof {
                assert(strings_view(kept@) =~= kept_emit_parts(views.take(i as int)).push(parts@[i as int]@));
            }
        }
        i = i + 1;
    }
    proof {
        assert(views.take(i as int) =~= views);
    }
    if !strings_contain(&kept, "metadata") {
        let ghost before = strings_view(kept@);
        kept.push("metadata".to_string());
        proof {
            assert(strings_view(kept@) =~= before.push("metadata"@));
        }
    }
    join_strings(&kept, ",")
}

/// A build script's compilation: a `build-script` or `custom-build` target
/// in `Build` mode.
pub open spec fn spec_is_build_script_compile_unit(unit: crate::model::Unit) -> bool {
    (unit.target_kind@ == "build-script"@ || unit.target_kind@ == "custom-build"@)
        && unit.compile_mode@ == "Build"@
}

/// Whether the unit compiles a build script.
pub fn is_build_script_compile_unit(unit: &crate::model::Unit) -> (r: bool)
    ensures
        r == spec_is_build_script_compile_unit(*unit),
{
    (str_equal(unit.target_kind.as_str(), "build-script") || str_equal(
        unit.target_kind.as_str(),
        "custom-build",
    )) && str_equal(unit.compile_mode.as_str(), "Build")
}

/// A unit that has a metadata phase: a library compilation that emits
/// metadata.
pub open spec fn spec_is_metadata_phase_unit(unit: crate::model::Unit) -> bool {
    spec_command_emits_metadata(strings_view(unit.command.args@))
        && spec_command_has_lib_crate_type(strings_view(unit.command.args@))
}

/// Whether the unit compiles a library that emits metadata.
pub fn is_metadata_phase_unit(unit: &crate::model::Unit) -> (r: bool)
    ensures
        r == spec_is_metadata_phase_unit(*unit),
{
    command_emits_metadata(&unit.command) && command_has_lib_crate_type(&unit.command)
}

/// The arguments from index `i` on, with each `--emit` value (after
/// `--emit`, or in `--emit=`) restricted to the metadata phase.
pub open spec fn metadata_args_from(args: Seq<Seq<char>>, i: int) -> Seq<Seq<char>>
    decreases args.len() - i,
{
    if i < 0 || i >= args.len() {
        Seq::empty()
    } else if args[i] == "--emit"@ {
        if i + 1 < args.len() {
            seq![args[i], spec_metadata_emit_value(args[i + 1])] + metadata_args_from(args, i + 2)
        } else {
            seq![args[i]]
        }
    } else if has_prefix(args[i], "--emit="@) {
        seq!["--emit="@ + spec_metadata_emit_value(args[i].skip("--emit="@.len() as int))]
            + metadata_args_from(args, i + 1)
    } else {
        seq![args[i]] + metadata_args_from(args, i + 1)
    }
}

/// The command with its `--emit` values restricted to the metadata phase.
pub fn rewrite_command_for_metadata_phase(command: crate::model::CommandSpec) -> (r:
    crate::model::CommandSpec)
    ensures
        r.cwd == command.cwd,
        r.env@ == command.env@,
        r.program == command.program,
        strings_view(r.args@) == metadata_args_from(strings_view(command.args@), 0),
{
    let ghost s = strings_view(command.args@);
    let emit_eq = chars_of("--emit=");
    let mut args: Vec<String> = Vec::new();
    let mut i: usize = 0;
    while i < command.args.len()
        invariant
            i <= command.args@.len() + 1,
            s == strings_view(command.args@),
            emit_eq@ == "--emit="@,
            strings_view(args@) + metadata_args_from(s, i as int) == metadata_args_from(s, 0),
        decreases command.args@.len() + 1 - i,
    {
        let ghost before = strings_view(args@);
        let arg = &command.args[i];
        if str_equal(arg.as_str(), "--emit") {
            args.push(arg.clone());
            if i + 1 < command.args.len() {
                let value = metadata_emit_value(command.args[i + 1].as_str());
                args.push(value);
                proof {
                    assert(strings_view(args@) =~= before + seq![s[i as int], spec_metadata_emit_value(s[i + 1])]);
                }
                i = i + 2;
            } else {
                proof {
                    assert(strings_view(args@) =~= before + seq![s[i as int]]);
                    assert(metadata_args_from(s, i + 1) == Seq::<Seq<char>>::empty());
                }
                i = i + 1;
            }
        } else {
            let a = chars_of(arg.as_str());
            if chars_start_with(&a, &emit_eq) {
                let rest = chars_range(&a, emit_eq.len(), a.len());
                proof {
                    assert(rest@ =~= s[i as int].skip("--emit="@.len() as int));
                }
                let value = metadata_emit_value(string_from_chars(&rest).as_str());
                let mut rewritten = "--emit=".to_string();
                rewritten.append(value.as_str());
                args.push(rewritten);
                proof {
                    assert(strings_view(args@) =~= before + seq!["--emit="@ + spec_metadata_emit_value(s[i as int].skip("--emit="@.len() as int))]);
                }
            } else {
                args.push(arg.clone());
                proof {
                    assert(strings_view(args@) =~= before + seq![s[i as int]]);
                }
            }
            i = i + 1;
        }
    }
    proof {
        assert(metadata_args_from(s, i as int) == Seq::<Seq<char>>::empty());
        assert(strings_view(args@) =~= metadata_args_from(s, 0));
    }
    crate::model::CommandSpec { cwd: command.cwd, env: command.env, program: command.program, args }
}

/// The unit rewritten for the metadata phase: a library compilation that
/// emits metadata gets its `--emit` values restricted; others are unchanged.
pub open spec fn is_metadata_phase_rewrite(r: crate::model::Unit, unit: crate::model::Unit) -> bool {
    if spec_is_metadata_phase_unit(unit) {
        &&& r.unit_id == unit.unit_id
        &&& r.package_key == unit.package_key
        &&& r.package_name == unit.package_name
        &&& r.package_version == unit.package_version
        &&& r.target_name == unit.target_name
        &&& r.target_kind == unit.target_kind
        &&& r.compile_mode == unit.compile_mode
        &&& r.target_triple == unit.target_triple
        &&& r.build_script_binary == unit.build_script_binary
        &&& r.package_dependencies@ == unit.package_dependencies@
        &&& r.command.cwd == unit.command.cwd
        &&& r.command.env@ == unit.command.env@
        &&& r.command.program == unit.command.program
        &&& strings_view(r.command.args@) == metadata_args_from(strings_view(unit.command.args@), 0)
    } else {
        crate::model::same_unit(r, unit)
    }
}

/// The unit as the metadata phase runs it.
pub fn rewrite_unit_for_metadata_phase(unit: crate::model::Unit) -> (r: crate::model::Unit)
    ensures
        is_metadata_phase_rewrite(r, unit),
{
    if !is_metadata_phase_unit(&unit) {
        return unit;
    }
    let crate::model::Unit {
        unit_id,
        package_key,
        package_name,
        package_version,
        target_name,
        target_kind,
        compile_mode,
        target_triple,
        build_script_binary,
        package_dependencies,
        command,
    } = unit;
    crate::model::Unit {
        unit_id,
        package_key,
        package_name,
        package_version,
        target_name,
        target_kind,
        compile_mode,
        target_triple,
        build_script_binary,
        package_dependencies,
        command: rewrite_command_for_metadata_phase(command),
    }
}

/// The keys of the packages, in order.
pub open spec fn package_key_seq(packages: Seq<crate::model::PlanPackage>) -> Seq<Seq<char>> {
    packages.map_values(|p: crate::model::PlanPackage| p.key@)
}

/// For each dependency key that names a package, the key and the package's
/// crate name (of the first package with that key), in order.
pub open spec fn dependency_names(
    packages: Seq<crate::model::PlanPackage>,
    keys: Seq<Seq<char>>,
) -> Seq<(Seq<char>, Seq<char>)>
    decreases keys.len(),
{
    if keys.len() == 0 {
        Seq::empty()
    } else {
        let prev = dependency_names(packages, keys.drop_last());
        match first_match(package_key_seq(packages), equal_to(keys.last())) {
            Some(i) => prev.push((keys.last(), replace_char(packages[i].name@, '-', "_"@))),
            None => prev,
        }
    }
}

/// The crate names an `--extern` may refer to: its crate name and the stem
/// of its artifact, normalized, without repeats.
pub open spec fn candidate_names(crate_name: Seq<char>, path: Seq<char>) -> Seq<Seq<char>> {
    let first = if crate_name.len() > 0 {
        seq![replace_char(crate_name, '-', "_"@)]
    } else {
        Seq::empty()
    };
    match spec_artifact_crate_stem(path) {
        Some(stem) => {
            let n = replace_char(stem, '-', "_"@);
            if first.contains(n) {
                first
            } else {
                first.push(n)
            }
        },
        None => first,
    }
}

/// The dependencies whose crate name is among `candidates`, each with `phase`.
pub open spec fn matching_dependencies(
    names: Seq<(Seq<char>, Seq<char>)>,
    candidates: Seq<Seq<char>>,
    phase: DependencyPhase,
) -> Seq<(Seq<char>, DependencyPhase)>
    decreases names.len(),
{
    if names.len() == 0 {
        Seq::empty()
    } else {
        let prev = matching_dependencies(names.drop_last(), candidates, phase);
        if candidates.contains(names.last().1) {
            prev.push((names.last().0, phase))
        } else {
            prev
        }
    }
}

/// What one `--extern` needs of the dependencies.
pub open spec fn extern_requirements(
    names: Seq<(Seq<char>, Seq<char>)>,
    crate_name: Seq<char>,
    path: Seq<char>,
) -> Seq<(Seq<char>, DependencyPhase)> {
    if path.len() == 0 || candidate_names(crate_name, path).len() == 0 {
        Seq::empty()
    } else {
        matching_dependencies(
            names,
            candidate_names(crate_name, path),
            spec_dependency_phase_for_artifact(path),
        )
    }
}

/// What a list of `--extern`s needs of the dependencies, in order.
pub open spec fn externs_requirements(
    names: Seq<(Seq<char>, Seq<char>)>,
    externs: Seq<(Seq<char>, Seq<char>)>,
) -> Seq<(Seq<char>, DependencyPhase)>
    decreases externs.len(),
{
    if externs.len() == 0 {
        Seq::empty()
    } else {
        externs_requirements(names, externs.drop_last()) + extern_requirements(
            names,
            externs.last().0,
            externs.last().1,
        )
    }
}

/// What a unit needs of the package's dependencies: for each `--extern`, the
/// dependencies whose crate name the extern names, in the phase its artifact
/// needs.
pub open spec fn spec_unit_dependency_requirements(
    packages: Seq<crate::model::PlanPackage>,
    dependency_keys: Seq<Seq<char>>,
    unit: crate::model::Unit,
) -> Seq<(Seq<char>, DependencyPhase)> {
    externs_requirements(
        dependency_names(packages, dependency_keys),
        extern_specs_from(strings_view(unit.command.args@), 0),
    )
}

/// The index of the first package with key `key`.
fn first_package_with_key(packages: &Vec<crate::model::PlanPackage>, key: &str) -> (r: Option<usize>)
    ensures
        r matches Some(i) ==> i < packages@.len() && first_match(package_key_seq(packages@), equal_to(key@))
            == Some(i as int),
        r is None ==> first_match(package_key_seq(packages@), equal_to(key@)) is None,
{
    let ghost s = package_key_seq(packages@);
    let mut i: usize = 0;
    while i < packages.len()
        invariant
            i <= packages@.len(),
            s == package_key_seq(packages@),
            forall|j: int| 0 <= j < i ==> !equal_to(key@)(#[trigger] s[j]),
        decreases packages@.len() - i,
    {
        if str_equal(packages[i].key.as_str(), key) {
            proof {
                lemma_first_match_at(s, equal_to(key@), i as int);
            }
            return Some(i);
        }
        i = i + 1;
    }
    proof {
        lemma_first_match_none(s, equal_to(key@));
    }
    None
}

fn dependency_name_pairs(packages: &Vec<crate::model::PlanPackage>, keys: &Vec<String>) -> (r: Vec<
    (String, String),
>)
    ensures
        r@.map_values(|p: (String, String)| (p.0@, p.1@)) == dependency_names(packages@, strings_view(keys@)),
{
    let ghost ks = strings_view(keys@);
    let mut r: Vec<(String, String)> = Vec::new();
    let mut i: usize = 0;
    while i < keys.len()
        invariant
            i <= keys@.len(),
            ks == strings_view(keys@),
            r@.map_values(|p: (String, String)| (p.0@, p.1@)) == dependency_names(packages@, ks.take(i as int)),
        decreases keys@.len() - i,
    {
        proof {
            assert(ks.take(i + 1).drop_last() =~= ks.take(i as int));
            assert(ks.take(i + 1).last() == keys@[i as int]@);
        }
        let ghost before = r@.map_values(|p: (String, String)| (p.0@, p.1@));
        match first_package_with_key(packages, keys[i].as_str()) {
            Some(j) => {
                let name = normalize_crate_name(packages[j].name.as_str());
                r.push((keys[i].clone(), name));
                proof {
                    assert(r@.map_values(|p: (String, String)| (p.0@, p.1@)) =~= before.push(
                        (keys@[i as int]@, replace_char(packages@[j as int].name@, '-', "_"@)),
                    ));
                }
            },
            None => {},
        }
        i = i + 1;
    }
    proof {
        assert(ks.take(i as int) =~= ks);
    }
    r
}

/// What a unit needs of the package's dependencies (see
/// `spec_unit_dependency_requirements`).
pub fn unit_dependency_requirements(
    plan: &crate::model::Plan,
    dependency_keys: &Vec<String>,
    unit: &crate::model::Unit,
) -> (r: Vec<(String, DependencyPhase)>)
    ensures
        r@.map_values(|p: (String, DependencyPhase)| (p.0@, p.1)) == spec_unit_dependency_requirements(
            plan.packages@,
            strings_view(dependency_keys@),
            *unit,
        ),
{
    let names = dependency_name_pairs(&plan.packages, dependency_keys);
    let ghost nv = names@.map_values(|p: (String, String)| (p.0@, p.1@));
    let externs = command_extern_artifacts(&unit.command);
    let ghost ev = externs@.map_values(|p: (String, String)| (p.0@, p.1@));
    let mut r: Vec<(String, DependencyPhase)> = Vec::new();
    let mut k: usize = 0;
    while k < externs.len()
        invariant
            k <= externs@.len(),
            nv == names@.map_values(|p: (String, String)| (p.0@, p.1@)),
            ev == externs@.map_values(|p: (String, String)| (p.0@, p.1@)),
            r@.map_values(|p: (String, DependencyPhase)| (p.0@, p.1)) == externs_requirements(nv, ev.take(k as int)),
        decreases externs@.len() - k,
    {
        proof {
            assert(ev.take(k + 1).drop_last() =~= ev.take(k as int));
            assert(ev.take(k + 1).last() == (externs@[k as int].0@, externs@[k as int].1@));
        }
        let crate_name = &externs[k].0;
        let artifact_path = &externs[k].1;
        let ghost before = r@.map_values(|p: (String, DependencyPhase)| (p.0@, p.1));
        if artifact_path.as_str().unicode_len() == 0 {
            proof {
                assert(artifact_path@.len() == 0);
                assert(r@.map_values(|p: (String, DependencyPhase)| (p.0@, p.1)) =~= externs_requirements(nv, ev.take(k + 1)));
            }
        } else {
            let mut candidates: Vec<String> = Vec::new();
            if crate_name.as_str().unicode_len() > 0 {
                candidates.push(normalize_crate_name(crate_name.as_str()));
            }
            let ghost first = if crate_name@.len() > 0 {
                seq![replace_char(crate_name@, '-', "_"@)]
            } else {
                Seq::<Seq<char>>::empty()
            };
            assert(strings_view(candidates@) =~= first);
            match artifact_crate_stem(artifact_path.as_str()) {
                Some(stem) => {
                    let normalized = normalize_crate_name(stem.as_str());
                    if !strings_contain(&candidates, normalized.as_str()) {
                        candidates.push(normalized);
                        assert(strings_view(candidates@) =~= first.push(normalized@));
                    }
                },
                None => {},
            }
            proof {
                assert(strings_view(candidates@) =~= candidate_names(crate_name@, artifact_path@));
            }
            if candidates.len() == 0 {
                proof {
                    assert(r@.map_values(|p: (String, DependencyPhase)| (p.0@, p.1)) =~= externs_requirements(nv, ev.take(k + 1)));
                }
            } else {
                let phase = dependency_phase_for_artifact(artifact_path.as_str());
                let ghost cands = strings_view(candidates@);
                let mut t: usize = 0;
                while t < names.len()
                    invariant
                        t <= names@.len(),
                        nv == names@.map_values(|p: (String, String)| (p.0@, p.1@)),
                        cands == strings_view(candidates@),
                        r@.map_values(|p: (String, DependencyPhase)| (p.0@, p.1)) == before + matching_dependencies(
                            nv.take(t as int),
                            cands,
                            phase,
                        ),
                    decreases names@.len() - t,
                {
                    proof {
                        assert(nv.take(t + 1).drop_last() =~= nv.take(t as int));
                        assert(nv.take(t + 1).last() == (names@[t as int].0@, names@[t as int].1@));
                    }
                    let ghost mid = r@.map_values(|p: (String, DependencyPhase)| (p.0@, p.1));
                    if strings_contain(&candidates, names[t].1.as_str()) {
                        r.push((names[t].0.clone(), phase));
                        proof {
                            assert(r@.map_values(|p: (String, DependencyPhase)| (p.0@, p.1)) =~= mid.push(
                                (names@[t as int].0@, phase),
                            ));
                        }
                    }
                    t = t + 1;
                }
                proof {
                    assert(nv.take(t as int) =~= nv);
                    assert(r@.map_values(|p: (String, DependencyPhase)| (p.0@, p.1)) =~= externs_requirements(nv, ev.take(k + 1)));
                }
            }
        }
        k = k + 1;
    }
    proof {
        assert(ev.take(k as int) =~= ev);
    }
    r
}

/// What the units need of the dependencies, unit by unit, in order.
pub open spec fn units_requirements(
    packages: Seq<crate::model::PlanPackage>,
    dependency_keys: Seq<Seq<char>>,
    units: Seq<crate::model::Unit>,
) -> Seq<(Seq<char>, DependencyPhase)>
    decreases units.len(),
{
    if units.len() == 0 {
        Seq::empty()
    } else {
        units_requirements(packages, dependency_keys, units.drop_last())
            + spec_unit_dependency_requirements(packages, dependency_keys, units.last())
    }
}

/// The phase that a list of needs asks of dependency `key`: `Full` if some
/// need is `Full`, else `Metadata`; none when no need names `key`.
pub open spec fn required_phase(reqs: Seq<(Seq<char>, DependencyPhase)>, key: Seq<char>) -> Option<
    DependencyPhase,
> {
    if exists|i: int| 0 <= i < reqs.len() && (#[trigger] reqs[i]).0 == key {
        if exists|i: int|
            0 <= i < reqs.len() && (#[trigger] reqs[i]).0 == key && reqs[i].1
                == DependencyPhase::Full {
            Some(DependencyPhase::Full)
        } else {
            Some(DependencyPhase::Metadata)
        }
    } else {
        None
    }
}

proof fn lemma_required_phase_push(
    reqs: Seq<(Seq<char>, DependencyPhase)>,
    key: Seq<char>,
    phase: DependencyPhase,
    k: Seq<char>,
)
    ensures
        required_phase(reqs.push((key, phase)), k) == if k != key {
            required_phase(reqs, k)
        } else {
            match required_phase(reqs, k) {
                Some(cur) => Some(spec_stronger_phase(cur, phase)),
                None => Some(phase),
            }
        },
{
    let n = reqs.push((key, phase));
    assert forall|i: int| 0 <= i < reqs.len() implies n[i] == reqs[i] by {}
    assert(n[reqs.len() as int] == (key, phase));
    if exists|i: int| 0 <= i < reqs.len() && (#[trigger] reqs[i]).0 == k {
        let i = choose|i: int| 0 <= i < reqs.len() && (#[trigger] reqs[i]).0 == k;
        assert(n[i].0 == k);
    }
    if exists|i: int| 0 <= i < reqs.len() && (#[trigger] reqs[i]).0 == k && reqs[i].1 == DependencyPhase::Full {
        let i = choose|i: int| 0 <= i < reqs.len() && (#[trigger] reqs[i]).0 == k && reqs[i].1 == DependencyPhase::Full;
        assert(n[i].0 == k);
    }
    if exists|i: int| 0 <= i < n.len() && (#[trigger] n[i]).0 == k && k != key {
        let i = choose|i: int| 0 <= i < n.len() && (#[trigger] n[i]).0 == k;
        assert(i < reqs.len());
        assert(reqs[i].0 == k);
    }
    if exists|i: int| 0 <= i < n.len() && (#[trigger] n[i]).0 == k && n[i].1 == DependencyPhase::Full {
        let i = choose|i: int| 0 <= i < n.len() && (#[trigger] n[i]).0 == k && n[i].1 == DependencyPhase::Full;
        if i < reqs.len() {
            assert(reqs[i].0 == k && reqs[i].1 == DependencyPhase::Full);
        }
    }
}

/// The first package with a dependency's key gives that dependency its
/// crate name, with `-` made `_`.
proof fn lemma_dependency_names_has(
    packages: Seq<crate::model::PlanPackage>,
    keys: Seq<Seq<char>>,
    t: int,
    i: int,
)
    requires
        0 <= t < keys.len(),
        0 <= i < packages.len(),
        packages[i].key@ == keys[t],
        forall|j: int| 0 <= j < i ==> (#[trigger] packages[j]).key@ != keys[t],
    ensures
        dependency_names(packages, keys).contains(
            (keys[t], replace_char(packages[i].name@, '-', "_"@)),
        ),
    decreases keys.len(),
{
    let prev = dependency_names(packages, keys.drop_last());
    let ks = package_key_seq(packages);
    if t == keys.len() - 1 {
        assert forall|j: int| 0 <= j < i implies !equal_to(keys[t])(#[trigger] ks[j]) by {
            assert(ks[j] == packages[j].key@);
        }
        assert(ks[i] == packages[i].key@);
        lemma_first_match_at(ks, equal_to(keys[t]), i);
        let cur = prev.push((keys[t], replace_char(packages[i].name@, '-', "_"@)));
        assert(cur[prev.len() as int] == (keys[t], replace_char(packages[i].name@, '-', "_"@)));
    } else {
        lemma_dependency_names_has(packages, keys.drop_last(), t, i);
        let e = (keys[t], replace_char(packages[i].name@, '-', "_"@));
        let k = choose|k: int| 0 <= k < prev.len() && prev[k] == e;
        match first_match(ks, equal_to(keys.last())) {
            Some(m) => {
                let cur = prev.push((keys.last(), replace_char(packages[m].name@, '-', "_"@)));
                assert(cur[k] == e);
            },
            None => {},
        }
    }
}

/// A dependency whose crate name is a candidate is matched, in the phase
/// given.
proof fn lemma_matching_dependencies_has(
    names: Seq<(Seq<char>, Seq<char>)>,
    candidates: Seq<Seq<char>>,
    phase: DependencyPhase,
    key: Seq<char>,
    name: Seq<char>,
)
    requires
        names.contains((key, name)),
        candidates.contains(name),
    ensures
        matching_dependencies(names, candidates, phase).contains((key, phase)),
    decreases names.len(),
{
    let prev = matching_dependencies(names.drop_last(), candidates, phase);
    let k = choose|k: int| 0 <= k < names.len() && names[k] == (key, name);
    if k == names.len() - 1 {
        let cur = prev.push((names.last().0, phase));
        assert(cur[prev.len() as int] == (key, phase));
    } else {
        assert(names.drop_last()[k] == (key, name));
        lemma_matching_dependencies_has(names.drop_last(), candidates, phase, key, name);
        let j = choose|j: int| 0 <= j < prev.len() && prev[j] == (key, phase);
        if candidates.contains(names.last().1) {
            assert(prev.push((names.last().0, phase))[j] == (key, phase));
        }
    }
}

/// The needs of every `--extern` are among those of the list.
proof fn lemma_externs_requirements_has(
    names: Seq<(Seq<char>, Seq<char>)>,
    externs: Seq<(Seq<char>, Seq<char>)>,
    x: int,
    e: (Seq<char>, DependencyPhase),
)
    requires
        0 <= x < externs.len(),
        extern_requirements(names, externs[x].0, externs[x].1).contains(e),
    ensures
        externs_requirements(names, externs).contains(e),
    decreases externs.len(),
{
    let prev = externs_requirements(names, externs.drop_last());
    let last = extern_requirements(names, externs.last().0, externs.last().1);
    if x == externs.len() - 1 {
        let k = choose|k: int| 0 <= k < last.len() && last[k] == e;
        assert((prev + last)[prev.len() + k] == e);
    } else {
        assert(externs.drop_last()[x] == externs[x]);
        lemma_externs_requirements_has(names, externs.drop_last(), x, e);
        let k = choose|k: int| 0 <= k < prev.len() && prev[k] == e;
        assert((prev + last)[k] == e);
    }
}

/// The needs of every unit are among those of the units.
proof fn lemma_units_requirements_has(
    packages: Seq<crate::model::PlanPackage>,
    dependency_keys: Seq<Seq<char>>,
    units: Seq<crate::model::Unit>,
    u: int,
    e: (Seq<char>, DependencyPhase),
)
    requires
        0 <= u < units.len(),
        spec_unit_dependency_requirements(packages, dependency_keys, units[u]).contains(e),
    ensures
        units_requirements(packages, dependency_keys, units).contains(e),
    decreases units.len(),
{
    let prev = units_requirements(packages, dependency_keys, units.drop_last());
    let last = spec_unit_dependency_requirements(packages, dependency_keys, units.last());
    if u == units.len() - 1 {
        let k = choose|k: int| 0 <= k < last.len() && last[k] == e;
        assert((prev + last)[prev.len() + k] == e);
    } else {
        assert(units.drop_last()[u] == units[u]);
        lemma_units_requirements_has(packages, dependency_keys, units.drop_last(), u, e);
        let k = choose|k: int| 0 <= k < prev.len() && prev[k] == e;
        assert((prev + last)[k] == e);
    }
}

/// A dependency named by a unit's `--extern` is a requirement of the units,
/// in at least the phase that the extern's artifact needs. The names matched
/// against the extern are the dependencies' package names with each `-`
/// made `_` (taken from the first package with the dependency's key), so a
/// package named `proc-macro2` matches `--extern proc_macro2=...`.
pub proof fn lemma_extern_makes_requirement(
    packages: Seq<crate::model::PlanPackage>,
    dependency_keys: Seq<Seq<char>>,
    units: Seq<crate::model::Unit>,
    u: int,
    x: int,
    t: int,
    i: int,
)
    requires
        0 <= u < units.len(),
        0 <= x < extern_specs_from(strings_view(units[u].command.args@), 0).len(),
        extern_specs_from(strings_view(units[u].command.args@), 0)[x].0.len() > 0,
        extern_specs_from(strings_view(units[u].command.args@), 0)[x].1.len() > 0,
        0 <= t < dependency_keys.len(),
        0 <= i < packages.len(),
        packages[i].key@ == dependency_keys[t],
        forall|j: int| 0 <= j < i ==> (#[trigger] packages[j]).key@ != dependency_keys[t],
        replace_char(packages[i].name@, '-', "_"@) == replace_char(
            extern_specs_from(strings_view(units[u].command.args@), 0)[x].0,
            '-',
            "_"@,
        ),
    ensures
        required_phase(units_requirements(packages, dependency_keys, units), dependency_keys[t]) is Some,
        spec_dependency_phase_for_artifact(
            extern_specs_from(strings_view(units[u].command.args@), 0)[x].1,
        ) == DependencyPhase::Full ==> required_phase(
            units_requirements(packages, dependency_keys, units),
            dependency_keys[t],
        ) == Some(DependencyPhase::Full),
{
    let externs = extern_specs_from(strings_view(units[u].command.args@), 0);
    let (crate_name, path) = externs[x];
    let names = dependency_names(packages, dependency_keys);
    let name = replace_char(packages[i].name@, '-', "_"@);
    let key = dependency_keys[t];
    let phase = spec_dependency_phase_for_artifact(path);
    lemma_dependency_names_has(packages, dependency_keys, t, i);
    let cands = candidate_names(crate_name, path);
    assert(cands.contains(name)) by {
        let first = seq![replace_char(crate_name, '-', "_"@)];
        assert(first[0] == name);
        match spec_artifact_crate_stem(path) {
            Some(stem) => {
                let n = replace_char(stem, '-', "_"@);
                if !first.contains(n) {
                    assert(first.push(n)[0] == name);
                }
            },
            None => {},
        }
    }
    lemma_matching_dependencies_has(names, cands, phase, key, name);
    let e = (key, phase);
    assert(extern_requirements(names, crate_name, path).contains(e));
    lemma_externs_requirements_has(names, externs, x, e);
    lemma_units_requirements_has(packages, dependency_keys, units, u, e);
    let reqs = units_requirements(packages, dependency_keys, units);
    let k = choose|k: int| 0 <= k < reqs.len() && reqs[k] == e;
    assert(reqs[k].0 == key);
}

/// The phase of each dependency that the units need, over all their
/// `--extern`s: `Full` where some unit needs the full build.
pub fn dependency_phase_requirements(
    plan: &crate::model::Plan,
    package: &crate::model::PlanPackage,
    units: &Vec<crate::model::Unit>,
) -> (r: crate::sorted::SortedMap<DependencyPhase>)
    ensures
        forall|k: Seq<char>|
            #[trigger] r@.contains_key(k) <==> required_phase(
                units_requirements(plan.packages@, strings_view(package.dependencies@), units@),
                k,
            ) is Some,
        forall|k: Seq<char>|
            #[trigger] r@.contains_key(k) ==> Some(r@[k]) == required_phase(
                units_requirements(plan.packages@, strings_view(package.dependencies@), units@),
                k,
            ),
{
    let dependency_keys = crate::nix_tool::clone_strings(&package.dependencies);
    let ghost keys = strings_view(package.dependencies@);
    let mut r: crate::sorted::SortedMap<DependencyPhase> = crate::sorted::SortedMap::new();
    let mut u: usize = 0;
    while u < units.len()
        invariant
            u <= units@.len(),
            keys == strings_view(package.dependencies@),
            strings_view(dependency_keys@) == keys,
            forall|k: Seq<char>|
                #[trigger] r@.contains_key(k) <==> required_phase(
                    units_requirements(plan.packages@, keys, units@.take(u as int)),
                    k,
                ) is Some,
            forall|k: Seq<char>|
                #[trigger] r@.contains_key(k) ==> Some(r@[k]) == required_phase(
                    units_requirements(plan.packages@, keys, units@.take(u as int)),
                    k,
                ),
        decreases units@.len() - u,
    {
        let reqs = unit_dependency_requirements(plan, &dependency_keys, &units[u]);
        let ghost rv = reqs@.map_values(|p: (String, DependencyPhase)| (p.0@, p.1));
        let ghost base = units_requirements(plan.packages@, keys, units@.take(u as int));
        proof {
            assert(units@.take(u + 1).drop_last() =~= units@.take(u as int));
            assert(units@.take(u + 1).last() == units@[u as int]);
            assert(units_requirements(plan.packages@, keys, units@.take(u + 1)) == base + rv);
            assert(base + rv.take(0) =~= base);
        }
        let mut t: usize = 0;
        while t < reqs.len()
            invariant
                t <= reqs@.len(),
                rv == reqs@.map_values(|p: (String, DependencyPhase)| (p.0@, p.1)),
                forall|k: Seq<char>|
                    #[trigger] r@.contains_key(k) <==> required_phase(base + rv.take(t as int), k) is Some,
                forall|k: Seq<char>|
                    #[trigger] r@.contains_key(k) ==> Some(r@[k]) == required_phase(base + rv.take(t as int), k),
            decreases reqs@.len() - t,
        {
            let key = &reqs[t].0;
            let phase = reqs[t].1;
            let ghost done = base + rv.take(t as int);
            proof {
                assert(base + rv.take(t + 1) =~= done.push((key@, phase)));
            }
            let ghost old_r = r@;
            let next = match r.get(key.as_str()) {
                Some(cur) => stronger_phase(*cur, phase),
                None => phase,
            };
            r.insert(key.clone(), next);
            proof {
                assert forall|k: Seq<char>| #[trigger] r@.contains_key(k) <==> required_phase(done.push((key@, phase)), k) is Some by {
                    lemma_required_phase_push(done, key@, phase, k);
                }
                assert forall|k: Seq<char>| #[trigger] r@.contains_key(k) implies Some(r@[k]) == required_phase(done.push((key@, phase)), k) by {
                    lemma_required_phase_push(done, key@, phase, k);
                }
            }
            t = t + 1;
        }
        proof {
            assert(rv.take(t as int) =~= rv);
        }
        u = u + 1;
    }
    proof {
        assert(units@.take(u as int) =~= units@);
    }
    r
}

/// The two phases of a package: the metadata phase (build scripts and
/// library compilations that stop after metadata) when some unit compiles a
/// library that emits metadata, and the full phase (all units), each with
/// what it needs of the dependencies.
#[derive(Debug)]
pub struct PackagePhasePlan {
    pub metadata_units: Vec<crate::model::Unit>,
    pub metadata_dependencies: crate::sorted::SortedMap<DependencyPhase>,
    pub full_units: Vec<crate::model::Unit>,
    pub full_dependencies: crate::sorted::SortedMap<DependencyPhase>,
}

impl PackagePhasePlan {
    /// Whether the package has a metadata phase.
    pub fn has_metadata_phase(&self) -> (r: bool)
        ensures
            r == (self.metadata_units@.len() > 0),
    {
        self.metadata_units.len() > 0
    }
}

/// A unit that runs in the metadata phase: a build script's compilation or
/// a library compilation that emits metadata.
pub open spec fn in_metadata_phase(unit: crate::model::Unit) -> bool {
    spec_is_build_script_compile_unit(unit) || spec_is_metadata_phase_unit(unit)
}

/// The indices of the units that run in the metadata phase, in order.
pub open spec fn metadata_selection(units: Seq<crate::model::Unit>) -> Seq<int>
    decreases units.len(),
{
    if units.len() == 0 {
        Seq::empty()
    } else if in_metadata_phase(units.last()) {
        metadata_selection(units.drop_last()).push(units.len() - 1)
    } else {
        metadata_selection(units.drop_last())
    }
}

/// `metadata_units` are the units that run in the metadata phase, rewritten
/// for it, when some unit compiles a library that emits metadata; else none.
pub open spec fn is_metadata_units(
    metadata_units: Seq<crate::model::Unit>,
    units: Seq<crate::model::Unit>,
) -> bool {
    if exists|i: int| 0 <= i < units.len() && #[trigger] spec_is_metadata_phase_unit(units[i]) {
        &&& metadata_units.len() == metadata_selection(units).len()
        &&& forall|k: int|
            0 <= k < metadata_units.len() ==> is_metadata_phase_rewrite(
                #[trigger] metadata_units[k],
                units[metadata_selection(units)[k]],
            )
    } else {
        metadata_units.len() == 0
    }
}

proof fn lemma_metadata_selection_bounds(units: Seq<crate::model::Unit>)
    ensures
        forall|k: int|
            0 <= k < metadata_selection(units).len() ==> 0 <= #[trigger] metadata_selection(units)[k]
                < units.len(),
    decreases units.len(),
{
    if units.len() > 0 {
        let prev = metadata_selection(units.drop_last());
        lemma_metadata_selection_bounds(units.drop_last());
        let cur = metadata_selection(units);
        assert forall|k: int| 0 <= k < cur.len() implies 0 <= #[trigger] cur[k] < units.len() by {
            if k < prev.len() {
                assert(cur[k] == prev[k]);
            }
        }
    }
}

/// The selection picks, in increasing order, exactly the indices of the
/// units that run in the metadata phase.
proof fn lemma_metadata_selection_facts(units: Seq<crate::model::Unit>)
    ensures
        forall|k: int|
            0 <= k < metadata_selection(units).len() ==> 0 <= #[trigger] metadata_selection(units)[k]
                < units.len() && in_metadata_phase(units[metadata_selection(units)[k]]),
        forall|k1: int, k2: int|
            0 <= k1 < k2 < metadata_selection(units).len() ==> #[trigger] metadata_selection(units)[k1]
                < #[trigger] metadata_selection(units)[k2],
        forall|j: int|
            0 <= j < units.len() && #[trigger] in_metadata_phase(units[j]) ==> exists|k: int|
                0 <= k < metadata_selection(units).len() && #[trigger] metadata_selection(units)[k]
                    == j,
    decreases units.len(),
{
    if units.len() > 0 {
        let rest = units.drop_last();
        let prev = metadata_selection(rest);
        lemma_metadata_selection_facts(rest);
        let cur = metadata_selection(units);
        let last = units.len() - 1;
        assert forall|k: int| 0 <= k < cur.len() implies 0 <= #[trigger] cur[k] < units.len()
            && in_metadata_phase(units[cur[k]]) by {
            if k < prev.len() {
                assert(cur[k] == prev[k]);
                assert(units[prev[k]] == rest[prev[k]]);
            }
        }
        assert forall|k1: int, k2: int| 0 <= k1 < k2 < cur.len() implies #[trigger] cur[k1]
            < #[trigger] cur[k2] by {
            assert(cur[k1] == prev[k1]);
            if k2 < prev.len() {
                assert(cur[k2] == prev[k2]);
            }
        }
        assert forall|j: int| 0 <= j < units.len() && #[trigger] in_metadata_phase(units[j]) implies exists|k: int|
            0 <= k < cur.len() && #[trigger] cur[k] == j by {
            if j < last {
                assert(units[j] == rest[j]);
                assert(in_metadata_phase(rest[j]));
                let k = choose|k: int| 0 <= k < prev.len() && #[trigger] prev[k] == j;
                assert(cur[k] == prev[k]);
            } else {
                assert(cur[prev.len() as int] == last);
            }
        }
    }
}

/// When a package has a metadata phase, its metadata units are the rewritten
/// copies, in their original order, of exactly these units: every build
/// script's compilation (a `build-script` or `custom-build` target in `Build`
/// mode) and every library compilation that emits metadata.
pub proof fn lemma_metadata_units_keep_build_scripts(
    metadata_units: Seq<crate::model::Unit>,
    units: Seq<crate::model::Unit>,
)
    requires
        is_metadata_units(metadata_units, units),
        exists|i: int| 0 <= i < units.len() && #[trigger] spec_is_metadata_phase_unit(units[i]),
    ensures
        exists|sel: Seq<int>|
            {
                &&& sel.len() == metadata_units.len()
                &&& forall|k: int|
                    0 <= k < sel.len() ==> 0 <= #[trigger] sel[k] < units.len()
                        && is_metadata_phase_rewrite(metadata_units[k], units[sel[k]])
                        && (((units[sel[k]].target_kind@ == "build-script"@
                        || units[sel[k]].target_kind@ == "custom-build"@)
                        && units[sel[k]].compile_mode@ == "Build"@)
                        || spec_is_metadata_phase_unit(units[sel[k]]))
                &&& forall|k1: int, k2: int|
                    0 <= k1 < k2 < sel.len() ==> #[trigger] sel[k1] < #[trigger] sel[k2]
                &&& forall|j: int|
                    0 <= j < units.len() && (units[j].target_kind@ == "build-script"@
                        || units[j].target_kind@ == "custom-build"@) && #[trigger] units[j].compile_mode@
                        == "Build"@ ==> exists|k: int| 0 <= k < sel.len() && #[trigger] sel[k] == j
                &&& forall|j: int|
                    0 <= j < units.len() && #[trigger] spec_is_metadata_phase_unit(units[j])
                        ==> exists|k: int| 0 <= k < sel.len() && #[trigger] sel[k] == j
            },
{
    let sel = metadata_selection(units);
    lemma_metadata_selection_facts(units);
    assert forall|j: int|
        0 <= j < units.len() && (units[j].target_kind@ == "build-script"@
            || units[j].target_kind@ == "custom-build"@) && #[trigger] units[j].compile_mode@
            == "Build"@ implies exists|k: int| 0 <= k < sel.len() && #[trigger] sel[k] == j by {
        assert(in_metadata_phase(units[j]));
    }
    assert forall|j: int|
        0 <= j < units.len() && #[trigger] spec_is_metadata_phase_unit(units[j]) implies exists|k: int|
            0 <= k < sel.len() && #[trigger] sel[k] == j by {
        assert(in_metadata_phase(units[j]));
    }
}

/// Copies of the units.
fn clone_units(units: &Vec<crate::model::Unit>) -> (r: Vec<crate::model::Unit>)
    ensures
        crate::model::same_units(r@, units@),
{
    let mut r: Vec<crate::model::Unit> = Vec::new();
    let mut i: usize = 0;
    while i < units.len()
        invariant
            i <= units@.len(),
            r@.len() == i,
            forall|j: int| 0 <= j < i ==> #[trigger] crate::model::same_unit(r@[j], units@[j]),
        decreases units@.len() - i,
    {
        r.push(units[i].clone());
        i = i + 1;
    }
    r
}

/// The phases of a package and what each needs of its dependencies.
pub fn build_package_phase_plan(
    plan: &crate::model::Plan,
    package: &crate::model::PlanPackage,
    units: &Vec<crate::model::Unit>,
) -> (r: PackagePhasePlan)
    ensures
        is_metadata_units(r.metadata_units@, units@),
        crate::model::same_units(r.full_units@, units@),
        forall|k: Seq<char>|
            #[trigger] r.metadata_dependencies@.contains_key(k) <==> required_phase(
                units_requirements(plan.packages@, strings_view(package.dependencies@), r.metadata_units@),
                k,
            ) is Some,
        forall|k: Seq<char>|
            #[trigger] r.metadata_dependencies@.contains_key(k) ==> Some(r.metadata_dependencies@[k])
                == required_phase(
                units_requirements(plan.packages@, strings_view(package.dependencies@), r.metadata_units@),
                k,
            ),
        forall|k: Seq<char>|
            #[trigger] r.full_dependencies@.contains_key(k) <==> required_phase(
                units_requirements(plan.packages@, strings_view(package.dependencies@), r.full_units@),
                k,
            ) is Some,
        forall|k: Seq<char>|
            #[trigger] r.full_dependencies@.contains_key(k) ==> Some(r.full_dependencies@[k])
                == required_phase(
                units_requirements(plan.packages@, strings_view(package.dependencies@), r.full_units@),
                k,
            ),
{
    let mut has_metadata_phase = false;
    let mut i: usize = 0;
    while i < units.len()
        invariant
            i <= units@.len(),
            has_metadata_phase == exists|j: int| 0 <= j < i && #[trigger] spec_is_metadata_phase_unit(units@[j]),
        decreases units@.len() - i,
    {
        if is_metadata_phase_unit(&units[i]) {
            has_metadata_phase = true;
        }
        i = i + 1;
    }
    let mut metadata_units: Vec<crate::model::Unit> = Vec::new();
    if has_metadata_phase {
        let mut i: usize = 0;
        while i < units.len()
            invariant
                i <= units@.len(),
                metadata_units@.len() == metadata_selection(units@.take(i as int)).len(),
                forall|k: int|
                    0 <= k < metadata_units@.len() ==> is_metadata_phase_rewrite(
                        #[trigger] metadata_units@[k],
                        units@[metadata_selection(units@.take(i as int))[k]],
                    ),
            decreases units@.len() - i,
        {
            proof {
                assert(units@.take(i + 1).drop_last() =~= units@.take(i as int));
                assert(units@.take(i + 1).last() == units@[i as int]);
                lemma_metadata_selection_bounds(units@.take(i as int));
            }
            if is_build_script_compile_unit(&units[i]) || is_metadata_phase_unit(&units[i]) {
                let copy = units[i].clone();
                let rewritten = rewrite_unit_for_metadata_phase(copy);
                let ghost before = metadata_units@;
                metadata_units.push(rewritten);
                proof {
                    let sel = metadata_selection(units@.take(i + 1));
                    assert(sel == metadata_selection(units@.take(i as int)).push(i as int));
                    assert forall|k: int| 0 <= k < metadata_units@.len() implies is_metadata_phase_rewrite(
                        #[trigger] metadata_units@[k],
                        units@[sel[k]],
                    ) by {
                        if k < before.len() {
                            assert(metadata_units@[k] == before[k]);
                        } else {
                            assert(metadata_units@[k] == rewritten);
                        }
                    }
                }
            }
            i = i + 1;
        }
        proof {
            assert(units@.take(i as int) =~= units@);
        }
    }
    let full_units = clone_units(units);
    let metadata_dependencies = dependency_phase_requirements(plan, package, &metadata_units);
    let full_dependencies = dependency_phase_requirements(plan, package, &full_units);
    PackagePhasePlan { metadata_units, metadata_dependencies, full_units, full_dependencies }
}

/// A dependency that a phase needs has not been materialized in the phase it
/// needs.
#[derive(Debug)]
pub struct MissingDependency {
    pub package_key: String,
    pub phase: DependencyPhase,
}

/// Where a dependency in `phase` comes from: the metadata phase's value when
/// the metadata phase suffices and it exists, else the full phase's value.
pub open spec fn phase_source<T>(
    phase: DependencyPhase,
    key: Seq<char>,
    full: Map<Seq<char>, T>,
    metadata: Map<Seq<char>, T>,
) -> Option<T> {
    if phase == DependencyPhase::Metadata && metadata.contains_key(key) {
        Some(metadata[key])
    } else if full.contains_key(key) {
        Some(full[key])
    } else {
        None
    }
}

/// What is recorded for a dependency is what a later phase finds for it: its
/// full phase when it is needed in full, its metadata phase when metadata
/// suffices and one was recorded, and its full phase when metadata suffices
/// but none was recorded.
pub proof fn lemma_recorded_phase_found<T>(
    key: Seq<char>,
    full: Map<Seq<char>, T>,
    metadata: Map<Seq<char>, T>,
    value: T,
)
    ensures
        phase_source(DependencyPhase::Full, key, full.insert(key, value), metadata) == Some(value),
        phase_source(DependencyPhase::Metadata, key, full, metadata.insert(key, value)) == Some(value),
        !metadata.contains_key(key) ==> phase_source(
            DependencyPhase::Metadata,
            key,
            full.insert(key, value),
            metadata,
        ) == Some(value),
{
}

/// Every requirement has a value.
pub open spec fn all_resolve<T>(
    reqs: Seq<(String, DependencyPhase)>,
    full: Map<Seq<char>, T>,
    metadata: Map<Seq<char>, T>,
) -> bool {
    forall|i: int| 0 <= i < reqs.len() ==> (#[trigger] phase_source(reqs[i].1, reqs[i].0@, full, metadata)) is Some
}

/// `r` is the value of each requirement (in key order), or names the first
/// requirement that has none.
pub open spec fn resolved_in_order<T>(
    r: Result<Seq<T>, (Seq<char>, DependencyPhase)>,
    reqs: Seq<(String, DependencyPhase)>,
    full: Map<Seq<char>, T>,
    metadata: Map<Seq<char>, T>,
) -> bool {
    match r {
        Ok(v) => v.len() == reqs.len() && forall|i: int|
            0 <= i < reqs.len() ==> Some(#[trigger] v[i]) == phase_source(
                reqs[i].1,
                reqs[i].0@,
                full,
                metadata,
            ),
        Err((key, phase)) => exists|i: int|
            0 <= i < reqs.len() && reqs[i].0@ == key && reqs[i].1 == phase && phase_source(
                reqs[i].1,
                reqs[i].0@,
                full,
                metadata,
            ) is None && forall|j: int|
                0 <= j < i ==> (#[trigger] phase_source(reqs[j].1, reqs[j].0@, full, metadata)) is Some,
    }
}

/// The derived paths of the dependencies, in key order, in the phase each is
/// needed in.
pub fn resolve_phase_dependency_refs(
    requirements: &crate::sorted::SortedMap<DependencyPhase>,
    full_refs: &crate::string_map::StringMap<crate::derived_path::SingleDerivedPath>,
    metadata_refs: &crate::string_map::StringMap<crate::derived_path::SingleDerivedPath>,
) -> (r: Result<Vec<crate::derived_path::SingleDerivedPath>, MissingDependency>)
    ensures
        resolved_in_order(
            match r {
                Ok(v) => Ok(v@),
                Err(e) => Err((e.package_key@, e.phase)),
            },
            requirements.entry_seq(),
            full_refs@,
            metadata_refs@,
        ),
{
    let entries = requirements.entries();
    let mut refs: Vec<crate::derived_path::SingleDerivedPath> = Vec::new();
    let mut i: usize = 0;
    while i < entries.len()
        invariant
            i <= entries@.len(),
            entries@ == requirements.entry_seq(),
            refs@.len() == i,
            forall|j: int|
                0 <= j < i ==> Some(#[trigger] refs@[j]) == phase_source(
                    entries@[j].1,
                    entries@[j].0@,
                    full_refs@,
                    metadata_refs@,
                ),
        decreases entries@.len() - i,
    {
        let key = &entries[i].0;
        let phase = entries[i].1;
        let found = match phase {
            DependencyPhase::Metadata => match metadata_refs.get(key.as_str()) {
                Some(v) => Some(v),
                None => full_refs.get(key.as_str()),
            },
            DependencyPhase::Full => full_refs.get(key.as_str()),
        };
        match found {
            Some(v) => {
                refs.push(v.clone());
            },
            None => {
                proof {
                    assert(phase_source(entries@[i as int].1, entries@[i as int].0@, full_refs@, metadata_refs@) is None);
                    assert forall|j: int| 0 <= j < i implies (#[trigger] phase_source(entries@[j].1, entries@[j].0@, full_refs@, metadata_refs@)) is Some by {
                        assert(Some(refs@[j]) == phase_source(entries@[j].1, entries@[j].0@, full_refs@, metadata_refs@));
                    }
                }
                let e = MissingDependency { package_key: key.clone(), phase };
                assert(e.package_key@ == entries@[i as int].0@);
                return Err(e);
            },
        }
        i = i + 1;
    }
    Ok(refs)
}

/// The output paths of the dependencies, in key order, in the phase each is
/// needed in.
pub fn resolve_phase_dependency_output_paths(
    requirements: &crate::sorted::SortedMap<DependencyPhase>,
    full_output_paths: &crate::string_map::StringMap<String>,
    metadata_output_paths: &crate::string_map::StringMap<String>,
) -> (r: Result<Vec<String>, MissingDependency>)
    ensures
        resolved_in_order(
            match r {
                Ok(v) => Ok(v@),
                Err(e) => Err((e.package_key@, e.phase)),
            },
            requirements.entry_seq(),
            full_output_paths@,
            metadata_output_paths@,
        ),
{
    let entries = requirements.entries();
    let mut paths: Vec<String> = Vec::new();
    let mut i: usize = 0;
    while i < entries.len()
        invariant
            i <= entries@.len(),
            entries@ == requirements.entry_seq(),
            paths@.len() == i,
            forall|j: int|
                0 <= j < i ==> Some(#[trigger] paths@[j]) == phase_source(
                    entries@[j].1,
                    entries@[j].0@,
                    full_output_paths@,
                    metadata_output_paths@,
                ),
        decreases entries@.len() - i,
    {
        let key = &entries[i].0;
        let phase = entries[i].1;
        let found = match phase {
            DependencyPhase::Metadata => match metadata_output_paths.get(key.as_str()) {
                Some(v) => Some(v),
                None => full_output_paths.get(key.as_str()),
            },
            DependencyPhase::Full => full_output_paths.get(key.as_str()),
        };
        match found {
            Some(v) => {
                paths.push(v.clone());
            },
            None => {
                proof {
                    assert(phase_source(entries@[i as int].1, entries@[i as int].0@, full_output_paths@, metadata_output_paths@) is None);
                    assert forall|j: int| 0 <= j < i implies (#[trigger] phase_source(entries@[j].1, entries@[j].0@, full_output_paths@, metadata_output_paths@)) is Some by {
                        assert(Some(paths@[j]) == phase_source(entries@[j].1, entries@[j].0@, full_output_paths@, metadata_output_paths@));
                    }
                }
                let e = MissingDependency { package_key: key.clone(), phase };
                assert(e.package_key@ == entries@[i as int].0@);
                return Err(e);
            },
        }
        i = i + 1;
    }
    Ok(paths)
}

/// How a character appears in a derivation name: ASCII letters, digits,
/// `-`, `_` and `.` as they are, anything else as `-`.
pub open spec fn sanitize_char(c: char) -> char {
    if ('a' <= c && c <= 'z') || ('A' <= c && c <= 'Z') || ('0' <= c && c <= '9') || c == '-' || c
        == '_' || c == '.' {
        c
    } else {
        '-'
    }
}

/// `s` with each run of `-` shortened to one `-`.
pub open spec fn collapse_dashes(s: Seq<char>) -> Seq<char>
    decreases s.len(),
{
    if s.len() == 0 {
        Seq::empty()
    } else {
        let p = collapse_dashes(s.drop_last());
        if s.last() == '-' && p.len() > 0 && p.last() == '-' {
            p
        } else {
            p.push(s.last())
        }
    }
}

/// `s` without leading `c`s.
pub open spec fn trim_start_char(s: Seq<char>, c: char) -> Seq<char>
    decreases s.len(),
{
    if s.len() > 0 && s[0] == c {
        trim_start_char(s.drop_first(), c)
    } else {
        s
    }
}

/// A value made fit for a derivation name: other characters become `-`,
/// runs of `-` become one, and leading and trailing `-` are dropped.
pub open spec fn spec_sanitize_derivation_component(value: Seq<char>) -> Seq<char> {
    trim_end_char(
        trim_start_char(collapse_dashes(value.map_values(|c: char| sanitize_char(c))), '-'),
        '-',
    )
}

/// A character that may appear in a derivation name component.
pub open spec fn is_name_char(c: char) -> bool {
    ('a' <= c && c <= 'z') || ('A' <= c && c <= 'Z') || ('0' <= c && c <= '9') || c == '-' || c
        == '_' || c == '.'
}

/// `s` has only name characters and no two `-` in a row.
pub open spec fn clean_dashes(s: Seq<char>) -> bool {
    &&& forall|i: int| 0 <= i < s.len() ==> is_name_char(#[trigger] s[i])
    &&& forall|i: int| 0 <= i < s.len() - 1 ==> !(#[trigger] s[i] == '-' && s[i + 1] == '-')
}

proof fn lemma_collapse_clean(s: Seq<char>)
    requires
        forall|i: int| 0 <= i < s.len() ==> is_name_char(#[trigger] s[i]),
    ensures
        clean_dashes(collapse_dashes(s)),
    decreases s.len(),
{
    if s.len() > 0 {
        let t = s.drop_last();
        assert forall|i: int| 0 <= i < t.len() implies is_name_char(#[trigger] t[i]) by {
            assert(t[i] == s[i]);
        }
        lemma_collapse_clean(t);
        let p = collapse_dashes(t);
        assert(is_name_char(s[s.len() - 1]));
        if !(s.last() == '-' && p.len() > 0 && p.last() == '-') {
            let q = p.push(s.last());
            assert forall|i: int| 0 <= i < q.len() implies is_name_char(#[trigger] q[i]) by {
                if i < p.len() {
                    assert(q[i] == p[i]);
                }
            }
            assert forall|i: int| 0 <= i < q.len() - 1 implies !(#[trigger] q[i] == '-' && q[i + 1] == '-') by {
                if i < p.len() - 1 {
                    assert(q[i] == p[i] && q[i + 1] == p[i + 1]);
                } else {
                    assert(q[i] == p.last());
                }
            }
        }
    }
}

proof fn lemma_trim_start_skip(s: Seq<char>, c: char) -> (k: int)
    ensures
        0 <= k <= s.len(),
        trim_start_char(s, c) == s.skip(k),
        k < s.len() ==> s[k] != c,
    decreases s.len(),
{
    if s.len() > 0 && s[0] == c {
        let t = s.drop_first();
        let k = lemma_trim_start_skip(t, c);
        assert(t.skip(k) =~= s.skip(k + 1));
        if k + 1 < s.len() {
            assert(t[k] == s[k + 1]);
        }
        k + 1
    } else {
        assert(s.skip(0) =~= s);
        0
    }
}

proof fn lemma_trim_end_take(s: Seq<char>, c: char) -> (k: int)
    ensures
        0 <= k <= s.len(),
        trim_end_char(s, c) == s.take(k),
        k > 0 ==> s[k - 1] != c,
    decreases s.len(),
{
    if s.len() > 0 && s.last() == c {
        let t = s.drop_last();
        let k = lemma_trim_end_take(t, c);
        assert(t.take(k) =~= s.take(k));
        if k > 0 {
            assert(t[k - 1] == s[k - 1]);
        }
        k
    } else {
        assert(s.take(s.len() as int) =~= s);
        if s.len() > 0 {
            assert(s.last() == s[s.len() - 1]);
        }
        s.len() as int
    }
}

/// A sanitized component has only name characters, no two `-` in a row,
/// and neither starts nor ends with `-`.
pub proof fn lemma_sanitized_component(value: Seq<char>)
    ensures
        clean_dashes(spec_sanitize_derivation_component(value)),
        spec_sanitize_derivation_component(value).len() > 0 ==> spec_sanitize_derivation_component(
            value,
        )[0] != '-' && spec_sanitize_derivation_component(value).last() != '-',
{
    let mapped = value.map_values(|c: char| sanitize_char(c));
    assert forall|i: int| 0 <= i < mapped.len() implies is_name_char(#[trigger] mapped[i]) by {}
    lemma_collapse_clean(mapped);
    let col = collapse_dashes(mapped);
    let k1 = lemma_trim_start_skip(col, '-');
    let st = col.skip(k1);
    assert(clean_dashes(st)) by {
        assert forall|i: int| 0 <= i < st.len() implies is_name_char(#[trigger] st[i]) by {
            assert(st[i] == col[k1 + i]);
        }
        assert forall|i: int| 0 <= i < st.len() - 1 implies !(#[trigger] st[i] == '-' && st[i + 1] == '-') by {
            assert(st[i] == col[k1 + i] && st[i + 1] == col[k1 + i + 1]);
        }
    }
    let k2 = lemma_trim_end_take(st, '-');
    let r = st.take(k2);
    assert(r == spec_sanitize_derivation_component(value));
    assert(clean_dashes(r)) by {
        assert forall|i: int| 0 <= i < r.len() implies is_name_char(#[trigger] r[i]) by {
            assert(r[i] == st[i]);
        }
        assert forall|i: int| 0 <= i < r.len() - 1 implies !(#[trigger] r[i] == '-' && r[i + 1] == '-') by {
            assert(r[i] == st[i] && r[i + 1] == st[i + 1]);
        }
    }
    if r.len() > 0 {
        assert(r[0] == st[0] && st[0] == col[k1]);
        assert(r.last() == st[k2 - 1]);
    }
}

/// A value made fit for a derivation name.
pub fn sanitize_derivation_component(value: &str) -> (r: String)
    ensures
        r@ == spec_sanitize_derivation_component(value@),
{
    let v = chars_of(value);
    let ghost mapped = value@.map_values(|c: char| sanitize_char(c));
    let mut out: Vec<char> = Vec::new();
    let mut i: usize = 0;
    while i < v.len()
        invariant
            i <= v@.len(),
            v@ == value@,
            mapped == value@.map_values(|c: char| sanitize_char(c)),
            out@ == collapse_dashes(mapped.take(i as int)),
        decreases v@.len() - i,
    {
        let c = v[i];
        let d = if ('a' <= c && c <= 'z') || ('A' <= c && c <= 'Z') || ('0' <= c && c <= '9') || c
            == '-' || c == '_' || c == '.' {
            c
        } else {
            '-'
        };
        proof {
            assert(mapped.take(i + 1).drop_last() =~= mapped.take(i as int));
            assert(mapped.take(i + 1).last() == d);
        }
        let n = out.len();
        if !(d == '-' && n > 0 && out[n - 1] == '-') {
            out.push(d);
        }
        i = i + 1;
    }
    proof {
        assert(mapped.take(i as int) =~= mapped);
    }
    let mut start: usize = 0;
    proof {
        assert(out@.skip(0) =~= out@);
    }
    while start < out.len() && out[start] == '-'
        invariant
            start <= out@.len(),
            trim_start_char(out@, '-') == trim_start_char(out@.skip(start as int), '-'),
        decreases out@.len() - start,
    {
        proof {
            assert(out@.skip(start as int).drop_first() =~= out@.skip(start + 1));
        }
        start = start + 1;
    }
    let trimmed = chars_range(&out, start, out.len());
    proof {
        assert(trimmed@ =~= out@.skip(start as int));
    }
    let result = crate::text::chars_trim_end(&trimmed, '-');
    string_from_chars(&result)
}

/// The name of a package phase's derivation:
/// `nix-cargo-<sanitized name>-<index>`, with `-<suffix>` for a named phase.
pub open spec fn spec_phase_derivation_name(
    package_name: Seq<char>,
    package_index: nat,
    phase_suffix: Option<Seq<char>>,
) -> Seq<char> {
    "nix-cargo-"@ + spec_sanitize_derivation_component(package_name) + "-"@ + crate::text::decimal(
        package_index,
    ) + match phase_suffix {
        Some(suffix) => "-"@ + suffix,
        None => Seq::empty(),
    }
}

/// The name of a package phase's derivation.
pub fn phase_derivation_name(package_name: &str, package_index: usize, phase_suffix: Option<&str>) -> (r:
    String)
    ensures
        r@ == spec_phase_derivation_name(
            package_name@,
            package_index as nat,
            match phase_suffix {
                Some(s) => Some(s@),
                None => None,
            },
        ),
{
    let mut r = "nix-cargo-".to_string();
    r.append(sanitize_derivation_component(package_name).as_str());
    r.append("-");
    r.append(crate::text::decimal_string(package_index).as_str());
    match phase_suffix {
        Some(suffix) => {
            r.append("-");
            r.append(suffix);
        },
        None => {},
    }
    r
}

/// The store path that an optional reference points to.
pub open spec fn owned_path(p: Option<&crate::store_path::StorePath>) -> Option<crate::store_path::StorePath> {
    match p {
        Some(p) => Some(*p),
        None => None,
    }
}

/// The inputs of a phase derivation, in the order they are added: the
/// package source, the Cargo home snapshot (if any), the dependencies, then
/// the tools.
pub open spec fn phase_input_paths(
    source_store_path: crate::store_path::StorePath,
    cargo_home_snapshot: Option<crate::store_path::StorePath>,
    dependency_refs: Seq<crate::derived_path::SingleDerivedPath>,
    tools: Seq<crate::derived_path::SingleDerivedPath>,
) -> Seq<crate::derived_path::SingleDerivedPath> {
    seq![crate::derived_path::SingleDerivedPath::Opaque(source_store_path)] + match cargo_home_snapshot {
        Some(home) => seq![crate::derived_path::SingleDerivedPath::Opaque(home)],
        None => Seq::empty(),
    } + dependency_refs + tools
}

/// The source and the Cargo home snapshot (if any) of a phase.
pub open spec fn phase_source_paths(
    source_store_path: crate::store_path::StorePath,
    cargo_home_snapshot: Option<crate::store_path::StorePath>,
) -> Set<Seq<char>> {
    match cargo_home_snapshot {
        Some(home) => set![source_store_path@, home@],
        None => set![source_store_path@],
    }
}

/// The input sources that a phase derivation gains are its package source,
/// its Cargo home snapshot when one is given, and the plain store paths among
/// its dependency references; the tools add none.
pub proof fn lemma_phase_input_sources(
    start: crate::derivation::Derivation,
    r: crate::derivation::Derivation,
    toolchain: crate::toolchain::Toolchain,
    source_store_path: crate::store_path::StorePath,
    cargo_home_snapshot: Option<crate::store_path::StorePath>,
    dependency_refs: Seq<crate::derived_path::SingleDerivedPath>,
    tools: Seq<crate::derived_path::SingleDerivedPath>,
)
    requires
        crate::toolchain::are_tool_outputs(tools, toolchain),
        crate::toolchain::derived_paths_added(
            start,
            r,
            phase_input_paths(source_store_path, cargo_home_snapshot, dependency_refs, tools),
        ),
    ensures
        r.inputs.srcs@ == start.inputs.srcs@.union(
            phase_source_paths(source_store_path, cargo_home_snapshot),
        ).union(crate::toolchain::opaque_srcs(dependency_refs)),
{
    let all = phase_input_paths(source_store_path, cargo_home_snapshot, dependency_refs, tools);
    crate::toolchain::lemma_derived_paths_added_srcs(start, r, all);
    let snap: Seq<crate::derived_path::SingleDerivedPath> = match cargo_home_snapshot {
        Some(home) => seq![crate::derived_path::SingleDerivedPath::Opaque(home)],
        None => Seq::empty(),
    };
    let o = 1 + snap.len();
    let n = dependency_refs.len();
    assert(all.len() == o + n + tools.len());
    assert forall|j: int| 0 <= j < n implies #[trigger] all[o + j] == dependency_refs[j] by {}
    assert forall|j: int| 0 <= j < tools.len() implies #[trigger] all[o + n + j] == tools[j] by {}
    assert forall|x: Seq<char>| #[trigger] crate::toolchain::opaque_srcs(all).contains(x) == (
    phase_source_paths(source_store_path, cargo_home_snapshot).contains(x)
        || crate::toolchain::opaque_srcs(dependency_refs).contains(x)) by {
        assert(all[0] == crate::derived_path::SingleDerivedPath::Opaque(source_store_path));
        if crate::toolchain::opaque_srcs(all).contains(x) {
            let i = choose|i: int| 0 <= i < all.len() && #[trigger] crate::toolchain::names_opaque(all[i], x);
            if i >= o + n {
                assert(all[o + n + (i - o - n)] == tools[i - o - n]);
                assert(crate::toolchain::is_out_of(tools[i - o - n], crate::toolchain::tool_seq(toolchain)[i - o - n].drv_path));
            } else if i >= o {
                assert(all[o + (i - o)] == dependency_refs[i - o]);
                assert(crate::toolchain::names_opaque(dependency_refs[i - o], x));
            } else if i == 1 {
                assert(all[1] == snap[0]);
            }
        }
        if phase_source_paths(source_store_path, cargo_home_snapshot).contains(x) {
            if x == source_store_path@ {
                assert(crate::toolchain::names_opaque(all[0], x));
            } else {
                assert(all[1] == snap[0]);
                assert(crate::toolchain::names_opaque(all[1], x));
            }
        }
        if crate::toolchain::opaque_srcs(dependency_refs).contains(x) {
            let j = choose|j: int| 0 <= j < n && #[trigger] crate::toolchain::names_opaque(dependency_refs[j], x);
            assert(crate::toolchain::names_opaque(all[o + j], x));
        }
    }
    assert(r.inputs.srcs@ =~= start.inputs.srcs@.union(
        phase_source_paths(source_store_path, cargo_home_snapshot),
    ).union(crate::toolchain::opaque_srcs(dependency_refs)));
}

/// Adds the inputs of a phase derivation: the package source, the Cargo
/// home snapshot (if any), the dependencies, then the tools.
pub fn add_phase_inputs(
    derivation: &mut crate::derivation::Derivation,
    toolchain: &crate::toolchain::Toolchain,
    source_store_path: &crate::store_path::StorePath,
    cargo_home_snapshot: Option<&crate::store_path::StorePath>,
    dependency_refs: &Vec<crate::derived_path::SingleDerivedPath>,
)
    ensures
        exists|tools: Seq<crate::derived_path::SingleDerivedPath>|
            #[trigger] crate::toolchain::are_tool_outputs(tools, *toolchain)
                && crate::toolchain::derived_paths_added(
                *old(derivation),
                *final(derivation),
                phase_input_paths(
                    *source_store_path,
                    owned_path(cargo_home_snapshot),
                    dependency_refs@,
                    tools,
                ),
            ),
        final(derivation).inputs.srcs@ == old(derivation).inputs.srcs@.union(
            phase_source_paths(*source_store_path, owned_path(cargo_home_snapshot)),
        ).union(crate::toolchain::opaque_srcs(dependency_refs@)),
{
    let ghost start = *derivation;
    let ghost mut added = Seq::<crate::derived_path::SingleDerivedPath>::empty();
    let ghost before = *derivation;
    derivation.add_input_src(source_store_path);
    proof {
        let p = crate::derived_path::SingleDerivedPath::Opaque(*source_store_path);
        crate::toolchain::lemma_derived_paths_added_push(start, before, *derivation, added, p);
        added = added.push(p);
    }
    match cargo_home_snapshot {
        Some(home) => {
            let ghost before = *derivation;
            derivation.add_input_src(home);
            proof {
                let p = crate::derived_path::SingleDerivedPath::Opaque(*home);
                crate::toolchain::lemma_derived_paths_added_push(start, before, *derivation, added, p);
                added = added.push(p);
            }
        },
        None => {},
    }
    let ghost srcs = added;
    let mut k: usize = 0;
    while k < dependency_refs.len()
        invariant
            k <= dependency_refs@.len(),
            added == srcs + dependency_refs@.take(k as int),
            crate::toolchain::derived_paths_added(start, *derivation, added),
        decreases dependency_refs@.len() - k,
    {
        let ghost before = *derivation;
        derivation.add_derived_path(&dependency_refs[k]);
        proof {
            crate::toolchain::lemma_derived_paths_added_push(start, before, *derivation, added, dependency_refs@[k as int]);
            added = added.push(dependency_refs@[k as int]);
            assert(added =~= srcs + dependency_refs@.take(k + 1));
        }
        k = k + 1;
    }
    let ghost before_tools = *derivation;
    toolchain.add_inputs(derivation);
    proof {
        assert(dependency_refs@.take(k as int) =~= dependency_refs@);
        let tools = choose|tools: Seq<crate::derived_path::SingleDerivedPath>|
            #[trigger] crate::toolchain::are_tool_outputs(tools, *toolchain)
                && crate::toolchain::derived_paths_added(before_tools, *derivation, tools);
        crate::toolchain::lemma_derived_paths_added_concat(start, before_tools, *derivation, added, tools);
        assert(phase_input_paths(
            *source_store_path,
            owned_path(cargo_home_snapshot),
            dependency_refs@,
            tools,
        ) =~= added + tools);
        lemma_phase_input_sources(
            start,
            *derivation,
            *toolchain,
            *source_store_path,
            owned_path(cargo_home_snapshot),
            dependency_refs@,
            tools,
        );
    }
}

/// A derivation that runs `builder -euo pipefail -c script` with `PATH` set
/// to `path`, has one output `out`, and no inputs yet.
fn bash_derivation(name: &str, system: &str, builder: &str, script: &str, path: &str) -> (r:
    crate::derivation::Derivation)
    ensures
        r.version == crate::derivation::spec_default_derivation_version(),
        r.name@ == name@,
        r.system@ == system@,
        r.builder@ == builder@,
        strings_view(r.args@) == seq!["-euo"@, "pipefail"@, "-c"@, script@],
        r.env@.dom() == set!["PATH"@],
        r.env@["PATH"@]@ == path@,
        r.outputs@ == map![
            "out"@ => crate::derivation::Output {
                path: None,
                hash_algo: None,
                method: None,
                hash: None,
            },
        ],
        r.inputs.drvs@ == Map::<Seq<char>, crate::derivation::InputDrv>::empty(),
        r.inputs.srcs@ == Set::<Seq<char>>::empty(),
{
    let mut derivation = crate::derivation::Derivation::new(name, system, builder);
    derivation.add_arg("-euo");
    derivation.add_arg("pipefail");
    derivation.add_arg("-c");
    derivation.add_arg(script);
    derivation.set_env("PATH", path);
    derivation.add_output("out", None, None, None);
    proof {
        assert(derivation.env@.dom() =~= set!["PATH"@]) by {
            assert forall|k: Seq<char>| derivation.env@.dom().contains(k) implies k == "PATH"@ by {
                if k != "PATH"@ {
                    assert(derivation.env@.remove("PATH"@).dom().contains(k));
                }
            }
        }
        assert(derivation.outputs@ =~= map![
            "out"@ => crate::derivation::Output { path: None, hash_algo: None, method: None, hash: None },
        ]);
        assert(strings_view(derivation.args@) =~= seq!["-euo"@, "pipefail"@, "-c"@, script@]);
    }
    derivation
}

/// The derivation of one package phase: `bash -euo pipefail -c <script>`
/// with `PATH` set to the tools, one output `out`, and the source, Cargo
/// home snapshot, dependencies and tools as inputs.
pub fn phase_derivation(
    plan: &crate::model::Plan,
    package: &crate::model::PlanPackage,
    package_index: usize,
    phase_suffix: Option<&str>,
    units: &Vec<crate::model::Unit>,
    layout: &crate::command_layout::PackageLayoutRequirements,
    toolchain: &crate::toolchain::Toolchain,
    system: &str,
    source_store_path: &crate::store_path::StorePath,
    cargo_home_snapshot: Option<&crate::store_path::StorePath>,
    dependency_refs: &Vec<crate::derived_path::SingleDerivedPath>,
    dependency_output_paths: &Vec<String>,
    release_mode: bool,
) -> (r: crate::derivation::Derivation)
    ensures
        r.version == crate::derivation::spec_default_derivation_version(),
        r.name@ == spec_phase_derivation_name(
            package.name@,
            package_index as nat,
            match phase_suffix {
                Some(s) => Some(s@),
                None => None,
            },
        ),
        r.system@ == system@,
        r.builder@ == toolchain.bash.out_path@ + "/bin/bash"@,
        strings_view(r.args@) == seq![
            "-euo"@,
            "pipefail"@,
            "-c"@,
            crate::builder_script::spec_builder_script(
                plan.workspace_root@,
                plan.target_dir@,
                strings_view(layout.target_triples@),
                layout.needs_host_artifacts,
                toolchain.rustc.out_path@ + "/bin/rustc"@,
                toolchain.cargo.out_path@ + "/bin/cargo"@,
                source_store_path@,
                match cargo_home_snapshot {
                    Some(p) => Some(p@),
                    None => None,
                },
                strings_view(dependency_output_paths@),
                crate::command_script::spec_render_command_script(units@),
                release_mode,
            ),
        ],
        r.env@.dom() == set!["PATH"@],
        r.env@["PATH"@]@ == toolchain.coreutils.out_path@ + "/bin:"@ + toolchain.pkg_config.out_path@
            + "/bin:"@ + toolchain.cc.out_path@ + "/bin:"@ + toolchain.bash.out_path@ + "/bin"@,
        r.outputs@ == map![
            "out"@ => crate::derivation::Output {
                path: None,
                hash_algo: None,
                method: None,
                hash: None,
            },
        ],
        exists|start: crate::derivation::Derivation, tools: Seq<crate::derived_path::SingleDerivedPath>|
            start.inputs.drvs@ == Map::<Seq<char>, crate::derivation::InputDrv>::empty()
                && start.inputs.srcs@ == Set::<Seq<char>>::empty()
                && #[trigger] crate::toolchain::are_tool_outputs(tools, *toolchain)
                && #[trigger] crate::toolchain::derived_paths_added(
                start,
                r,
                phase_input_paths(
                    *source_store_path,
                    owned_path(cargo_home_snapshot),
                    dependency_refs@,
                    tools,
                ),
            ),
        r.inputs.srcs@ == phase_source_paths(*source_store_path, owned_path(cargo_home_snapshot)).union(
            crate::toolchain::opaque_srcs(dependency_refs@),
        ),
{
    let command_script = crate::command_script::render_command_script(units);
    let build_script = crate::builder_script::render_package_builder_script(
        plan,
        package,
        layout,
        toolchain,
        source_store_path,
        cargo_home_snapshot,
        dependency_output_paths,
        command_script.as_str(),
        release_mode,
    );
    let drv_name = phase_derivation_name(package.name.as_str(), package_index, phase_suffix);
    let mut derivation = bash_derivation(
        drv_name.as_str(),
        system,
        toolchain.bash_builder().as_str(),
        build_script.as_str(),
        toolchain.path_env().as_str(),
    );
    let ghost start = derivation;
    add_phase_inputs(&mut derivation, toolchain, source_store_path, cargo_home_snapshot, dependency_refs);
    proof {
        assert(derivation.inputs.srcs@ =~= phase_source_paths(
            *source_store_path,
            owned_path(cargo_home_snapshot),
        ).union(crate::toolchain::opaque_srcs(dependency_refs@)));
        let tools = choose|tools: Seq<crate::derived_path::SingleDerivedPath>|
            #[trigger] crate::toolchain::are_tool_outputs(tools, *toolchain)
                && crate::toolchain::derived_paths_added(
                start,
                derivation,
                phase_input_paths(*source_store_path, owned_path(cargo_home_snapshot), dependency_refs@, tools),
            );
        crate::toolchain::lemma_derived_paths_added_keeps(
            start,
            derivation,
            phase_input_paths(*source_store_path, owned_path(cargo_home_snapshot), dependency_refs@, tools),
        );
    }
    derivation
}

/// A package's layout requirements as the materialized graph reports them.
#[derive(Debug)]
pub struct PackageLayoutInfo {
    pub target_triples: Vec<String>,
    pub needs_host_artifacts: bool,
}

/// One materialized phase of a package: its derivation, the installable
/// that builds it, and what it needs of each dependency.
#[derive(Debug)]
pub struct MaterializedPhaseInfo {
    pub derivation: String,
    pub installable: String,
    pub dependency_phases: crate::sorted::SortedMap<DependencyPhase>,
}

/// The materialized phases of a package.
#[derive(Debug)]
pub struct PackagePhaseInfo {
    pub metadata: Option<MaterializedPhaseInfo>,
    pub full: MaterializedPhaseInfo,
}

/// The derivations of a whole plan, by package key.
#[derive(Debug)]
pub struct MaterializedGraph {
    pub manifest_path: String,
    pub workspace_root: String,
    pub target_triple: Option<String>,
    pub workspace_package_keys: Vec<String>,
    pub default_workspace_package_key: Option<String>,
    pub package_names: crate::sorted::SortedMap<String>,
    pub package_derivations: crate::sorted::SortedMap<String>,
    pub package_installables: crate::sorted::SortedMap<String>,
    pub package_phases: crate::sorted::SortedMap<PackagePhaseInfo>,
    pub package_layouts: crate::sorted::SortedMap<PackageLayoutInfo>,
    pub package_refs: crate::string_map::StringMap<crate::derived_path::SingleDerivedPath>,
}

/// Why a build target could not be resolved.
#[derive(Debug)]
pub enum TargetError {
    /// `default` was asked for, but the workspace has no packages.
    NoDefault,
    /// No package has this key, and no workspace package has this name.
    Unknown(String),
    /// Several workspace packages have this name.
    Ambiguous(String),
    /// The package has no installable (the graph is inconsistent).
    MissingDerivedPath(String),
}

/// The workspace package keys whose package is named `target`.
pub open spec fn name_matches(
    keys: Seq<Seq<char>>,
    names: Map<Seq<char>, String>,
    target: Seq<char>,
) -> Set<Seq<char>> {
    Set::new(
        |k: Seq<char>| keys.contains(k) && names.contains_key(k) && names[k]@ == target,
    )
}

/// The key a target resolves to: the default workspace package for
/// `default`, a package key as it is, or the one workspace package with that
/// name.
pub open spec fn spec_resolve_target_key(
    default_key: Option<Seq<char>>,
    derivation_keys: Set<Seq<char>>,
    keys: Seq<Seq<char>>,
    names: Map<Seq<char>, String>,
    target: Seq<char>,
) -> Result<Seq<char>, TargetError> {
    if target == "default"@ {
        match default_key {
            Some(k) => Ok(k),
            None => Err(TargetError::NoDefault),
        }
    } else if derivation_keys.contains(target) {
        Ok(target)
    } else if name_matches(keys, names, target).len() == 1 {
        Ok(name_matches(keys, names, target).choose())
    } else if name_matches(keys, names, target).len() == 0 {
        Err(TargetError::Unknown(arbitrary()))
    } else {
        Err(TargetError::Ambiguous(arbitrary()))
    }
}

impl MaterializedGraph {
    /// The key that `target` resolves to (see `spec_resolve_target_key`).
    pub fn resolve_target_key(&self, target: &str) -> (r: Result<String, TargetError>)
        ensures
            match (r, spec_resolve_target_key(
                match self.default_workspace_package_key {
                    Some(k) => Some(k@),
                    None => None,
                },
                self.package_derivations@.dom(),
                strings_view(self.workspace_package_keys@),
                self.package_names@,
                target@,
            )) {
                (Ok(k), Ok(want)) => k@ == want,
                (Err(TargetError::NoDefault), Err(TargetError::NoDefault)) => true,
                (Err(TargetError::Unknown(t)), Err(TargetError::Unknown(_))) => t@ == target@,
                (Err(TargetError::Ambiguous(t)), Err(TargetError::Ambiguous(_))) => t@ == target@,
                _ => false,
            },
    {
        proof {
            reveal_strlit("default");
        }
        if str_equal(target, "default") {
            return match &self.default_workspace_package_key {
                Some(k) => Ok(k.clone()),
                None => Err(TargetError::NoDefault),
            };
        }
        if self.package_derivations.contains_key(target) {
            return Ok(target.to_string());
        }
        let ghost keys = strings_view(self.workspace_package_keys@);
        let mut matches: Vec<String> = Vec::new();
        let mut i: usize = 0;
        while i < self.workspace_package_keys.len()
            invariant
                i <= self.workspace_package_keys@.len(),
                keys == strings_view(self.workspace_package_keys@),
                strings_view(matches@).to_set() == name_matches(keys.take(i as int), self.package_names@, target@),
            decreases self.workspace_package_keys@.len() - i,
        {
            let key = &self.workspace_package_keys[i];
            let ghost before = strings_view(matches@);
            let hit = match self.package_names.get(key.as_str()) {
                Some(name) => str_equal(name.as_str(), target),
                None => false,
            };
            if hit {
                matches.push(key.clone());
            }
            proof {
                let cur = keys.take(i as int);
                let next = keys.take(i + 1);
                let now = name_matches(next, self.package_names@, target@);
                let prev = name_matches(cur, self.package_names@, target@);
                let mv = strings_view(matches@);
                assert(next =~= cur.push(key@));
                assert forall|k: Seq<char>| mv.to_set().contains(k) == now.contains(k) by {
                    if mv.to_set().contains(k) {
                        let j = choose|j: int| 0 <= j < mv.len() && mv[j] == k;
                        if j < before.len() {
                            assert(before[j] == k);
                            assert(before.to_set().contains(k));
                            let m = choose|m: int| 0 <= m < cur.len() && cur[m] == k;
                            assert(next[m] == k);
                        } else {
                            assert(next[i as int] == k);
                        }
                    }
                    if now.contains(k) {
                        let m = choose|m: int| 0 <= m < next.len() && next[m] == k;
                        if m < i {
                            assert(cur[m] == k);
                            assert(prev.contains(k));
                            let j = choose|j: int| 0 <= j < before.len() && before[j] == k;
                            assert(mv[j] == k);
                        } else {
                            assert(mv[before.len() as int] == k);
                        }
                    }
                }
                assert(strings_view(matches@).to_set() =~= now);
            }
            i = i + 1;
        }
        let unique = crate::sorted::sorted_unique(&matches);
        proof {
            assert(keys.take(i as int) =~= keys);
            let s = name_matches(keys, self.package_names@, target@);
            let u = strings_view(unique@);
            crate::sorted::lemma_sorted_no_duplicates(u);
            u.unique_seq_to_set();
            assert(u.to_set() == s);
            if u.len() == 1 {
                assert(s =~= set![u[0]]);
                assert(s.choose() == u[0]) by {
                    assert(s.contains(s.choose()));
                }
            }
        }
        if unique.len() == 1 {
            Ok(unique[0].clone())
        } else if unique.len() == 0 {
            Err(TargetError::Unknown(target.to_string()))
        } else {
            Err(TargetError::Ambiguous(target.to_string()))
        }
    }

    /// The arguments of the one `nix build` that builds the package that
    /// `target` resolves to: the build arguments of `tool` for its
    /// installable alone (the errors are those of `build_target`).
    pub fn build_target_args(&self, target: &str, tool: &crate::nix_tool::NixTool) -> (r: Result<
        Vec<String>,
        TargetError,
    >)
        ensures
            match (r, spec_resolve_target_key(
                match self.default_workspace_package_key {
                    Some(k) => Some(k@),
                    None => None,
                },
                self.package_derivations@.dom(),
                strings_view(self.workspace_package_keys@),
                self.package_names@,
                target@,
            )) {
                (Ok(args), Ok(key)) => self.package_refs@.contains_key(key) && strings_view(args@)
                    == strings_view(tool.spec_config().extra_args@) + seq![
                    "build"@,
                    "-L"@,
                    "--no-link"@,
                    "--print-out-paths"@,
                    crate::derived_path::spec_render_derived(self.package_refs@[key]),
                ],
                (Err(TargetError::MissingDerivedPath(k)), Ok(key)) => k@ == key
                    && !self.package_refs@.contains_key(key),
                (Err(TargetError::NoDefault), Err(TargetError::NoDefault)) => true,
                (Err(TargetError::Unknown(t)), Err(TargetError::Unknown(_))) => t@ == target@,
                (Err(TargetError::Ambiguous(t)), Err(TargetError::Ambiguous(_))) => t@ == target@,
                _ => false,
            },
    {
        match self.build_target(target) {
            Ok(p) => {
                let ghost rendered = crate::derived_path::spec_render_derived(p);
                let mut paths: Vec<crate::derived_path::SingleDerivedPath> = Vec::new();
                paths.push(p);
                let args = tool.build_args(&paths);
                proof {
                    assert(paths@.map_values(|q: crate::derived_path::SingleDerivedPath| crate::derived_path::spec_render_derived(q))
                        =~= seq![rendered]);
                    assert(strings_view(args@) =~= strings_view(tool.spec_config().extra_args@) + seq![
                        "build"@,
                        "-L"@,
                        "--no-link"@,
                        "--print-out-paths"@,
                        rendered,
                    ]);
                }
                Ok(args)
            },
            Err(e) => Err(e),
        }
    }

    /// The installable of the package that `target` resolves to.
    pub fn build_target(&self, target: &str) -> (r: Result<crate::derived_path::SingleDerivedPath, TargetError>)
        ensures
            match (r, spec_resolve_target_key(
                match self.default_workspace_package_key {
                    Some(k) => Some(k@),
                    None => None,
                },
                self.package_derivations@.dom(),
                strings_view(self.workspace_package_keys@),
                self.package_names@,
                target@,
            )) {
                (Ok(p), Ok(key)) => self.package_refs@.contains_key(key) && self.package_refs@[key] == p,
                (Err(TargetError::MissingDerivedPath(k)), Ok(key)) => k@ == key
                    && !self.package_refs@.contains_key(key),
                (Err(TargetError::NoDefault), Err(TargetError::NoDefault)) => true,
                (Err(TargetError::Unknown(t)), Err(TargetError::Unknown(_))) => t@ == target@,
                (Err(TargetError::Ambiguous(t)), Err(TargetError::Ambiguous(_))) => t@ == target@,
                _ => false,
            },
    {
        let key = match self.resolve_target_key(target) {
            Ok(k) => k,
            Err(e) => return Err(e),
        };
        match self.package_refs.get(key.as_str()) {
            Some(p) => Ok(p.clone()),
            None => Err(TargetError::MissingDerivedPath(key)),
        }
    }
}

/// Some package outside the workspace has its manifest under Cargo home, so
/// the builds need a snapshot of Cargo home.
pub open spec fn spec_needs_cargo_home_snapshot(packages: Seq<crate::model::PlanPackage>) -> bool {
    exists|i: int|
        0 <= i < packages.len() && (#[trigger] packages[i]).cargo_home_rel_manifest_path is Some
            && !packages[i].workspace_member
}

/// Whether the builds need a snapshot of Cargo home.
pub fn needs_cargo_home_snapshot(plan: &crate::model::Plan) -> (r: bool)
    ensures
        r == spec_needs_cargo_home_snapshot(plan.packages@),
{
    let mut i: usize = 0;
    while i < plan.packages.len()
        invariant
            i <= plan.packages@.len(),
            forall|j: int|
                0 <= j < i ==> !((#[trigger] plan.packages@[j]).cargo_home_rel_manifest_path is Some
                    && !plan.packages@[j].workspace_member),
        decreases plan.packages@.len() - i,
    {
        if plan.packages[i].cargo_home_rel_manifest_path.is_some() && !plan.packages[i].workspace_member {
            return true;
        }
        i = i + 1;
    }
    false
}

/// The store name of a package's staged source:
/// `nix-cargo-src-<sanitized name>-<index>`.
pub fn source_store_name(package_name: &str, package_index: usize) -> (r: String)
    ensures
        r@ == "nix-cargo-src-"@ + spec_sanitize_derivation_component(package_name@) + "-"@
            + crate::text::decimal(package_index as nat),
{
    let mut r = "nix-cargo-src-".to_string();
    r.append(sanitize_derivation_component(package_name).as_str());
    r.append("-");
    r.append(crate::text::decimal_string(package_index).as_str());
    r
}

/// A copy of a layout.
pub fn clone_layout(layout: &crate::command_layout::PackageLayoutRequirements) -> (r:
    crate::command_layout::PackageLayoutRequirements)
    ensures
        r.target_triples@ == layout.target_triples@,
        r.needs_host_artifacts == layout.needs_host_artifacts,
{
    crate::command_layout::PackageLayoutRequirements {
        target_triples: crate::nix_tool::clone_strings(&layout.target_triples),
        needs_host_artifacts: layout.needs_host_artifacts,
    }
}

/// What materializing one package starts from: its layout, its phases and
/// the workspace-relative source prefixes to stage.
#[derive(Debug)]
pub struct PackageMaterialization {
    pub layout: crate::command_layout::PackageLayoutRequirements,
    pub phase_plan: PackagePhasePlan,
    pub source_prefixes: Vec<String>,
}

/// The layout, phases and source prefixes of a package, from the plan-wide
/// tables (a package missing from a table gets no triples and no host
/// artifacts, no units, no prefixes).
pub fn package_materialization(
    plan: &crate::model::Plan,
    package: &crate::model::PlanPackage,
    layouts: &crate::string_map::StringMap<crate::command_layout::PackageLayoutRequirements>,
    units: &crate::string_map::StringMap<Vec<crate::model::Unit>>,
    prefixes: &crate::string_map::StringMap<Vec<String>>,
) -> (r: PackageMaterialization)
    ensures
        layouts@.contains_key(package.key@) ==> r.layout.target_triples@ == layouts@[package.key@].target_triples@
            && r.layout.needs_host_artifacts == layouts@[package.key@].needs_host_artifacts,
        !layouts@.contains_key(package.key@) ==> r.layout.target_triples@.len() == 0
            && !r.layout.needs_host_artifacts,
        is_metadata_units(
            r.phase_plan.metadata_units@,
            if units@.contains_key(package.key@) {
                units@[package.key@]@
            } else {
                Seq::empty()
            },
        ),
        crate::model::same_units(
            r.phase_plan.full_units@,
            if units@.contains_key(package.key@) {
                units@[package.key@]@
            } else {
                Seq::empty()
            },
        ),
        forall|k: Seq<char>|
            #[trigger] r.phase_plan.metadata_dependencies@.contains_key(k) <==> required_phase(
                units_requirements(plan.packages@, strings_view(package.dependencies@), r.phase_plan.metadata_units@),
                k,
            ) is Some,
        forall|k: Seq<char>|
            #[trigger] r.phase_plan.metadata_dependencies@.contains_key(k) ==> Some(r.phase_plan.metadata_dependencies@[k])
                == required_phase(
                units_requirements(plan.packages@, strings_view(package.dependencies@), r.phase_plan.metadata_units@),
                k,
            ),
        forall|k: Seq<char>|
            #[trigger] r.phase_plan.full_dependencies@.contains_key(k) <==> required_phase(
                units_requirements(plan.packages@, strings_view(package.dependencies@), r.phase_plan.full_units@),
                k,
            ) is Some,
        forall|k: Seq<char>|
            #[trigger] r.phase_plan.full_dependencies@.contains_key(k) ==> Some(r.phase_plan.full_dependencies@[k])
                == required_phase(
                units_requirements(plan.packages@, strings_view(package.dependencies@), r.phase_plan.full_units@),
                k,
            ),
        r.source_prefixes@ == if prefixes@.contains_key(package.key@) {
            prefixes@[package.key@]@
        } else {
            Seq::empty()
        },
{
    let layout = match layouts.get(package.key.as_str()) {
        Some(l) => clone_layout(l),
        None => crate::command_layout::PackageLayoutRequirements {
            target_triples: Vec::new(),
            needs_host_artifacts: false,
        },
    };
    let package_units = match units.get(package.key.as_str()) {
        Some(u) => clone_units(u),
        None => Vec::new(),
    };
    let phase_plan = build_package_phase_plan(plan, package, &package_units);
    let source_prefixes = match prefixes.get(package.key.as_str()) {
        Some(p) => crate::nix_tool::clone_strings(p),
        None => Vec::new(),
    };
    proof {
        let want = if units@.contains_key(package.key@) {
            units@[package.key@]@
        } else {
            Seq::empty()
        };
        assert(crate::model::same_units(package_units@, want));
        lemma_same_units_metadata(package_units@, want, phase_plan.metadata_units@);
        assert forall|i: int| 0 <= i < phase_plan.full_units@.len() implies #[trigger] crate::model::same_unit(
            phase_plan.full_units@[i],
            want[i],
        ) by {
            assert(crate::model::same_unit(phase_plan.full_units@[i], package_units@[i]));
            assert(crate::model::same_unit(package_units@[i], want[i]));
        }
    }
    PackageMaterialization { layout, phase_plan, source_prefixes }
}

/// The metadata units of equal units are the same.
proof fn lemma_same_units_metadata(
    a: Seq<crate::model::Unit>,
    b: Seq<crate::model::Unit>,
    m: Seq<crate::model::Unit>,
)
    requires
        crate::model::same_units(a, b),
        is_metadata_units(m, a),
    ensures
        is_metadata_units(m, b),
{
    assert forall|i: int| 0 <= i < a.len() implies #[trigger] spec_is_metadata_phase_unit(a[i])
        == spec_is_metadata_phase_unit(b[i]) by {
        assert(crate::model::same_unit(a[i], b[i]));
    }
    assert forall|i: int| 0 <= i < a.len() implies #[trigger] in_metadata_phase(a[i]) == in_metadata_phase(b[i]) by {
        assert(crate::model::same_unit(a[i], b[i]));
    }
    lemma_metadata_selection_same(a, b);
    if exists|i: int| 0 <= i < b.len() && #[trigger] spec_is_metadata_phase_unit(b[i]) {
        let i = choose|i: int| 0 <= i < b.len() && #[trigger] spec_is_metadata_phase_unit(b[i]);
        assert(spec_is_metadata_phase_unit(a[i]));
        lemma_metadata_selection_bounds(a);
        assert forall|k: int| 0 <= k < m.len() implies is_metadata_phase_rewrite(
            #[trigger] m[k],
            b[metadata_selection(b)[k]],
        ) by {
            let j = metadata_selection(a)[k];
            assert(is_metadata_phase_rewrite(m[k], a[j]));
            assert(crate::model::same_unit(a[j], b[j]));
        }
    } else {
        if exists|i: int| 0 <= i < a.len() && #[trigger] spec_is_metadata_phase_unit(a[i]) {
            let i = choose|i: int| 0 <= i < a.len() && #[trigger] spec_is_metadata_phase_unit(a[i]);
            assert(spec_is_metadata_phase_unit(b[i]));
        }
    }
}

proof fn lemma_metadata_selection_same(a: Seq<crate::model::Unit>, b: Seq<crate::model::Unit>)
    requires
        a.len() == b.len(),
        forall|i: int| 0 <= i < a.len() ==> #[trigger] in_metadata_phase(a[i]) == in_metadata_phase(b[i]),
    ensures
        metadata_selection(a) == metadata_selection(b),
    decreases a.len(),
{
    if a.len() > 0 {
        let x = a.drop_last();
        let y = b.drop_last();
        assert forall|i: int| 0 <= i < x.len() implies #[trigger] in_metadata_phase(x[i]) == in_metadata_phase(y[i]) by {
            assert(x[i] == a[i] && y[i] == b[i]);
        }
        lemma_metadata_selection_same(x, y);
        assert(in_metadata_phase(a.last()) == in_metadata_phase(b.last())) by {
            assert(a.last() == a[a.len() - 1]);
            assert(b.last() == b[b.len() - 1]);
        }
    }
}

/// The record of one materialized phase.
pub fn phase_info(
    drv_path: &crate::store_path::StorePath,
    installable: &crate::derived_path::SingleDerivedPath,
    dependency_phases: &crate::sorted::SortedMap<DependencyPhase>,
) -> (r: MaterializedPhaseInfo)
    ensures
        r.derivation@ == drv_path@,
        r.installable@ == crate::derived_path::spec_render_derived(*installable),
        r.dependency_phases@ == dependency_phases@,
        r.dependency_phases.entry_seq() == dependency_phases.entry_seq(),
{
    MaterializedPhaseInfo {
        derivation: drv_path.to_string(),
        installable: installable.to_string(),
        dependency_phases: dependency_phases.copied(),
    }
}

/// What has been materialized so far, by package key: the graph's tables,
/// and the installables and output paths of each package's phases.
#[derive(Debug)]
pub struct MaterializeState {
    pub package_names: crate::sorted::SortedMap<String>,
    pub package_derivations: crate::sorted::SortedMap<String>,
    pub package_installables: crate::sorted::SortedMap<String>,
    pub package_phases: crate::sorted::SortedMap<PackagePhaseInfo>,
    pub package_layouts: crate::sorted::SortedMap<PackageLayoutInfo>,
    pub package_refs: crate::string_map::StringMap<crate::derived_path::SingleDerivedPath>,
    pub package_output_paths: crate::string_map::StringMap<String>,
    pub package_metadata_refs: crate::string_map::StringMap<crate::derived_path::SingleDerivedPath>,
    pub package_metadata_output_paths: crate::string_map::StringMap<String>,
}

/// The inputs of a phase: the installables and output paths of the
/// dependencies it needs.
#[derive(Debug)]
pub struct PhaseInputs {
    pub dependency_refs: Vec<crate::derived_path::SingleDerivedPath>,
    pub dependency_output_paths: Vec<String>,
}

impl MaterializeState {
    /// Nothing materialized yet.
    pub fn new() -> (r: Self)
        ensures
            r.package_names@ == Map::<Seq<char>, String>::empty(),
            r.package_derivations@ == Map::<Seq<char>, String>::empty(),
            r.package_installables@ == Map::<Seq<char>, String>::empty(),
            r.package_phases@ == Map::<Seq<char>, PackagePhaseInfo>::empty(),
            r.package_layouts@ == Map::<Seq<char>, PackageLayoutInfo>::empty(),
            r.package_refs@ == Map::<Seq<char>, crate::derived_path::SingleDerivedPath>::empty(),
            r.package_output_paths@ == Map::<Seq<char>, String>::empty(),
            r.package_metadata_refs@ == Map::<Seq<char>, crate::derived_path::SingleDerivedPath>::empty(),
            r.package_metadata_output_paths@ == Map::<Seq<char>, String>::empty(),
    {
        MaterializeState {
            package_names: crate::sorted::SortedMap::new(),
            package_derivations: crate::sorted::SortedMap::new(),
            package_installables: crate::sorted::SortedMap::new(),
            package_phases: crate::sorted::SortedMap::new(),
            package_layouts: crate::sorted::SortedMap::new(),
            package_refs: crate::string_map::StringMap::new(),
            package_output_paths: crate::string_map::StringMap::new(),
            package_metadata_refs: crate::string_map::StringMap::new(),
            package_metadata_output_paths: crate::string_map::StringMap::new(),
        }
    }

    /// The inputs of a phase with these requirements: each dependency's
    /// metadata phase where that suffices and exists, else its full phase.
    /// The installables are resolved first, so a missing installable is the
    /// error reported before a missing output path.
    pub fn phase_inputs(&self, requirements: &crate::sorted::SortedMap<DependencyPhase>) -> (r: Result<
        PhaseInputs,
        MissingDependency,
    >)
        ensures
            match r {
                Ok(inputs) => resolved_in_order(
                    Ok(inputs.dependency_refs@),
                    requirements.entry_seq(),
                    self.package_refs@,
                    self.package_metadata_refs@,
                ) && resolved_in_order(
                    Ok(inputs.dependency_output_paths@),
                    requirements.entry_seq(),
                    self.package_output_paths@,
                    self.package_metadata_output_paths@,
                ),
                Err(e) => resolved_in_order(
                    Err::<Seq<crate::derived_path::SingleDerivedPath>, _>((e.package_key@, e.phase)),
                    requirements.entry_seq(),
                    self.package_refs@,
                    self.package_metadata_refs@,
                ) || (all_resolve(requirements.entry_seq(), self.package_refs@, self.package_metadata_refs@)
                    && resolved_in_order(
                    Err::<Seq<String>, _>((e.package_key@, e.phase)),
                    requirements.entry_seq(),
                    self.package_output_paths@,
                    self.package_metadata_output_paths@,
                )),
            },
    {
        let dependency_refs = match resolve_phase_dependency_refs(
            requirements,
            &self.package_refs,
            &self.package_metadata_refs,
        ) {
            Ok(v) => v,
            Err(e) => return Err(e),
        };
        proof {
            let reqs = requirements.entry_seq();
            assert forall|i: int| 0 <= i < reqs.len() implies (#[trigger] phase_source(
                reqs[i].1,
                reqs[i].0@,
                self.package_refs@,
                self.package_metadata_refs@,
            )) is Some by {
                assert(Some(dependency_refs@[i]) == phase_source(
                    reqs[i].1,
                    reqs[i].0@,
                    self.package_refs@,
                    self.package_metadata_refs@,
                ));
            }
        }
        let dependency_output_paths = match resolve_phase_dependency_output_paths(
            requirements,
            &self.package_output_paths,
            &self.package_metadata_output_paths,
        ) {
            Ok(v) => v,
            Err(e) => return Err(e),
        };
        Ok(PhaseInputs { dependency_refs, dependency_output_paths })
    }

    /// The inputs of a package's full phase: those its requirements resolve
    /// to, then the package's own metadata phase if it has one.
    pub fn full_phase_inputs(
        &self,
        key: &str,
        requirements: &crate::sorted::SortedMap<DependencyPhase>,
    ) -> (r: Result<PhaseInputs, MissingDependency>)
        ensures
            match r {
                Ok(inputs) => exists|refs: Seq<crate::derived_path::SingleDerivedPath>|
                    #[trigger] resolved_in_order(
                        Ok(refs),
                        requirements.entry_seq(),
                        self.package_refs@,
                        self.package_metadata_refs@,
                    ) && inputs.dependency_refs@ == if self.package_metadata_refs@.contains_key(key@) {
                        refs.push(self.package_metadata_refs@[key@])
                    } else {
                        refs
                    } && resolved_in_order(
                        Ok(inputs.dependency_output_paths@),
                        requirements.entry_seq(),
                        self.package_output_paths@,
                        self.package_metadata_output_paths@,
                    ),
                Err(e) => resolved_in_order(
                    Err::<Seq<crate::derived_path::SingleDerivedPath>, _>((e.package_key@, e.phase)),
                    requirements.entry_seq(),
                    self.package_refs@,
                    self.package_metadata_refs@,
                ) || (all_resolve(requirements.entry_seq(), self.package_refs@, self.package_metadata_refs@)
                    && resolved_in_order(
                    Err::<Seq<String>, _>((e.package_key@, e.phase)),
                    requirements.entry_seq(),
                    self.package_output_paths@,
                    self.package_metadata_output_paths@,
                )),
            },
    {
        let mut inputs = match self.phase_inputs(requirements) {
            Ok(i) => i,
            Err(e) => return Err(e),
        };
        let ghost refs = inputs.dependency_refs@;
        match self.own_metadata_ref(key) {
            Some(r) => inputs.dependency_refs.push(r),
            None => {},
        }
        proof {
            assert(resolved_in_order(
                Ok(refs),
                requirements.entry_seq(),
                self.package_refs@,
                self.package_metadata_refs@,
            ));
        }
        Ok(inputs)
    }

    /// Records a package's materialized metadata phase.
    pub fn record_metadata_phase(
        &mut self,
        key: &str,
        installable: crate::derived_path::SingleDerivedPath,
        output_path: String,
    )
        ensures
            final(self).package_metadata_refs@ == old(self).package_metadata_refs@.insert(key@, installable),
            final(self).package_metadata_output_paths@ == old(self).package_metadata_output_paths@.insert(
                key@,
                output_path,
            ),
            final(self).package_refs@ == old(self).package_refs@,
            final(self).package_output_paths@ == old(self).package_output_paths@,
            final(self).package_names@ == old(self).package_names@,
            final(self).package_derivations@ == old(self).package_derivations@,
            final(self).package_installables@ == old(self).package_installables@,
            final(self).package_phases@ == old(self).package_phases@,
            final(self).package_layouts@ == old(self).package_layouts@,
    {
        self.package_metadata_refs.insert(key.to_string(), installable);
        self.package_metadata_output_paths.insert(key.to_string(), output_path);
    }

    /// The installable of a package's metadata phase, if it has one: the full
    /// phase of the package takes it as an input too.
    pub fn own_metadata_ref(&self, key: &str) -> (r: Option<crate::derived_path::SingleDerivedPath>)
        ensures
            r is Some <==> self.package_metadata_refs@.contains_key(key@),
            r matches Some(p) ==> p == self.package_metadata_refs@[key@],
    {
        match self.package_metadata_refs.get(key) {
            Some(p) => Some(p.clone()),
            None => None,
        }
    }

    /// Records a package's materialized full phase and its graph entries.
    pub fn record_package(
        &mut self,
        package: &crate::model::PlanPackage,
        layout: &crate::command_layout::PackageLayoutRequirements,
        metadata: Option<MaterializedPhaseInfo>,
        full: MaterializedPhaseInfo,
        installable: crate::derived_path::SingleDerivedPath,
        output_path: String,
    )
        ensures
            final(self).package_names@ == old(self).package_names@.insert(package.key@, package.name),
            final(self).package_derivations@.dom() == old(self).package_derivations@.dom().insert(package.key@),
            final(self).package_derivations@[package.key@] == full.derivation,
            forall|k: Seq<char>|
                k != package.key@ && #[trigger] old(self).package_derivations@.contains_key(k)
                    ==> final(self).package_derivations@[k] == old(self).package_derivations@[k],
            final(self).package_installables@.dom() == old(self).package_installables@.dom().insert(package.key@),
            final(self).package_installables@[package.key@] == full.installable,
            forall|k: Seq<char>|
                k != package.key@ && #[trigger] old(self).package_installables@.contains_key(k)
                    ==> final(self).package_installables@[k] == old(self).package_installables@[k],
            final(self).package_phases@ == old(self).package_phases@.insert(
                package.key@,
                PackagePhaseInfo { metadata, full },
            ),
            final(self).package_layouts@.dom() == old(self).package_layouts@.dom().insert(package.key@),
            final(self).package_layouts@[package.key@].target_triples@ == layout.target_triples@,
            final(self).package_layouts@[package.key@].needs_host_artifacts == layout.needs_host_artifacts,
            forall|k: Seq<char>|
                k != package.key@ && #[trigger] old(self).package_layouts@.contains_key(k)
                    ==> final(self).package_layouts@[k] == old(self).package_layouts@[k],
            final(self).package_refs@ == old(self).package_refs@.insert(package.key@, installable),
            final(self).package_output_paths@ == old(self).package_output_paths@.insert(package.key@, output_path),
            final(self).package_metadata_refs@ == old(self).package_metadata_refs@,
            final(self).package_metadata_output_paths@ == old(self).package_metadata_output_paths@,
    {
        let ghost old_derivations = self.package_derivations@;
        let ghost old_installables = self.package_installables@;
        let ghost old_layouts = self.package_layouts@;
        self.package_names.insert(package.key.clone(), package.name.clone());
        self.package_derivations.insert(package.key.clone(), full.derivation.clone());
        self.package_installables.insert(package.key.clone(), full.installable.clone());
        self.package_layouts.insert(
            package.key.clone(),
            PackageLayoutInfo {
                target_triples: crate::nix_tool::clone_strings(&layout.target_triples),
                needs_host_artifacts: layout.needs_host_artifacts,
            },
        );
        self.package_phases.insert(package.key.clone(), PackagePhaseInfo { metadata, full });
        self.package_refs.insert(package.key.clone(), installable);
        self.package_output_paths.insert(package.key.clone(), output_path);
    }

    /// The materialized graph of the plan.
    pub fn into_graph(self, plan: &crate::model::Plan) -> (r: MaterializedGraph)
        ensures
            r.manifest_path == plan.manifest_path,
            r.workspace_root == plan.workspace_root,
            r.target_triple == plan.target_triple,
            strings_view(r.workspace_package_keys@) == workspace_member_keys(plan.packages@),
            r.default_workspace_package_key is Some <==> workspace_member_keys(plan.packages@).len() > 0,
            r.default_workspace_package_key matches Some(k) ==> k@ == workspace_member_keys(plan.packages@)[0],
            r.package_names@ == self.package_names@,
            r.package_derivations@ == self.package_derivations@,
            r.package_installables@ == self.package_installables@,
            r.package_phases@ == self.package_phases@,
            r.package_layouts@ == self.package_layouts@,
            r.package_refs@ == self.package_refs@,
    {
        let mut keys: Vec<String> = Vec::new();
        let mut i: usize = 0;
        while i < plan.packages.len()
            invariant
                i <= plan.packages@.len(),
                strings_view(keys@) == workspace_member_keys(plan.packages@.take(i as int)),
            decreases plan.packages@.len() - i,
        {
            proof {
                assert(plan.packages@.take(i + 1).drop_last() =~= plan.packages@.take(i as int));
                assert(plan.packages@.take(i + 1).last() == plan.packages@[i as int]);
            }
            if plan.packages[i].workspace_member {
                let ghost before = strings_view(keys@);
                keys.push(plan.packages[i].key.clone());
                proof {
                    assert(strings_view(keys@) =~= before.push(plan.packages@[i as int].key@));
                }
            }
            i = i + 1;
        }
        proof {
            assert(plan.packages@.take(i as int) =~= plan.packages@);
        }
        let default_key = if keys.len() > 0 {
            Some(keys[0].clone())
        } else {
            None
        };
        MaterializedGraph {
            manifest_path: plan.manifest_path.clone(),
            workspace_root: plan.workspace_root.clone(),
            target_triple: crate::model::clone_opt_string(&plan.target_triple),
            workspace_package_keys: keys,
            default_workspace_package_key: default_key,
            package_names: self.package_names,
            package_derivations: self.package_derivations,
            package_installables: self.package_installables,
            package_phases: self.package_phases,
            package_layouts: self.package_layouts,
            package_refs: self.package_refs,
        }
    }
}

/// The keys of the workspace members, in plan order.
pub open spec fn workspace_member_keys(packages: Seq<crate::model::PlanPackage>) -> Seq<Seq<char>>
    decreases packages.len(),
{
    if packages.len() == 0 {
        Seq::empty()
    } else if packages.last().workspace_member {
        workspace_member_keys(packages.drop_last()).push(packages.last().key@)
    } else {
        workspace_member_keys(packages.drop_last())
    }
}

} // verus!
