//! The part of the workspace that each package's sources live in.

use vstd::prelude::*;

use crate::model::Plan;
use crate::string_map::StringMap;
use crate::text::{
    before_char, chars_before, chars_equal, chars_of, chars_range, chars_start_with,
    chars_trim_end, has_prefix, push_char, string_from_chars, strings_view, trim_end_char,
};

verus! {

/// A package source location as a path: without the `path+file://` (or
/// `path+file:`) scheme, the query and fragment, and trailing slashes.
pub open spec fn source_path(source: Seq<char>) -> Seq<char> {
    let s = if has_prefix(source, "path+file://"@) {
        source.skip("path+file://"@.len() as int)
    } else if has_prefix(source, "path+file:"@) {
        source.skip("path+file:"@.len() as int)
    } else {
        source
    };
    trim_end_char(before_char(before_char(s, '?'), '#'), '/')
}

/// The workspace-relative directory of a source inside the workspace: empty
/// for the workspace root itself, `None` for a source elsewhere.
pub open spec fn spec_local_workspace_source_prefix(
    workspace_root: Seq<char>,
    source: Seq<char>,
) -> Option<Seq<char>> {
    let root = trim_end_char(workspace_root, '/');
    let path = source_path(source);
    if path == root {
        Some(Seq::empty())
    } else if has_prefix(path, root + "/"@) && path.len() > root.len() + 1 {
        Some(path.skip(root.len() + 1int))
    } else {
        None
    }
}

/// If `source` points inside `workspace_root`, its workspace-relative prefix.
pub fn local_workspace_source_prefix(workspace_root: &str, source: &str) -> (r: Option<String>)
    ensures
        r is Some <==> spec_local_workspace_source_prefix(workspace_root@, source@) is Some,
        r matches Some(p) ==> spec_local_workspace_source_prefix(workspace_root@, source@) == Some(
            p@,
        ),
{
    let root = chars_trim_end(&chars_of(workspace_root), '/');
    let src = chars_of(source);
    let scheme_long = chars_of("path+file://");
    let scheme_short = chars_of("path+file:");
    let stripped = if chars_start_with(&src, &scheme_long) {
        chars_range(&src, scheme_long.len(), src.len())
    } else if chars_start_with(&src, &scheme_short) {
        chars_range(&src, scheme_short.len(), src.len())
    } else {
        chars_range(&src, 0, src.len())
    };
    proof {
        assert(src@.subrange(scheme_long@.len() as int, src@.len() as int) =~= src@.skip(
            scheme_long@.len() as int,
        ));
        assert(src@.subrange(scheme_short@.len() as int, src@.len() as int) =~= src@.skip(
            scheme_short@.len() as int,
        ));
        assert(src@.subrange(0, src@.len() as int) =~= src@);
    }
    let path = chars_trim_end(&chars_before(&chars_before(&stripped, '?'), '#'), '/');
    if chars_equal(&path, &root) {
        return Some(String::new());
    }
    let mut prefix = root.clone();
    prefix.push('/');
    proof {
        assert(prefix@ =~= root@ + "/"@) by {
            reveal_strlit("/");
        }
    }
    if chars_start_with(&path, &prefix) && path.len() > prefix.len() {
        let rel = chars_range(&path, prefix.len(), path.len());
        assert(rel@ =~= path@.skip(root@.len() + 1int));
        Some(string_from_chars(&rel))
    } else {
        None
    }
}

/// The prefixes recorded for a package: its workspace-relative directory, or
/// none when its source lies outside the workspace.
pub open spec fn prefixes_for(workspace_root: Seq<char>, source: Seq<char>) -> Seq<Seq<char>> {
    match spec_local_workspace_source_prefix(workspace_root, source) {
        Some(p) => seq![p],
        None => Seq::empty(),
    }
}

/// Package `i` is the last of the first `n` packages with its key.
pub open spec fn last_with_key(packages: Seq<crate::model::PlanPackage>, i: int, n: int) -> bool {
    0 <= i < n && forall|j: int| i < j < n ==> (#[trigger] packages[j]).key@ != packages[i].key@
}

/// The workspace-relative source prefixes of each package, by package key
/// (for packages that share a key, the last one counts).
pub fn workspace_source_prefixes_by_package(plan: &Plan) -> (r: StringMap<Vec<String>>)
    ensures
        r@.dom() == crate::command_layout::package_keys(plan.packages@),
        forall|i: int|
            #[trigger] last_with_key(plan.packages@, i, plan.packages@.len() as int) ==> strings_view(
                r@[plan.packages@[i].key@]@,
            ) == prefixes_for(plan.workspace_root@, plan.packages@[i].source@),
{
    let mut r: StringMap<Vec<String>> = StringMap::new();
    let ghost packages = plan.packages@;
    let mut i: usize = 0;
    proof {
        assert(r@.dom() =~= crate::command_layout::package_keys(packages.take(0)));
    }
    while i < plan.packages.len()
        invariant
            i <= packages.len(),
            packages == plan.packages@,
            r@.dom() == crate::command_layout::package_keys(packages.take(i as int)),
            forall|a: int|
                #[trigger] last_with_key(packages, a, i as int) ==> strings_view(
                    r@[packages[a].key@]@,
                ) == prefixes_for(plan.workspace_root@, packages[a].source@),
        decreases packages.len() - i,
    {
        let package = &plan.packages[i];
        let mut prefixes: Vec<String> = Vec::new();
        match local_workspace_source_prefix(plan.workspace_root.as_str(), package.source.as_str()) {
            Some(p) => prefixes.push(p),
            None => {},
        }
        proof {
            assert(strings_view(prefixes@) =~= prefixes_for(plan.workspace_root@, package.source@));
        }
        let ghost old_r = r@;
        let ghost key = package.key@;
        r.insert(package.key.clone(), prefixes);
        proof {
            let prev = packages.take(i as int);
            let next = packages.take(i + 1);
            assert(crate::command_layout::package_keys(next) =~= crate::command_layout::package_keys(prev).insert(key)) by {
                assert forall|k: Seq<char>| crate::command_layout::package_keys(next).contains(k) implies crate::command_layout::package_keys(prev).insert(key).contains(k) by {
                    let j = choose|j: int| 0 <= j < next.len() && (#[trigger] next[j]).key@ == k;
                    if j < i {
                        assert(prev[j] == next[j]);
                    }
                }
                assert forall|k: Seq<char>| crate::command_layout::package_keys(prev).insert(key).contains(k) implies crate::command_layout::package_keys(next).contains(k) by {
                    if k != key {
                        let j = choose|j: int| 0 <= j < prev.len() && (#[trigger] prev[j]).key@ == k;
                        assert(prev[j] == next[j]);
                    } else {
                        assert(next[i as int] == packages[i as int]);
                    }
                }
            }
            assert forall|a: int| #[trigger] last_with_key(packages, a, i + 1) implies strings_view(
                r@[packages[a].key@]@,
            ) == prefixes_for(plan.workspace_root@, packages[a].source@) by {
                if a < i {
                    assert(packages[a].key@ != key);
                    assert(last_with_key(packages, a, i as int));
                }
            }
        }
        i = i + 1;
    }
    assert(packages.take(i as int) =~= packages);
    r
}

} // verus!
