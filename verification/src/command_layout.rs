//! Which target triples a package is compiled for, and whether it also needs
//! host artifacts (build scripts, proc macros, host-only units).

use vstd::prelude::*;

use crate::model::{CommandSpec, Plan, Unit};
use crate::sorted::{sorted_insert, strictly_sorted};
use crate::string_map::StringMap;
use crate::text::{
    chars_of, chars_range, chars_start_with, has_prefix, seq_contains, str_contains, str_equal,
    string_from_chars, strings_view,
};

verus! {

/// The layout a package's build output needs.
#[derive(Debug)]
pub struct PackageLayoutRequirements {
    /// The target triples its units are compiled for, sorted and without repeats.
    pub target_triples: Vec<String>,
    /// Whether some unit is compiled for the host.
    pub needs_host_artifacts: bool,
}

/// The target triple that the arguments from index `i` on select: the first
/// non-empty `--target=<triple>`, or the argument after the first `--target`
/// (none when it is missing or empty).
pub open spec fn target_triple_from(args: Seq<Seq<char>>, i: int) -> Option<Seq<char>>
    decreases args.len() - i,
{
    if i < 0 || i >= args.len() {
        None
    } else if has_prefix(args[i], "--target="@) {
        if args[i].len() > "--target="@.len() {
            Some(args[i].skip("--target="@.len() as int))
        } else {
            target_triple_from(args, i + 1)
        }
    } else if args[i] == "--target"@ {
        if i + 1 < args.len() && args[i + 1].len() > 0 {
            Some(args[i + 1])
        } else {
            None
        }
    } else {
        target_triple_from(args, i + 1)
    }
}

/// The target triple a command is compiled for.
pub open spec fn spec_command_target_triple(command: CommandSpec) -> Option<Seq<char>> {
    target_triple_from(strings_view(command.args@), 0)
}

/// The target triple a command is compiled for: the value of its first
/// non-empty `--target=<triple>` argument, or the argument after its first
/// `--target` (`None` when that is missing or empty).
pub fn command_target_triple(command: &CommandSpec) -> (r: Option<String>)
    ensures
        r is Some <==> spec_command_target_triple(*command) is Some,
        r matches Some(t) ==> spec_command_target_triple(*command) == Some(t@),
{
    let inline = chars_of("--target=");
    proof {
        reveal_strlit("--target=");
    }
    let ghost args = strings_view(command.args@);
    let mut i: usize = 0;
    while i < command.args.len()
        invariant
            i <= command.args@.len(),
            args == strings_view(command.args@),
            inline@ == "--target="@,
            target_triple_from(args, 0) == target_triple_from(args, i as int),
        decreases command.args@.len() - i,
    {
        let arg = chars_of(command.args[i].as_str());
        assert(args[i as int] == arg@);
        if chars_start_with(&arg, &inline) {
            if arg.len() > inline.len() {
                let value = chars_range(&arg, inline.len(), arg.len());
                assert(value@ =~= arg@.skip(inline@.len() as int));
                return Some(string_from_chars(&value));
            }
            i = i + 1;
            continue;
        }
        if str_equal(command.args[i].as_str(), "--target") {
            if i + 1 < command.args.len() && command.args[i + 1].as_str().unicode_len() > 0 {
                return Some(command.args[i + 1].clone());
            }
            return None;
        }
        i = i + 1;
    }
    None
}

/// The triples the commands are compiled for.
pub open spec fn command_triples(commands: Seq<CommandSpec>) -> Set<Seq<char>> {
    Set::new(
        |t: Seq<char>|
            exists|i: int|
                0 <= i < commands.len() && spec_command_target_triple(#[trigger] commands[i])
                    == Some(t),
    )
}

/// The target triples of the commands, sorted and without repeats.
pub fn package_target_triples(commands: &Vec<CommandSpec>) -> (r: Vec<String>)
    ensures
        strictly_sorted(strings_view(r@)),
        strings_view(r@).to_set() == command_triples(commands@),
{
    let mut r: Vec<String> = Vec::new();
    let mut i: usize = 0;
    proof {
        assert(strings_view(r@).to_set() =~= Set::<Seq<char>>::empty());
    }
    while i < commands.len()
        invariant
            i <= commands@.len(),
            strictly_sorted(strings_view(r@)),
            strings_view(r@).to_set() == command_triples(commands@.take(i as int)),
        decreases commands@.len() - i,
    {
        let ghost before = strings_view(r@).to_set();
        match command_target_triple(&commands[i]) {
            Some(t) => {
                let ghost tv = t@;
                sorted_insert(&mut r, t);
                proof {
                    assert(strings_view(r@).to_set() =~= command_triples(commands@.take(i + 1))) by {
                        assert forall|x: Seq<char>| command_triples(commands@.take(i + 1)).contains(x) implies before.insert(tv).contains(x) by {
                            let j = choose|j: int|
                                0 <= j < commands@.take(i + 1).len()
                                    && spec_command_target_triple(#[trigger] commands@.take(i + 1)[j])
                                    == Some(x);
                            if j < i {
                                assert(commands@.take(i as int)[j] == commands@[j]);
                            }
                        }
                        assert forall|x: Seq<char>| before.insert(tv).contains(x) implies command_triples(commands@.take(i + 1)).contains(x) by {
                            if x == tv {
                                assert(commands@.take(i + 1)[i as int] == commands@[i as int]);
                            } else {
                                let j = choose|j: int|
                                    0 <= j < commands@.take(i as int).len()
                                        && spec_command_target_triple(#[trigger] commands@.take(i as int)[j]) == Some(x);
                                assert(commands@.take(i + 1)[j] == commands@[j]);
                            }
                        }
                    }
                }
            },
            None => {
                proof {
                    assert(strings_view(r@).to_set() =~= command_triples(commands@.take(i + 1))) by {
                        assert forall|x: Seq<char>| command_triples(commands@.take(i + 1)).contains(x) implies before.contains(x) by {
                            let j = choose|j: int|
                                0 <= j < commands@.take(i + 1).len()
                                    && spec_command_target_triple(#[trigger] commands@.take(i + 1)[j])
                                    == Some(x);
                            assert(j != i);
                            assert(commands@.take(i as int)[j] == commands@[j]);
                        }
                        assert forall|x: Seq<char>| before.contains(x) implies command_triples(commands@.take(i + 1)).contains(x) by {
                            let j = choose|j: int|
                                0 <= j < commands@.take(i as int).len()
                                    && spec_command_target_triple(#[trigger] commands@.take(i as int)[j]) == Some(x);
                            assert(commands@.take(i + 1)[j] == commands@[j]);
                        }
                    }
                }
            },
        }
        i = i + 1;
    }
    assert(commands@.take(i as int) =~= commands@);
    r
}

/// Whether some command is compiled without a target triple (for the host).
pub fn package_needs_host_artifacts(commands: &Vec<CommandSpec>) -> (r: bool)
    ensures
        r == exists|i: int|
            0 <= i < commands@.len() && spec_command_target_triple(#[trigger] commands@[i]) is None,
{
    let mut i: usize = 0;
    while i < commands.len()
        invariant
            i <= commands@.len(),
            forall|j: int| 0 <= j < i ==> spec_command_target_triple(#[trigger] commands@[j]) is Some,
        decreases commands@.len() - i,
    {
        if command_target_triple(&commands[i]).is_none() {
            return true;
        }
        i = i + 1;
    }
    false
}

} // verus!

verus! {

/// A unit that has to be built for the host: a build script, a proc macro,
/// or a unit compiled in a build-script mode.
pub open spec fn host_forced(u: Unit) -> bool {
    u.target_kind@ == "custom-build"@ || u.target_kind@ == "proc-macro"@ || seq_contains(
        u.compile_mode@,
        "build-script"@,
    )
}

/// The triples that the units of package `key` are compiled for.
pub open spec fn layout_triples(units: Seq<Unit>, key: Seq<char>) -> Set<Seq<char>> {
    Set::new(
        |t: Seq<char>|
            exists|i: int|
                0 <= i < units.len() && (#[trigger] units[i]).package_key@ == key && !host_forced(
                    units[i],
                ) && spec_command_target_triple(units[i].command) == Some(t),
    )
}

/// Whether some unit of package `key` is built for the host.
pub open spec fn layout_needs_host(units: Seq<Unit>, key: Seq<char>) -> bool {
    exists|i: int|
        0 <= i < units.len() && (#[trigger] units[i]).package_key@ == key && (host_forced(units[i])
            || spec_command_target_triple(units[i].command) is None)
}

/// The layout the units of package `key` need.
pub fn package_layout(units: &Vec<Unit>, key: &str) -> (r: PackageLayoutRequirements)
    ensures
        strictly_sorted(strings_view(r.target_triples@)),
        strings_view(r.target_triples@).to_set() == layout_triples(units@, key@),
        r.needs_host_artifacts == layout_needs_host(units@, key@),
{
    let mut triples: Vec<String> = Vec::new();
    let mut host = false;
    let mut i: usize = 0;
    proof {
        assert(strings_view(triples@).to_set() =~= layout_triples(units@.take(0), key@));
    }
    while i < units.len()
        invariant
            i <= units@.len(),
            strictly_sorted(strings_view(triples@)),
            strings_view(triples@).to_set() == layout_triples(units@.take(i as int), key@),
            host == layout_needs_host(units@.take(i as int), key@),
        decreases units@.len() - i,
    {
        let unit = &units[i];
        let ghost before = strings_view(triples@).to_set();
        let ghost prev = units@.take(i as int);
        let ghost next = units@.take(i + 1);
        proof {
            assert(next[i as int] == *unit);
            assert forall|j: int| 0 <= j < i implies next[j] == prev[j] by {}
        }
        if str_equal(unit.package_key.as_str(), key) {
            let forced = str_equal(unit.target_kind.as_str(), "custom-build") || str_equal(
                unit.target_kind.as_str(),
                "proc-macro",
            ) || str_contains(unit.compile_mode.as_str(), "build-script");
            if forced {
                host = true;
                proof {
                    assert(layout_triples(next, key@) =~= before) by {
                        assert forall|t: Seq<char>| layout_triples(next, key@).contains(t) implies before.contains(t) by {
                            let j = choose|j: int|
                                0 <= j < next.len() && (#[trigger] next[j]).package_key@ == key@
                                    && !host_forced(next[j]) && spec_command_target_triple(next[j].command) == Some(t);
                            assert(j != i);
                            assert(prev[j] == next[j]);
                        }
                        assert forall|t: Seq<char>| before.contains(t) implies layout_triples(next, key@).contains(t) by {
                            let j = choose|j: int|
                                0 <= j < prev.len() && (#[trigger] prev[j]).package_key@ == key@
                                    && !host_forced(prev[j]) && spec_command_target_triple(prev[j].command) == Some(t);
                            assert(prev[j] == next[j]);
                        }
                    }
                }
            } else {
                match command_target_triple(&unit.command) {
                    Some(t) => {
                        let ghost tv = t@;
                        sorted_insert(&mut triples, t);
                        proof {
                            assert(layout_triples(next, key@) =~= before.insert(tv)) by {
                                assert forall|x: Seq<char>| layout_triples(next, key@).contains(x) implies before.insert(tv).contains(x) by {
                                    let j = choose|j: int|
                                        0 <= j < next.len() && (#[trigger] next[j]).package_key@ == key@
                                            && !host_forced(next[j]) && spec_command_target_triple(next[j].command) == Some(x);
                                    if j < i {
                                        assert(prev[j] == next[j]);
                                    }
                                }
                                assert forall|x: Seq<char>| before.insert(tv).contains(x) implies layout_triples(next, key@).contains(x) by {
                                    if x != tv {
                                        let j = choose|j: int|
                                            0 <= j < prev.len() && (#[trigger] prev[j]).package_key@ == key@
                                                && !host_forced(prev[j]) && spec_command_target_triple(prev[j].command) == Some(x);
                                        assert(prev[j] == next[j]);
                                    }
                                }
                            }
                            assert(layout_needs_host(next, key@) == host) by {
                                if layout_needs_host(next, key@) {
                                    let j = choose|j: int|
                                        0 <= j < next.len() && (#[trigger] next[j]).package_key@ == key@ && (
                                        host_forced(next[j]) || spec_command_target_triple(next[j].command) is None);
                                    if j < i {
                                        assert(prev[j] == next[j]);
                                    }
                                }
                                if host {
                                    let j = choose|j: int|
                                        0 <= j < prev.len() && (#[trigger] prev[j]).package_key@ == key@ && (
                                        host_forced(prev[j]) || spec_command_target_triple(prev[j].command) is None);
                                    assert(prev[j] == next[j]);
                                }
                            }
                        }
                    },
                    None => {
                        host = true;
                        proof {
                            assert(layout_triples(next, key@) =~= before) by {
                                assert forall|t: Seq<char>| layout_triples(next, key@).contains(t) implies before.contains(t) by {
                                    let j = choose|j: int|
                                        0 <= j < next.len() && (#[trigger] next[j]).package_key@ == key@
                                            && !host_forced(next[j]) && spec_command_target_triple(next[j].command) == Some(t);
                                    assert(j != i);
                                    assert(prev[j] == next[j]);
                                }
                                assert forall|t: Seq<char>| before.contains(t) implies layout_triples(next, key@).contains(t) by {
                                    let j = choose|j: int|
                                        0 <= j < prev.len() && (#[trigger] prev[j]).package_key@ == key@
                                            && !host_forced(prev[j]) && spec_command_target_triple(prev[j].command) == Some(t);
                                    assert(prev[j] == next[j]);
                                }
                            }
                        }
                    },
                }
            }
        } else {
            proof {
                assert(layout_triples(next, key@) =~= before) by {
                    assert forall|t: Seq<char>| layout_triples(next, key@).contains(t) implies before.contains(t) by {
                        let j = choose|j: int|
                            0 <= j < next.len() && (#[trigger] next[j]).package_key@ == key@
                                && !host_forced(next[j]) && spec_command_target_triple(next[j].command) == Some(t);
                        assert(j != i);
                        assert(prev[j] == next[j]);
                    }
                    assert forall|t: Seq<char>| before.contains(t) implies layout_triples(next, key@).contains(t) by {
                        let j = choose|j: int|
                            0 <= j < prev.len() && (#[trigger] prev[j]).package_key@ == key@
                                && !host_forced(prev[j]) && spec_command_target_triple(prev[j].command) == Some(t);
                        assert(prev[j] == next[j]);
                    }
                }
                assert(layout_needs_host(next, key@) == host) by {
                    if layout_needs_host(next, key@) {
                        let j = choose|j: int|
                            0 <= j < next.len() && (#[trigger] next[j]).package_key@ == key@ && (
                            host_forced(next[j]) || spec_command_target_triple(next[j].command) is None);
                        assert(j != i);
                        assert(prev[j] == next[j]);
                    }
                    if host {
                        let j = choose|j: int|
                            0 <= j < prev.len() && (#[trigger] prev[j]).package_key@ == key@ && (
                            host_forced(prev[j]) || spec_command_target_triple(prev[j].command) is None);
                        assert(prev[j] == next[j]);
                    }
                }
            }
        }
        i = i + 1;
    }
    assert(units@.take(i as int) =~= units@);
    PackageLayoutRequirements { target_triples: triples, needs_host_artifacts: host }
}

} // verus!

verus! {

/// The keys of the packages.
pub open spec fn package_keys(packages: Seq<crate::model::PlanPackage>) -> Set<Seq<char>> {
    Set::new(
        |k: Seq<char>| exists|i: int| 0 <= i < packages.len() && (#[trigger] packages[i]).key@ == k,
    )
}

/// Two packages share the key `k`.
pub open spec fn repeated_key(packages: Seq<crate::model::PlanPackage>, k: Seq<char>) -> bool {
    exists|i: int, j: int|
        0 <= i < j < packages.len() && (#[trigger] packages[i]).key@ == k && (#[trigger] packages[j]).key@
            == k
}

/// The layout stored for package `key`: what its units need, or nothing
/// (no triples, no host artifacts) when two packages share the key.
pub open spec fn layout_for(
    v: PackageLayoutRequirements,
    packages: Seq<crate::model::PlanPackage>,
    units: Seq<Unit>,
    key: Seq<char>,
) -> bool {
    &&& strictly_sorted(strings_view(v.target_triples@))
    &&& if repeated_key(packages, key) {
        v.target_triples@.len() == 0 && !v.needs_host_artifacts
    } else {
        strings_view(v.target_triples@).to_set() == layout_triples(units, key)
            && v.needs_host_artifacts == layout_needs_host(units, key)
    }
}

/// The layout each package of the plan needs, by package key.
pub fn package_layout_by_key(plan: &Plan) -> (r: StringMap<PackageLayoutRequirements>)
    ensures
        r@.dom() == package_keys(plan.packages@),
        forall|k: Seq<char>| #[trigger]
            r@.contains_key(k) ==> layout_for(r@[k], plan.packages@, plan.units@, k),
{
    let mut r: StringMap<PackageLayoutRequirements> = StringMap::new();
    let mut seen = crate::string_map::StringSet::new();
    let ghost packages = plan.packages@;
    let mut i: usize = 0;
    proof {
        assert(r@.dom() =~= package_keys(packages.take(0)));
        assert(seen@ =~= package_keys(packages.take(0)));
    }
    while i < plan.packages.len()
        invariant
            i <= packages.len(),
            packages == plan.packages@,
            r@.dom() == package_keys(packages.take(i as int)),
            seen@ == package_keys(packages.take(i as int)),
            forall|k: Seq<char>| #[trigger]
                r@.contains_key(k) ==> layout_for(r@[k], packages.take(i as int), plan.units@, k),
        decreases packages.len() - i,
    {
        let key = &plan.packages[i].key;
        let ghost prev = packages.take(i as int);
        let ghost next = packages.take(i + 1);
        proof {
            assert(next[i as int] == packages[i as int]);
            assert forall|j: int| 0 <= j < i implies next[j] == prev[j] by {}
            assert(package_keys(next) =~= package_keys(prev).insert(key@)) by {
                assert forall|k: Seq<char>| package_keys(next).contains(k) implies package_keys(prev).insert(key@).contains(k) by {
                    let j = choose|j: int| 0 <= j < next.len() && (#[trigger] next[j]).key@ == k;
                    if j < i {
                        assert(prev[j] == next[j]);
                    }
                }
                assert forall|k: Seq<char>| package_keys(prev).insert(key@).contains(k) implies package_keys(next).contains(k) by {
                    if k != key@ {
                        let j = choose|j: int| 0 <= j < prev.len() && (#[trigger] prev[j]).key@ == k;
                        assert(prev[j] == next[j]);
                    }
                }
            }
        }
        let ghost old_r = r@;
        let repeated = seen.contains(key.as_str());
        if repeated {
            r.insert(key.clone(), PackageLayoutRequirements { target_triples: Vec::new(), needs_host_artifacts: false });
        } else {
            r.insert(key.clone(), package_layout(&plan.units, key.as_str()));
            seen.insert(key.clone());
        }
        proof {
            if repeated {
                assert(seen@ =~= package_keys(next));
            }
            assert forall|k: Seq<char>| #[trigger] r@.contains_key(k) implies layout_for(r@[k], next, plan.units@, k) by {
                if k == key@ {
                    if repeated {
                        let j = choose|j: int| 0 <= j < prev.len() && (#[trigger] prev[j]).key@ == k;
                        assert(next[j].key@ == k && next[i as int].key@ == k);
                        assert(repeated_key(next, k));
                        assert(strictly_sorted(strings_view(r@[k].target_triples@))) by {
                            assert(strings_view(r@[k].target_triples@) =~= Seq::<Seq<char>>::empty());
                        }
                    } else {
                        assert(!repeated_key(next, k)) by {
                            if repeated_key(next, k) {
                                let (a, b) = choose|a: int, b: int|
                                    0 <= a < b < next.len() && (#[trigger] next[a]).key@ == k && (#[trigger] next[b]).key@ == k;
                                assert(prev[a] == next[a]);
                                assert(package_keys(prev).contains(k));
                            }
                        }
                    }
                } else {
                    assert(old_r.contains_key(k));
                    assert(repeated_key(next, k) == repeated_key(prev, k)) by {
                        if repeated_key(next, k) {
                            let (a, b) = choose|a: int, b: int|
                                0 <= a < b < next.len() && (#[trigger] next[a]).key@ == k && (#[trigger] next[b]).key@ == k;
                            assert(b != i);
                            assert(prev[a] == next[a]);
                            assert(prev[b] == next[b]);
                        }
                        if repeated_key(prev, k) {
                            let (a, b) = choose|a: int, b: int|
                                0 <= a < b < prev.len() && (#[trigger] prev[a]).key@ == k && (#[trigger] prev[b]).key@ == k;
                            assert(prev[a] == next[a]);
                            assert(prev[b] == next[b]);
                        }
                    }
                }
            }
        }
        i = i + 1;
    }
    assert(packages.take(i as int) =~= packages);
    r
}

} // verus!
