//! Ordering the members of a workspace so that each comes after the members
//! it depends on, with ties broken by name.

use vstd::prelude::*;

use crate::host_path::{path_strip_prefix, strip_path_prefix};
use crate::model::{same_summary, PackageSummary};
use crate::plan_package::lemma_distinct_indices_len;
use crate::sorted::{
    lemma_seq_lt_irreflexive, lemma_seq_lt_total, lemma_seq_lt_transitive, sorted_unique, strictly_sorted,
};
use crate::nix_string::{join, join_strings};
use crate::text::{seq_lt, str_equal, str_less, strings_contain, strings_view};

verus! {

/// No two members share a name.
pub open spec fn names_distinct(packages: Seq<PackageSummary>) -> bool {
    forall|i: int, j: int|
        0 <= i < j < packages.len() ==> (#[trigger] packages[i]).name@ != (#[trigger] packages[j]).name@
}

/// Member `i` lists member `j` among its workspace dependencies.
pub open spec fn member_depends_on(packages: Seq<PackageSummary>, i: int, j: int) -> bool {
    &&& 0 <= i < packages.len()
    &&& 0 <= j < packages.len()
    &&& exists|t: int|
        0 <= t < packages[i].workspace_dependencies@.len()
            && #[trigger] packages[i].workspace_dependencies@[t]@ == packages[j].name@
}

/// Member `i` is not in `listed` yet, and every member it depends on is.
pub open spec fn is_ready(packages: Seq<PackageSummary>, listed: Seq<usize>, i: int) -> bool {
    &&& 0 <= i < packages.len()
    &&& !listed.contains(i as usize)
    &&& forall|j: int| #[trigger] member_depends_on(packages, i, j) ==> listed.contains(j as usize)
}

/// `order` lists every member once. Its first `m` entries are chosen one at a
/// time: each is, of the members whose dependencies are all listed before it,
/// the one with the least name. After them no member is ready (the rest lie
/// on or behind a dependency cycle), and the rest follow in name order.
pub open spec fn is_member_order(packages: Seq<PackageSummary>, order: Seq<usize>, m: int) -> bool {
    &&& order.len() == packages.len()
    &&& order.no_duplicates()
    &&& forall|k: int| 0 <= k < order.len() ==> #[trigger] order[k] < packages.len()
    &&& 0 <= m <= order.len()
    &&& forall|k: int|
        0 <= k < m ==> #[trigger] is_ready(packages, order.take(k), order[k] as int)
    &&& forall|k: int, j: int|
        0 <= k < m && #[trigger] is_ready(packages, order.take(k), j) && j != order[k] ==> seq_lt(
            packages[order[k] as int].name@,
            #[trigger] packages[j].name@,
        )
    &&& forall|j: int| !#[trigger] is_ready(packages, order.take(m), j)
    &&& forall|a: int, b: int|
        m <= a < b < order.len() ==> seq_lt(
            packages[#[trigger] order[a] as int].name@,
            packages[#[trigger] order[b] as int].name@,
        )
}

/// `p` is a chain of members, each depending on the next.
pub open spec fn is_member_chain(packages: Seq<PackageSummary>, p: Seq<int>) -> bool {
    &&& p.len() > 0
    &&& forall|k: int| 0 <= k < p.len() - 1 ==> #[trigger] member_depends_on(packages, p[k], p[k + 1])
}

/// No member depends on itself through a chain of one or more dependencies.
pub open spec fn members_acyclic(packages: Seq<PackageSummary>) -> bool {
    forall|p: Seq<int>| #[trigger] is_member_chain(packages, p) && p.len() > 1 ==> p[0] != p.last()
}

/// When no member is ready, a chain of any length starts at each member that
/// is not listed, through members that are not listed.
proof fn lemma_stuck_chain(packages: Seq<PackageSummary>, listed: Seq<usize>, u: int, len: nat) -> (p: Seq<int>)
    requires
        0 <= u < packages.len(),
        !listed.contains(u as usize),
        forall|j: int| !#[trigger] is_ready(packages, listed, j),
        len > 0,
    ensures
        p.len() == len,
        p[0] == u,
        is_member_chain(packages, p),
        forall|k: int| 0 <= k < p.len() ==> 0 <= #[trigger] p[k] < packages.len(),
    decreases len,
{
    if len == 1 {
        seq![u]
    } else {
        assert(!is_ready(packages, listed, u));
        assert(exists|j: int| #[trigger] member_depends_on(packages, u, j) && !listed.contains(j as usize));
        let j = choose|j: int| #[trigger] member_depends_on(packages, u, j) && !listed.contains(j as usize);
        let rest = lemma_stuck_chain(packages, listed, j, (len - 1) as nat);
        let p = seq![u] + rest;
        assert forall|k: int| 0 <= k < p.len() - 1 implies #[trigger] member_depends_on(packages, p[k], p[k + 1]) by {
            if k > 0 {
                let kk = k - 1;
                assert(p[k] == rest[kk] && p[k + 1] == rest[kk + 1]);
                assert(member_depends_on(packages, rest[kk], rest[kk + 1]));
            } else {
                assert(p[0] == u && p[1] == rest[0]);
            }
        }
        assert forall|k: int| 0 <= k < p.len() implies 0 <= #[trigger] p[k] < packages.len() by {
            if k > 0 {
                assert(p[k] == rest[k - 1]);
            }
        }
        p
    }
}

/// A sequence of more than `n` integers in `0..n` repeats one.
proof fn lemma_pigeonhole(p: Seq<int>, n: int) -> (ab: (int, int))
    requires
        0 <= n < p.len(),
        forall|k: int| 0 <= k < p.len() ==> 0 <= #[trigger] p[k] < n,
    ensures
        0 <= ab.0 < ab.1 < p.len(),
        p[ab.0] == p[ab.1],
{
    if p.no_duplicates() {
        p.unique_seq_to_set();
        vstd::set_lib::lemma_int_range(0, n);
        assert(p.to_set().subset_of(vstd::set_lib::set_int_range(0, n))) by {
            assert forall|x: int| p.to_set().contains(x) implies vstd::set_lib::set_int_range(0, n).contains(x) by {
                let k = choose|k: int| 0 <= k < p.len() && p[k] == x;
                assert(0 <= p[k] < n);
            }
        }
        vstd::set_lib::lemma_len_subset(p.to_set(), vstd::set_lib::set_int_range(0, n));
        assert(false);
    }
    let (a, b) = choose|a: int, b: int| 0 <= a < p.len() && 0 <= b < p.len() && a != b && p[a] == p[b];
    if a < b {
        (a, b)
    } else {
        (b, a)
    }
}

/// In a workspace whose members depend on each other without cycles, the
/// member order takes every member as a ready one, so each member comes
/// after all the members it depends on.
pub proof fn lemma_acyclic_members_dependencies_first(
    packages: Seq<PackageSummary>,
    order: Seq<usize>,
    m: int,
)
    requires
        is_member_order(packages, order, m),
        members_acyclic(packages),
    ensures
        m == order.len(),
        forall|a: int, b: int|
            0 <= a < b < order.len() ==> !#[trigger] member_depends_on(packages, order[a] as int, order[b] as int),
{
    if m < order.len() {
        let listed = order.take(m);
        let u = order[m] as int;
        assert(!listed.contains(u as usize)) by {
            if listed.contains(u as usize) {
                let c = choose|c: int| 0 <= c < listed.len() && listed[c] == u as usize;
                assert(order[c] == order[m]);
            }
        }
        let n = packages.len() as int;
        let p = lemma_stuck_chain(packages, listed, u, (n + 1) as nat);
        let (a, b) = lemma_pigeonhole(p, n);
        let sub = p.subrange(a, b + 1);
        assert(is_member_chain(packages, sub)) by {
            assert forall|k: int| 0 <= k < sub.len() - 1 implies #[trigger] member_depends_on(
                packages,
                sub[k],
                sub[k + 1],
            ) by {
                assert(sub[k] == p[a + k] && sub[k + 1] == p[a + k + 1]);
            }
        }
        assert(sub[0] == sub.last());
        assert(false);
    }
    assert forall|a: int, b: int| 0 <= a < b < order.len() implies !#[trigger] member_depends_on(
        packages,
        order[a] as int,
        order[b] as int,
    ) by {
        if member_depends_on(packages, order[a] as int, order[b] as int) {
            assert(is_ready(packages, order.take(a), order[a] as int));
            assert(order.take(a).contains(order[b]));
            let c = choose|c: int| 0 <= c < order.take(a).len() && order.take(a)[c] == order[b];
            assert(order[c] == order[b]);
        }
    }
}

/// Whether every member that member `i` depends on is marked in `listed`.
fn dependencies_listed(
    packages: &Vec<PackageSummary>,
    listed: &Vec<bool>,
    i: usize,
    Ghost(order): Ghost<Seq<usize>>,
) -> (r: bool)
    requires
        listed@.len() == packages@.len(),
        i < packages@.len(),
        forall|x: int| 0 <= x < packages@.len() ==> (#[trigger] listed@[x] <==> order.contains(x as usize)),
    ensures
        r <==> forall|j: int| #[trigger] member_depends_on(packages@, i as int, j) ==> order.contains(j as usize),
{
    let deps = &packages[i].workspace_dependencies;
    let n = packages.len();
    let mut t: usize = 0;
    while t < deps.len()
        invariant
            n == packages@.len(),
            listed@.len() == n,
            i < n,
            deps@ == packages@[i as int].workspace_dependencies@,
            t <= deps@.len(),
            forall|x: int| 0 <= x < n ==> (#[trigger] listed@[x] <==> order.contains(x as usize)),
            forall|u: int, j: int|
                #![trigger deps@[u], packages@[j]]
                0 <= u < t && 0 <= j < n && deps@[u]@ == packages@[j].name@ ==> order.contains(j as usize),
        decreases deps@.len() - t,
    {
        let mut j: usize = 0;
        while j < n
            invariant
                n == packages@.len(),
                listed@.len() == n,
                i < n,
                deps@ == packages@[i as int].workspace_dependencies@,
                t < deps@.len(),
                forall|x: int| 0 <= x < n ==> (#[trigger] listed@[x] <==> order.contains(x as usize)),
                j <= n,
                forall|y: int|
                    0 <= y < j && #[trigger] packages@[y].name@ == deps@[t as int]@ ==> order.contains(y as usize),
            decreases n - j,
        {
            if str_equal(packages[j].name.as_str(), deps[t].as_str()) && !listed[j] {
                proof {
                    assert(member_depends_on(packages@, i as int, j as int)) by {
                        assert(deps@[t as int]@ == packages@[j as int].name@);
                    }
                }
                return false;
            }
            j = j + 1;
        }
        proof {
            assert forall|u: int, y: int|
                #![trigger deps@[u], packages@[y]]
                0 <= u < t + 1 && 0 <= y < n && deps@[u]@ == packages@[y].name@ implies order.contains(y as usize) by {
                if u == t {
                    assert(packages@[y].name@ == deps@[t as int]@);
                }
            }
        }
        t = t + 1;
    }
    proof {
        assert forall|j: int| #[trigger] member_depends_on(packages@, i as int, j) implies order.contains(j as usize) by {
            let u = choose|u: int|
                0 <= u < packages@[i as int].workspace_dependencies@.len()
                    && #[trigger] packages@[i as int].workspace_dependencies@[u]@ == packages@[j].name@;
            assert(deps@[u]@ == packages@[j].name@);
        }
    }
    true
}

/// The ready member with the least name, if any member is ready.
fn least_ready(
    packages: &Vec<PackageSummary>,
    listed: &Vec<bool>,
    Ghost(order): Ghost<Seq<usize>>,
) -> (r: Option<usize>)
    requires
        names_distinct(packages@),
        listed@.len() == packages@.len(),
        forall|x: int| 0 <= x < packages@.len() ==> (#[trigger] listed@[x] <==> order.contains(x as usize)),
    ensures
        r is None ==> forall|j: int| !#[trigger] is_ready(packages@, order, j),
        r matches Some(i) ==> is_ready(packages@, order, i as int) && forall|j: int|
            #[trigger] is_ready(packages@, order, j) && j != i ==> seq_lt(
                packages@[i as int].name@,
                packages@[j].name@,
            ),
{
    let n = packages.len();
    let mut best: Option<usize> = None;
    let mut i: usize = 0;
    while i < n
        invariant
            n == packages@.len(),
            names_distinct(packages@),
            listed@.len() == n,
            forall|x: int| 0 <= x < n ==> (#[trigger] listed@[x] <==> order.contains(x as usize)),
            i <= n,
            best is None ==> forall|j: int| 0 <= j < i ==> !#[trigger] is_ready(packages@, order, j),
            best matches Some(b) ==> b < i && is_ready(packages@, order, b as int) && forall|j: int|
                0 <= j < i && #[trigger] is_ready(packages@, order, j) && j != b ==> seq_lt(
                    packages@[b as int].name@,
                    packages@[j].name@,
                ),
        decreases n - i,
    {
        if !listed[i] && dependencies_listed(packages, listed, i, Ghost(order)) {
            let ghost ii = i as int;
            proof {
                assert(is_ready(packages@, order, ii));
            }
            match best {
                None => {
                    best = Some(i);
                },
                Some(b) => {
                    if str_less(packages[i].name.as_str(), packages[b].name.as_str()) {
                        proof {
                            assert forall|j: int|
                                0 <= j < i + 1 && #[trigger] is_ready(packages@, order, j) && j != ii implies seq_lt(
                                    packages@[ii].name@,
                                    packages@[j].name@,
                                ) by {
                                if j != b {
                                    lemma_seq_lt_transitive(
                                        packages@[ii].name@,
                                        packages@[b as int].name@,
                                        packages@[j].name@,
                                    );
                                }
                            }
                        }
                        best = Some(i);
                    } else {
                        proof {
                            assert(packages@[b as int].name@ != packages@[ii].name@);
                            lemma_seq_lt_total(packages@[b as int].name@, packages@[ii].name@);
                        }
                    }
                },
            }
        } else {
            proof {
                if is_ready(packages@, order, i as int) {
                    assert(!listed@[i as int]);
                }
            }
        }
        i = i + 1;
    }
    best
}

/// The unlisted member with the least name, if any member is unlisted.
fn least_unlisted(packages: &Vec<PackageSummary>, listed: &Vec<bool>) -> (r: Option<usize>)
    requires
        names_distinct(packages@),
        listed@.len() == packages@.len(),
    ensures
        r is None ==> forall|j: int| 0 <= j < packages@.len() ==> #[trigger] listed@[j],
        r matches Some(i) ==> i < packages@.len() && !listed@[i as int] && forall|j: int|
            0 <= j < packages@.len() && !#[trigger] listed@[j] && j != i ==> seq_lt(
                packages@[i as int].name@,
                packages@[j].name@,
            ),
{
    let n = packages.len();
    let mut best: Option<usize> = None;
    let mut i: usize = 0;
    while i < n
        invariant
            n == packages@.len(),
            names_distinct(packages@),
            listed@.len() == n,
            i <= n,
            best is None ==> forall|j: int| 0 <= j < i ==> #[trigger] listed@[j],
            best matches Some(b) ==> b < i && !listed@[b as int] && forall|j: int|
                0 <= j < i && !#[trigger] listed@[j] && j != b ==> seq_lt(
                    packages@[b as int].name@,
                    packages@[j].name@,
                ),
        decreases n - i,
    {
        if !listed[i] {
            let ghost ii = i as int;
            match best {
                None => {
                    best = Some(i);
                },
                Some(b) => {
                    if str_less(packages[i].name.as_str(), packages[b].name.as_str()) {
                        proof {
                            assert forall|j: int|
                                0 <= j < i + 1 && !#[trigger] listed@[j] && j != ii implies seq_lt(
                                    packages@[ii].name@,
                                    packages@[j].name@,
                                ) by {
                                if j != b {
                                    lemma_seq_lt_transitive(
                                        packages@[ii].name@,
                                        packages@[b as int].name@,
                                        packages@[j].name@,
                                    );
                                }
                            }
                        }
                        best = Some(i);
                    } else {
                        proof {
                            assert(packages@[b as int].name@ != packages@[ii].name@);
                            lemma_seq_lt_total(packages@[b as int].name@, packages@[ii].name@);
                        }
                    }
                },
            }
        }
        i = i + 1;
    }
    best
}

/// The members in dependency order: repeatedly the ready member (all of
/// whose workspace dependencies are listed) with the least name; members
/// left over because of a dependency cycle follow in name order.
pub fn topologically_sort_packages(packages: Vec<PackageSummary>) -> (r: Vec<PackageSummary>)
    requires
        names_distinct(packages@),
    ensures
        exists|order: Seq<usize>, m: int|
            #[trigger] is_member_order(packages@, order, m) && r@.len() == order.len() && forall|k: int|
                0 <= k < r@.len() ==> same_summary(r@[k], packages@[#[trigger] order[k] as int]),
{
    let n = packages.len();
    let mut listed: Vec<bool> = Vec::new();
    let mut x: usize = 0;
    while x < n
        invariant
            n == packages@.len(),
            x <= n,
            listed@.len() == x,
            forall|y: int| 0 <= y < x ==> !#[trigger] listed@[y],
        decreases n - x,
    {
        listed.push(false);
        x = x + 1;
    }
    let mut order: Vec<usize> = Vec::new();
    let mut done = false;
    while !done
        invariant
            n == packages@.len(),
            names_distinct(packages@),
            listed@.len() == n,
            order@.no_duplicates(),
            order@.len() <= n,
            forall|k: int| 0 <= k < order@.len() ==> #[trigger] order@[k] < n,
            forall|y: int| 0 <= y < n ==> (#[trigger] listed@[y] <==> order@.contains(y as usize)),
            forall|k: int|
                0 <= k < order@.len() ==> #[trigger] is_ready(packages@, order@.take(k), order@[k] as int),
            forall|k: int, j: int|
                0 <= k < order@.len() && #[trigger] is_ready(packages@, order@.take(k), j) && j
                    != order@[k] ==> seq_lt(packages@[order@[k] as int].name@, #[trigger] packages@[j].name@),
            done ==> forall|j: int| !#[trigger] is_ready(packages@, order@, j),
        decreases n - order@.len(), if done { 0int } else { 1int },
    {
        match least_ready(&packages, &listed, Ghost(order@)) {
            None => {
                done = true;
            },
            Some(i) => {
                let ghost before = order@;
                proof {
                    assert(!before.contains(i));
                    assert(before.push(i).no_duplicates()) by {
                        assert forall|a: int, b: int| 0 <= a < b < before.len() + 1 implies before.push(i)[a] != before.push(i)[b] by {
                            if b == before.len() {
                                assert(before.push(i)[a] == before[a]);
                            } else {
                                assert(before[a] != before[b]);
                            }
                        }
                    }
                    assert forall|k: int| 0 <= k < before.len() + 1 implies #[trigger] before.push(i)[k] < n by {
                        if k < before.len() {
                            assert(before.push(i)[k] == before[k]);
                        }
                    }
                    lemma_distinct_indices_len(before.push(i), n as int);
                }
                listed.set(i, true);
                order.push(i);
                proof {
                    assert(order@ == before.push(i));
                    assert forall|y: int| 0 <= y < n implies (#[trigger] listed@[y] <==> order@.contains(y as usize)) by {
                        if order@.contains(y as usize) && y != i {
                            let k = choose|k: int| 0 <= k < order@.len() && order@[k] == y as usize;
                            assert(before[k] == y as usize);
                        }
                        if before.contains(y as usize) {
                            let k = choose|k: int| 0 <= k < before.len() && before[k] == y as usize;
                            assert(order@[k] == y as usize);
                        }
                        if y == i {
                            assert(order@[before.len() as int] == i);
                        }
                    }
                    assert forall|k: int| 0 <= k < order@.len() implies order@.take(k) == before.take(k) || k == before.len() by {
                        if k < before.len() {
                            assert(order@.take(k) =~= before.take(k));
                        }
                    }
                    assert(order@.take(before.len() as int) =~= before);
                    assert forall|k: int|
                        0 <= k < order@.len() implies #[trigger] is_ready(packages@, order@.take(k), order@[k] as int) by {
                        if k < before.len() {
                            assert(order@.take(k) =~= before.take(k));
                            assert(order@[k] == before[k]);
                        }
                    }
                    assert forall|k: int, j: int|
                        0 <= k < order@.len() && #[trigger] is_ready(packages@, order@.take(k), j) && j
                            != order@[k] implies seq_lt(packages@[order@[k] as int].name@, #[trigger] packages@[j].name@) by {
                        if k < before.len() {
                            assert(order@.take(k) =~= before.take(k));
                            assert(order@[k] == before[k]);
                            assert(is_ready(packages@, before.take(k), j));
                        }
                    }
                }
            },
        }
    }
    let ghost m = order@.len() as int;
    let ghost first = order@;
    let mut done = false;
    while !done
        invariant
            n == packages@.len(),
            names_distinct(packages@),
            listed@.len() == n,
            order@.no_duplicates(),
            order@.len() <= n,
            0 <= m <= order@.len(),
            first.len() == m,
            order@.take(m) == first,
            forall|k: int|
                0 <= k < m ==> #[trigger] is_ready(packages@, first.take(k), first[k] as int),
            forall|k: int, j: int|
                0 <= k < m && #[trigger] is_ready(packages@, first.take(k), j) && j != first[k]
                    ==> seq_lt(packages@[first[k] as int].name@, #[trigger] packages@[j].name@),
            forall|j: int| !#[trigger] is_ready(packages@, first, j),
            forall|k: int| 0 <= k < order@.len() ==> #[trigger] order@[k] < n,
            forall|y: int| 0 <= y < n ==> (#[trigger] listed@[y] <==> order@.contains(y as usize)),
            forall|a: int, b: int|
                m <= a < b < order@.len() ==> seq_lt(
                    packages@[#[trigger] order@[a] as int].name@,
                    packages@[#[trigger] order@[b] as int].name@,
                ),
            forall|a: int, j: int|
                m <= a < order@.len() && 0 <= j < n && !#[trigger] listed@[j] ==> seq_lt(
                    packages@[#[trigger] order@[a] as int].name@,
                    packages@[j].name@,
                ),
            done ==> forall|y: int| 0 <= y < n ==> #[trigger] listed@[y],
        decreases n - order@.len(), if done { 0int } else { 1int },
    {
        match least_unlisted(&packages, &listed) {
            None => {
                done = true;
            },
            Some(i) => {
                let ghost before = order@;
                let ghost before_listed = listed@;
                proof {
                    assert(!before.contains(i));
                    assert(before.push(i).no_duplicates()) by {
                        assert forall|a: int, b: int| 0 <= a < b < before.len() + 1 implies before.push(i)[a] != before.push(i)[b] by {
                            if b == before.len() {
                                assert(before.push(i)[a] == before[a]);
                            } else {
                                assert(before[a] != before[b]);
                            }
                        }
                    }
                    assert forall|k: int| 0 <= k < before.len() + 1 implies #[trigger] before.push(i)[k] < n by {
                        if k < before.len() {
                            assert(before.push(i)[k] == before[k]);
                        }
                    }
                    lemma_distinct_indices_len(before.push(i), n as int);
                }
                listed.set(i, true);
                order.push(i);
                proof {
                    assert(order@ == before.push(i));
                    assert(order@.take(m) =~= before.take(m));
                    assert forall|y: int| 0 <= y < n implies (#[trigger] listed@[y] <==> order@.contains(y as usize)) by {
                        if order@.contains(y as usize) && y != i {
                            let k = choose|k: int| 0 <= k < order@.len() && order@[k] == y as usize;
                            assert(before[k] == y as usize);
                        }
                        if before.contains(y as usize) {
                            let k = choose|k: int| 0 <= k < before.len() && before[k] == y as usize;
                            assert(order@[k] == y as usize);
                        }
                        if y == i {
                            assert(order@[before.len() as int] == i);
                        }
                    }
                    assert forall|a: int, b: int|
                        m <= a < b < order@.len() implies seq_lt(
                            packages@[#[trigger] order@[a] as int].name@,
                            packages@[#[trigger] order@[b] as int].name@,
                        ) by {
                        assert(order@[a] == before[a]);
                        if b < before.len() {
                            assert(order@[b] == before[b]);
                        } else {
                            assert(!before_listed[i as int]);
                        }
                    }
                    assert forall|a: int, j: int|
                        m <= a < order@.len() && 0 <= j < n && !#[trigger] listed@[j] implies seq_lt(
                            packages@[#[trigger] order@[a] as int].name@,
                            packages@[j].name@,
                        ) by {
                        assert(!before_listed[j]);
                        if a < before.len() {
                            assert(order@[a] == before[a]);
                        }
                    }
                }
            },
        }
    }
    proof {
        assert forall|x: int| 0 <= x < n implies order@.contains(#[trigger] (x as usize)) by {
            assert(listed@[x]);
        }
        crate::plan_package::lemma_indices_cover(order@, n as int);
        assert(order@.take(m) == first);
        assert forall|k: int| 0 <= k < m implies order@.take(k) == first.take(k) && order@[k] == first[k] by {
            assert(order@.take(k) =~= first.take(k));
            assert(order@[k] == order@.take(m)[k]);
        }
        assert forall|k: int|
            0 <= k < m implies #[trigger] is_ready(packages@, order@.take(k), order@[k] as int) by {
            assert(order@.take(k) == first.take(k) && order@[k] == first[k]);
        }
        assert forall|k: int, j: int|
            0 <= k < m && #[trigger] is_ready(packages@, order@.take(k), j) && j != order@[k] implies seq_lt(
                packages@[order@[k] as int].name@,
                #[trigger] packages@[j].name@,
            ) by {
            assert(order@.take(k) == first.take(k) && order@[k] == first[k]);
            assert(is_ready(packages@, first.take(k), j));
        }
        assert(is_member_order(packages@, order@, m));
    }
    let mut r: Vec<PackageSummary> = Vec::new();
    let mut k: usize = 0;
    while k < n
        invariant
            n == packages@.len(),
            order@.len() == n,
            forall|j: int| 0 <= j < n ==> #[trigger] order@[j] < n,
            k <= n,
            r@.len() == k,
            forall|j: int| 0 <= j < k ==> same_summary(r@[j], packages@[#[trigger] order@[j] as int]),
        decreases n - k,
    {
        r.push(packages[order[k]].clone());
        k = k + 1;
    }
    r
}

/// A list of distinct indices below `n` of length `n` holds every index.
proof fn lemma_order_covers(order: Seq<usize>, n: int, i: int)
    requires
        0 <= i < n,
        n <= usize::MAX,
        order.len() == n,
        order.no_duplicates(),
        forall|k: int| 0 <= k < order.len() ==> #[trigger] order[k] < n,
    ensures
        order.contains(i as usize),
{
    if !order.contains(i as usize) {
        let longer = order.push(i as usize);
        assert(longer.no_duplicates()) by {
            assert forall|a: int, b: int| 0 <= a < b < longer.len() implies longer[a] != longer[b] by {
                if b == order.len() {
                    assert(longer[a] == order[a]);
                } else {
                    assert(order[a] != order[b]);
                }
            }
        }
        assert forall|k: int| 0 <= k < longer.len() implies #[trigger] longer[k] < n by {
            if k < order.len() {
                assert(longer[k] == order[k]);
            }
        }
        lemma_distinct_indices_len(longer, n);
    }
}

/// The order of the members is determined: any two lists that meet
/// `is_member_order` are the same (names are distinct, so every choice
/// between ready members, and the order of the rest, is fixed).
pub proof fn lemma_member_order_unique(
    packages: Seq<PackageSummary>,
    o1: Seq<usize>,
    m1: int,
    o2: Seq<usize>,
    m2: int,
)
    requires
        names_distinct(packages),
        packages.len() <= usize::MAX,
        is_member_order(packages, o1, m1),
        is_member_order(packages, o2, m2),
    ensures
        o1 == o2,
        m1 == m2,
{
    let n = packages.len() as int;
    let m = if m1 < m2 {
        m1
    } else {
        m2
    };
    // The chosen prefixes agree.
    assert forall|k: int| 0 <= k < m implies #[trigger] o1[k] == o2[k] by {
        lemma_prefix_agrees(packages, o1, m1, o2, m2, k);
    }
    assert(o1.take(m) =~= o2.take(m));
    // Both stop choosing at the same point.
    if m1 < m2 {
        assert(is_ready(packages, o2.take(m1), o2[m1] as int));
        assert(o2.take(m1) == o1.take(m1));
        assert(!is_ready(packages, o1.take(m1), o2[m1] as int));
    }
    if m2 < m1 {
        assert(is_ready(packages, o1.take(m2), o1[m2] as int));
        assert(o2.take(m2) == o1.take(m2));
        assert(!is_ready(packages, o2.take(m2), o1[m2] as int));
    }
    assert(m1 == m2);
    // The rest are the same members, in name order.
    let t1 = o1.skip(m);
    let t2 = o2.skip(m);
    let names1 = t1.map_values(|i: usize| packages[i as int].name@);
    let names2 = t2.map_values(|i: usize| packages[i as int].name@);
    assert(crate::sorted::strictly_sorted(names1)) by {
        assert forall|a: int, b: int| 0 <= a < b < names1.len() implies seq_lt(names1[a], names1[b]) by {
            assert(o1[m + a] == t1[a] && o1[m + b] == t1[b]);
        }
    }
    assert(crate::sorted::strictly_sorted(names2)) by {
        assert forall|a: int, b: int| 0 <= a < b < names2.len() implies seq_lt(names2[a], names2[b]) by {
            assert(o2[m + a] == t2[a] && o2[m + b] == t2[b]);
        }
    }
    assert(names1.to_set() =~= names2.to_set()) by {
        assert forall|x: Seq<char>| names1.to_set().contains(x) implies names2.to_set().contains(x) by {
            let a = choose|a: int| 0 <= a < names1.len() && names1[a] == x;
            let i = o1[m + a];
            lemma_order_covers(o2, n, i as int);
            let b = choose|b: int| 0 <= b < o2.len() && o2[b] == i;
            if b < m {
                assert(o1[b] == o2[b]);
                assert(o1[b] == o1[m + a]);
            }
            assert(names2[b - m] == x);
        }
        assert forall|x: Seq<char>| names2.to_set().contains(x) implies names1.to_set().contains(x) by {
            let a = choose|a: int| 0 <= a < names2.len() && names2[a] == x;
            let i = o2[m + a];
            lemma_order_covers(o1, n, i as int);
            let b = choose|b: int| 0 <= b < o1.len() && o1[b] == i;
            if b < m {
                assert(o1[b] == o2[b]);
                assert(o2[b] == o2[m + a]);
            }
            assert(names1[b - m] == x);
        }
    }
    crate::sorted::lemma_sorted_unique(names1, names2);
    assert forall|k: int| 0 <= k < n implies o1[k] == o2[k] by {
        if k >= m {
            assert(names1[k - m] == names2[k - m]);
            assert(t1[k - m] == o1[k] && t2[k - m] == o2[k]);
            if o1[k] != o2[k] {
                let x = o1[k] as int;
                let y = o2[k] as int;
                if x < y {
                    assert(packages[x].name@ != packages[y].name@);
                } else {
                    assert(packages[y].name@ != packages[x].name@);
                }
            }
        }
    }
    assert(o1 =~= o2);
}

proof fn lemma_prefix_agrees(
    packages: Seq<PackageSummary>,
    o1: Seq<usize>,
    m1: int,
    o2: Seq<usize>,
    m2: int,
    k: int,
)
    requires
        names_distinct(packages),
        is_member_order(packages, o1, m1),
        is_member_order(packages, o2, m2),
        0 <= k < m1,
        k < m2,
    ensures
        o1[k] == o2[k],
        o1.take(k + 1) == o2.take(k + 1),
    decreases k,
{
    if k > 0 {
        lemma_prefix_agrees(packages, o1, m1, o2, m2, k - 1);
    }
    assert(o1.take(k) =~= o2.take(k)) by {
        if k > 0 {
            assert(o1.take(k) =~= o1.take(k - 1 + 1));
        }
    }
    let i1 = o1[k] as int;
    let i2 = o2[k] as int;
    assert(is_ready(packages, o1.take(k), i1));
    assert(is_ready(packages, o2.take(k), i2));
    if i1 != i2 {
        assert(is_ready(packages, o1.take(k), i2));
        assert(seq_lt(packages[i1].name@, packages[i2].name@));
        assert(is_ready(packages, o2.take(k), i1));
        assert(seq_lt(packages[i2].name@, packages[i1].name@));
        lemma_seq_lt_transitive(packages[i1].name@, packages[i2].name@, packages[i1].name@);
        lemma_seq_lt_irreflexive(packages[i1].name@);
    }
    let p1 = o1.take(k + 1);
    let p2 = o2.take(k + 1);
    let q1 = o1.take(k);
    let q2 = o2.take(k);
    assert(p1 =~= p2) by {
        assert forall|j: int| 0 <= j < k + 1 implies #[trigger] p1[j] == p2[j] by {
            if j < k {
                assert(q1[j] == q2[j]);
            }
        }
    }
}


/// A target of a workspace member: its name, and whether it is a proc-macro
/// target.
#[derive(Debug)]
pub struct MemberTarget {
    pub name: String,
    pub proc_macro: bool,
}

/// A workspace member as Cargo describes it: its id, name and version, the
/// path of its manifest, the package names of its dependencies (as listed,
/// possibly repeated) and its targets.
#[derive(Debug)]
pub struct MemberFacts {
    pub id: String,
    pub name: String,
    pub version: String,
    pub manifest_path: String,
    pub dependency_names: Vec<String>,
    pub targets: Vec<MemberTarget>,
}

/// The names of the targets that are not proc-macro targets, in order.
pub open spec fn kept_target_names(targets: Seq<MemberTarget>) -> Seq<Seq<char>>
    decreases targets.len(),
{
    if targets.len() == 0 {
        Seq::empty()
    } else if targets.last().proc_macro {
        kept_target_names(targets.drop_last())
    } else {
        kept_target_names(targets.drop_last()).push(targets.last().name@)
    }
}

/// `r` summarizes `member` of the workspace at `workspace_root` whose members
/// are named `member_names`: its manifest path relative to the root (or as it
/// is when it lies outside), its dependency names and those that are members,
/// each sorted and without repeats, and its targets but the proc-macro ones.
pub open spec fn is_member_summary(
    r: PackageSummary,
    member: MemberFacts,
    workspace_root: Seq<char>,
    member_names: Set<Seq<char>>,
) -> bool {
    &&& r.id == member.id
    &&& r.name == member.name
    &&& r.version == member.version
    &&& r.manifest_path == member.manifest_path
    &&& r.relative_manifest_path@ == match path_strip_prefix(member.manifest_path@, workspace_root) {
        Some(p) => p,
        None => member.manifest_path@,
    }
    &&& strictly_sorted(strings_view(r.dependency_names@))
    &&& strings_view(r.dependency_names@).to_set() == strings_view(member.dependency_names@).to_set()
    &&& strictly_sorted(strings_view(r.workspace_dependencies@))
    &&& strings_view(r.workspace_dependencies@).to_set() == strings_view(
        member.dependency_names@,
    ).to_set().intersect(member_names)
    &&& strings_view(r.targets@) == kept_target_names(member.targets@)
}

/// The summary of one workspace member (see `is_member_summary`).
pub fn package_summary(member: MemberFacts, workspace_root: &str, member_names: &Vec<String>) -> (r:
    PackageSummary)
    ensures
        is_member_summary(r, member, workspace_root@, strings_view(member_names@).to_set()),
{
    let relative_manifest_path = match strip_path_prefix(member.manifest_path.as_str(), workspace_root) {
        Some(p) => p,
        None => member.manifest_path.clone(),
    };
    let dependency_names = sorted_unique(&member.dependency_names);
    let ghost deps = strings_view(member.dependency_names@);
    let ghost names = strings_view(member_names@).to_set();
    let mut in_workspace: Vec<String> = Vec::new();
    let mut i: usize = 0;
    while i < member.dependency_names.len()
        invariant
            i <= member.dependency_names@.len(),
            deps == strings_view(member.dependency_names@),
            names == strings_view(member_names@).to_set(),
            strings_view(in_workspace@).to_set() == deps.take(i as int).to_set().intersect(names),
        decreases member.dependency_names@.len() - i,
    {
        let ghost before = strings_view(in_workspace@);
        let dep = &member.dependency_names[i];
        if strings_contain(member_names, dep.as_str()) {
            in_workspace.push(dep.clone());
        }
        proof {
            let now = strings_view(in_workspace@);
            assert(deps.take(i + 1) =~= deps.take(i as int).push(dep@));
            assert forall|x: Seq<char>| now.to_set().contains(x) == deps.take(i + 1).to_set().intersect(
                names,
            ).contains(x) by {
                if now.to_set().contains(x) {
                    let j = choose|j: int| 0 <= j < now.len() && now[j] == x;
                    if j < before.len() {
                        assert(before[j] == x);
                        assert(before.to_set().contains(x));
                        let prev = deps.take(i as int);
                        let m = choose|m: int| 0 <= m < prev.len() && prev[m] == x;
                        assert(deps.take(i + 1)[m] == x);
                    } else {
                        assert(deps.take(i + 1)[i as int] == x);
                    }
                }
                if deps.take(i + 1).to_set().intersect(names).contains(x) {
                    let next = deps.take(i + 1);
                    let m = choose|m: int| 0 <= m < next.len() && next[m] == x;
                    if m < i {
                        assert(deps.take(i as int)[m] == x);
                        assert(before.to_set().contains(x));
                        let j = choose|j: int| 0 <= j < before.len() && before[j] == x;
                        assert(now[j] == x);
                    } else {
                        assert(now[before.len() as int] == x);
                    }
                }
            }
            assert(now.to_set() =~= deps.take(i + 1).to_set().intersect(names));
        }
        i = i + 1;
    }
    proof {
        assert(deps.take(i as int) =~= deps);
    }
    let workspace_dependencies = sorted_unique(&in_workspace);
    let mut targets: Vec<String> = Vec::new();
    let mut t: usize = 0;
    while t < member.targets.len()
        invariant
            t <= member.targets@.len(),
            strings_view(targets@) == kept_target_names(member.targets@.take(t as int)),
        decreases member.targets@.len() - t,
    {
        proof {
            assert(member.targets@.take(t + 1).drop_last() =~= member.targets@.take(t as int));
        }
        if !member.targets[t].proc_macro {
            targets.push(member.targets[t].name.clone());
            proof {
                assert(strings_view(targets@) =~= kept_target_names(member.targets@.take(t as int)).push(
                    member.targets@[t as int].name@,
                ));
            }
        }
        t = t + 1;
    }
    proof {
        assert(member.targets@.take(t as int) =~= member.targets@);
    }
    PackageSummary {
        id: member.id,
        name: member.name,
        version: member.version,
        manifest_path: member.manifest_path,
        relative_manifest_path,
        targets,
        dependency_names,
        workspace_dependencies,
    }
}

/// The names of the members.
pub open spec fn member_names_of(members: Seq<MemberFacts>) -> Seq<Seq<char>> {
    members.map_values(|m: MemberFacts| m.name@)
}

/// No two members share a name (Cargo refuses such a workspace).
pub open spec fn member_names_distinct(members: Seq<MemberFacts>) -> bool {
    forall|i: int, j: int|
        0 <= i < j < members.len() ==> (#[trigger] members[i]).name@ != (#[trigger] members[j]).name@
}

/// The summary of a workspace: its manifest and root as given, and the
/// summaries of its members (see `is_member_summary`) ordered so that each
/// comes after the members it depends on (see `is_member_order`).
pub fn workspace_summary(manifest_path: String, workspace_root: String, members: Vec<MemberFacts>) -> (r:
    crate::model::WorkspaceSummary)
    requires
        member_names_distinct(members@),
    ensures
        r.manifest_path == manifest_path,
        r.workspace_root == workspace_root,
        exists|summaries: Seq<PackageSummary>, order: Seq<usize>, m: int|
            #[trigger] is_member_order(summaries, order, m) && summaries.len() == members@.len() && (forall|k: int|
                0 <= k < summaries.len() ==> is_member_summary(
                    #[trigger] summaries[k],
                    members@[k],
                    workspace_root@,
                    member_names_of(members@).to_set(),
                )) && r.packages@.len() == order.len() && forall|k: int|
                0 <= k < order.len() ==> same_summary(r.packages@[k], summaries[#[trigger] order[k] as int]),
{
    let mut names: Vec<String> = Vec::new();
    let mut i: usize = 0;
    while i < members.len()
        invariant
            i <= members@.len(),
            strings_view(names@) == member_names_of(members@).take(i as int),
        decreases members@.len() - i,
    {
        let ghost before = strings_view(names@);
        let name = members[i].name.clone();
        names.push(name);
        proof {
            assert(strings_view(names@) =~= before.push(name@));
            assert(strings_view(names@) =~= member_names_of(members@).take(i + 1));
        }
        i = i + 1;
    }
    proof {
        assert(strings_view(names@) =~= member_names_of(members@));
    }
    let ghost facts = members@;
    let mut summaries: Vec<PackageSummary> = Vec::new();
    let mut rest = members;
    proof {
        assert(rest@ =~= facts.skip(0));
    }
    while rest.len() > 0
        invariant
            facts.len() == summaries@.len() + rest@.len(),
            rest@ == facts.skip(summaries@.len() as int),
            strings_view(names@) == member_names_of(facts),
            forall|k: int|
                0 <= k < summaries@.len() ==> is_member_summary(
                    #[trigger] summaries@[k],
                    facts[k],
                    workspace_root@,
                    member_names_of(facts).to_set(),
                ),
        decreases rest@.len(),
    {
        let member = rest.remove(0);
        let ghost k = summaries@.len() as int;
        proof {
            assert(member == facts[k]);
            assert(rest@ =~= facts.skip(k + 1));
        }
        let summary = package_summary(member, workspace_root.as_str(), &names);
        summaries.push(summary);
    }
    let ghost s = summaries@;
    proof {
        assert forall|a: int, b: int| 0 <= a < b < s.len() implies (#[trigger] s[a]).name@ != (
        #[trigger] s[b]).name@ by {
            assert(s[a].name == facts[a].name);
            assert(s[b].name == facts[b].name);
        }
    }
    let packages = topologically_sort_packages(summaries);
    crate::model::WorkspaceSummary { manifest_path, workspace_root, packages }
}

/// The lines that describe one member: its name and version, then its
/// workspace dependencies and all its dependencies, each line only when
/// there are some.
pub open spec fn member_graph_lines(p: PackageSummary) -> Seq<Seq<char>> {
    seq!["  "@ + p.name@ + " ("@ + p.version@ + ")"@] + (if p.workspace_dependencies@.len() > 0 {
        seq!["    workspace deps: "@ + join(strings_view(p.workspace_dependencies@), ", "@)]
    } else {
        Seq::empty()
    }) + (if p.dependency_names@.len() > 0 {
        seq!["    all deps: "@ + join(strings_view(p.dependency_names@), ", "@)]
    } else {
        Seq::empty()
    })
}

/// The lines that describe the members, in order.
pub open spec fn members_graph_lines(packages: Seq<PackageSummary>) -> Seq<Seq<char>>
    decreases packages.len(),
{
    if packages.len() == 0 {
        Seq::empty()
    } else {
        members_graph_lines(packages.drop_last()) + member_graph_lines(packages.last())
    }
}

/// The text of the workspace graph, line by line: the root, the manifest,
/// then the members.
pub fn graph_lines(summary: &crate::model::WorkspaceSummary) -> (r: Vec<String>)
    ensures
        strings_view(r@) == seq![
            "workspace: "@ + summary.workspace_root@,
            "manifest: "@ + summary.manifest_path@,
            "packages:"@,
        ] + members_graph_lines(summary.packages@),
{
    let mut r: Vec<String> = Vec::new();
    let mut line = "workspace: ".to_string();
    line.append(summary.workspace_root.as_str());
    r.push(line);
    let mut line = "manifest: ".to_string();
    line.append(summary.manifest_path.as_str());
    r.push(line);
    r.push("packages:".to_string());
    let ghost head = strings_view(r@);
    proof {
        assert(head =~= seq![
            "workspace: "@ + summary.workspace_root@,
            "manifest: "@ + summary.manifest_path@,
            "packages:"@,
        ]);
    }
    let mut i: usize = 0;
    while i < summary.packages.len()
        invariant
            i <= summary.packages@.len(),
            strings_view(r@) == head + members_graph_lines(summary.packages@.take(i as int)),
        decreases summary.packages@.len() - i,
    {
        let p = &summary.packages[i];
        let ghost before = strings_view(r@);
        let mut line = "  ".to_string();
        line.append(p.name.as_str());
        line.append(" (");
        line.append(p.version.as_str());
        line.append(")");
        r.push(line);
        if p.workspace_dependencies.len() > 0 {
            let mut line = "    workspace deps: ".to_string();
            line.append(join_strings(&p.workspace_dependencies, ", ").as_str());
            r.push(line);
        }
        if p.dependency_names.len() > 0 {
            let mut line = "    all deps: ".to_string();
            line.append(join_strings(&p.dependency_names, ", ").as_str());
            r.push(line);
        }
        proof {
            assert(summary.packages@.take(i + 1).drop_last() =~= summary.packages@.take(i as int));
            assert(strings_view(r@) =~= before + member_graph_lines(*p));
        }
        i = i + 1;
    }
    proof {
        assert(summary.packages@.take(i as int) =~= summary.packages@);
    }
    r
}

} // verus!
