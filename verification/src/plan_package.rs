//! Grouping a plan's units by package, and ordering its packages so that
//! dependencies come first.

use vstd::prelude::*;

use crate::model::{same_unit, same_units, Plan, PlanPackage, Unit};
use crate::source_scope::last_with_key;
use crate::string_map::StringMap;
use crate::text::str_equal;

verus! {

/// The units of package `key`, in plan order.
pub open spec fn units_of(units: Seq<Unit>, key: Seq<char>) -> Seq<Unit>
    decreases units.len(),
{
    if units.len() == 0 {
        Seq::empty()
    } else if units.last().package_key@ == key {
        units_of(units.drop_last(), key).push(units.last())
    } else {
        units_of(units.drop_last(), key)
    }
}

fn package_units(units: &Vec<Unit>, key: &str) -> (r: Vec<Unit>)
    ensures
        same_units(r@, units_of(units@, key@)),
{
    let mut r: Vec<Unit> = Vec::new();
    let mut i: usize = 0;
    while i < units.len()
        invariant
            i <= units@.len(),
            same_units(r@, units_of(units@.take(i as int), key@)),
        decreases units@.len() - i,
    {
        proof {
            assert(units@.take(i + 1).drop_last() =~= units@.take(i as int));
            assert(units@.take(i + 1).last() == units@[i as int]);
        }
        if str_equal(units[i].package_key.as_str(), key) {
            let u = units[i].clone();
            let ghost before = r@;
            r.push(u);
            proof {
                let want = units_of(units@.take(i + 1), key@);
                assert forall|j: int| 0 <= j < r@.len() implies #[trigger] same_unit(r@[j], want[j]) by {
                    if j < before.len() {
                        assert(same_unit(before[j], units_of(units@.take(i as int), key@)[j]));
                    }
                }
            }
        }
        i = i + 1;
    }
    assert(units@.take(i as int) =~= units@);
    r
}

/// The units of each package, by package key, in plan order.
pub fn units_by_package(plan: &Plan) -> (r: StringMap<Vec<Unit>>)
    ensures
        r@.dom() == crate::command_layout::package_keys(plan.packages@),
        forall|k: Seq<char>| #[trigger]
            r@.contains_key(k) ==> same_units(r@[k]@, units_of(plan.units@, k)),
{
    let mut r: StringMap<Vec<Unit>> = StringMap::new();
    let ghost packages = plan.packages@;
    let mut i: usize = 0;
    proof {
        assert(r@.dom() =~= crate::command_layout::package_keys(packages.take(0)));
    }
    while i < plan.packages.len()
        invariant
            i <= packages.len(),
            packages == plan.packages@,
            r@.dom() == crate::command_layout::package_keys(packages.take(i as int)),
            forall|k: Seq<char>| #[trigger]
                r@.contains_key(k) ==> same_units(r@[k]@, units_of(plan.units@, k)),
        decreases packages.len() - i,
    {
        let key = &plan.packages[i].key;
        let units = package_units(&plan.units, key.as_str());
        let ghost kv = key@;
        r.insert(key.clone(), units);
        proof {
            let prev = packages.take(i as int);
            let next = packages.take(i + 1);
            assert(crate::command_layout::package_keys(next) =~= crate::command_layout::package_keys(prev).insert(kv)) by {
                assert forall|k: Seq<char>| crate::command_layout::package_keys(next).contains(k) implies crate::command_layout::package_keys(prev).insert(kv).contains(k) by {
                    let j = choose|j: int| 0 <= j < next.len() && (#[trigger] next[j]).key@ == k;
                    if j < i {
                        assert(prev[j] == next[j]);
                    }
                }
                assert forall|k: Seq<char>| crate::command_layout::package_keys(prev).insert(kv).contains(k) implies crate::command_layout::package_keys(next).contains(k) by {
                    if k != kv {
                        let j = choose|j: int| 0 <= j < prev.len() && (#[trigger] prev[j]).key@ == k;
                        assert(prev[j] == next[j]);
                    } else {
                        assert(next[i as int] == packages[i as int]);
                    }
                }
            }
        }
        i = i + 1;
    }
    assert(packages.take(i as int) =~= packages);
    r
}


/// Package `x` depends on package `y`: a dependency key of `x` is the key of
/// `y`, and `y` is the last package with that key.
pub open spec fn depends_on(packages: Seq<PlanPackage>, x: int, y: int) -> bool {
    &&& 0 <= x < packages.len()
    &&& last_with_key(packages, y, packages.len() as int)
    &&& exists|t: int|
        0 <= t < packages[x].dependencies@.len() && #[trigger] packages[x].dependencies@[t]@
            == packages[y].key@
}

/// `p` is a chain of packages, each depending on the next.
pub open spec fn is_dependency_chain(packages: Seq<PlanPackage>, p: Seq<int>) -> bool {
    &&& p.len() > 0
    &&& forall|k: int| 0 <= k < p.len() - 1 ==> #[trigger] depends_on(packages, p[k], p[k + 1])
}

/// Package `a` is package `b` or depends on it, directly or through others.
pub open spec fn reaches(packages: Seq<PlanPackage>, a: int, b: int) -> bool {
    exists|p: Seq<int>| #[trigger] is_dependency_chain(packages, p) && p[0] == a && p.last() == b
}

/// `order` lists every package once, and each package after the packages it
/// depends on, except where two packages depend on each other through a cycle.
pub open spec fn is_dependency_order(packages: Seq<PlanPackage>, order: Seq<usize>) -> bool {
    &&& order.len() == packages.len()
    &&& order.no_duplicates()
    &&& forall|k: int| 0 <= k < order.len() ==> #[trigger] order[k] < packages.len()
    &&& forall|a: int, b: int|
        0 <= a < b < order.len() && #[trigger] depends_on(packages, order[a] as int, order[b] as int)
            ==> reaches(packages, order[b] as int, order[a] as int)
}

/// No package depends on itself through a chain of one or more dependencies.
pub open spec fn is_acyclic(packages: Seq<PlanPackage>) -> bool {
    forall|p: Seq<int>| #[trigger] is_dependency_chain(packages, p) && p.len() > 1 ==> p[0] != p.last()
}

/// In a dependency order of a plan without dependency cycles, every package
/// comes after all the packages it depends on.
pub proof fn lemma_acyclic_dependencies_first(packages: Seq<PlanPackage>, order: Seq<usize>)
    requires
        is_dependency_order(packages, order),
        is_acyclic(packages),
    ensures
        forall|a: int, b: int|
            0 <= a < b < order.len() ==> !#[trigger] depends_on(packages, order[a] as int, order[b] as int),
{
    assert forall|a: int, b: int| 0 <= a < b < order.len() implies !#[trigger] depends_on(
        packages,
        order[a] as int,
        order[b] as int,
    ) by {
        if depends_on(packages, order[a] as int, order[b] as int) {
            assert(reaches(packages, order[b] as int, order[a] as int));
            let p = choose|p: Seq<int>|
                #[trigger] is_dependency_chain(packages, p) && p[0] == order[b] as int && p.last()
                    == order[a] as int;
            let q = p.push(order[b] as int);
            assert(is_dependency_chain(packages, q)) by {
                assert forall|k: int| 0 <= k < q.len() - 1 implies #[trigger] depends_on(packages, q[k], q[k + 1]) by {
                    if k < p.len() - 1 {
                        assert(q[k] == p[k] && q[k + 1] == p[k + 1]);
                    } else {
                        assert(q[k] == p.last() && q[k + 1] == order[b] as int);
                    }
                }
            }
            assert(q[0] == q.last());
            assert(order[a] != order[b]);
            assert(q.len() > 1);
        }
    }
}

/// The index of the last package with each key.
pub(crate) fn index_by_key(packages: &Vec<PlanPackage>) -> (r: StringMap<usize>)
    ensures
        r@.dom() == crate::command_layout::package_keys(packages@),
        forall|k: Seq<char>| #[trigger]
            r@.contains_key(k) ==> last_with_key(packages@, r@[k] as int, packages@.len() as int)
                && packages@[r@[k] as int].key@ == k,
{
    let mut r: StringMap<usize> = StringMap::new();
    let mut i: usize = 0;
    proof {
        assert(r@.dom() =~= crate::command_layout::package_keys(packages@.take(0)));
    }
    while i < packages.len()
        invariant
            i <= packages@.len(),
            r@.dom() == crate::command_layout::package_keys(packages@.take(i as int)),
            forall|k: Seq<char>| #[trigger]
                r@.contains_key(k) ==> last_with_key(packages@, r@[k] as int, i as int)
                    && packages@[r@[k] as int].key@ == k,
        decreases packages@.len() - i,
    {
        let ghost old_r = r@;
        let ghost key = packages@[i as int].key@;
        r.insert(packages[i].key.clone(), i);
        proof {
            let prev = packages@.take(i as int);
            let next = packages@.take(i + 1);
            assert(crate::command_layout::package_keys(next) =~= crate::command_layout::package_keys(prev).insert(key)) by {
                assert forall|k: Seq<char>| crate::command_layout::package_keys(next).contains(k) implies crate::command_layout::package_keys(prev).insert(key).contains(k) by {
                    let j = choose|j: int| 0 <= j < next.len() && (#[trigger] next[j]).key@ == k;
                    if j < i {
                        assert(prev[j] == next[j]);
                    }
                }
                assert forall|k: Seq<char>| crate::command_layout::package_keys(prev).insert(key).contains(k) implies crate::command_layout::package_keys(next).contains(k) by {
                    if k != key {
                        let j = choose|j: int| 0 <= j < prev.len() && (#[trigger] prev[j]).key@ == k;
                        assert(prev[j] == next[j]);
                    } else {
                        assert(next[i as int] == packages@[i as int]);
                    }
                }
            }
            assert forall|k: Seq<char>| #[trigger] r@.contains_key(k) implies last_with_key(packages@, r@[k] as int, i + 1)
                && packages@[r@[k] as int].key@ == k by {
                if k != key {
                    assert(old_r.contains_key(k));
                    assert(last_with_key(packages@, old_r[k] as int, i as int));
                }
            }
        }
        i = i + 1;
    }
    assert(packages@.take(i as int) =~= packages@);
    r
}

/// For each package, the indices of the packages it depends on.
pub open spec fn is_adjacency(packages: Seq<PlanPackage>, adj: Seq<Vec<usize>>) -> bool {
    &&& adj.len() == packages.len()
    &&& forall|x: int, t: int|
        0 <= x < adj.len() && 0 <= t < adj[x]@.len() ==> #[trigger] adj[x]@[t] < packages.len()
            && depends_on(packages, x, adj[x]@[t] as int)
    &&& forall|x: int, y: int| #[trigger]
        depends_on(packages, x, y) ==> exists|t: int|
            0 <= t < adj[x]@.len() && #[trigger] adj[x]@[t] as int == y
}

/// The index of the last package with key `k`, if some package has it.
pub open spec fn key_index(packages: Seq<PlanPackage>, k: Seq<char>) -> Option<int> {
    if exists|y: int| #[trigger] last_with_key(packages, y, packages.len() as int) && packages[y].key@ == k {
        Some(choose|y: int| #[trigger] last_with_key(packages, y, packages.len() as int) && packages[y].key@ == k)
    } else {
        None
    }
}

/// The indices of the packages that the keys `deps` name, in order (keys
/// that name no package are skipped).
pub open spec fn dependency_row(packages: Seq<PlanPackage>, deps: Seq<String>) -> Seq<usize>
    decreases deps.len(),
{
    if deps.len() == 0 {
        Seq::empty()
    } else {
        let prev = dependency_row(packages, deps.drop_last());
        match key_index(packages, deps.last()@) {
            Some(y) => prev.push(y as usize),
            None => prev,
        }
    }
}

/// For each package, the indices of the packages it depends on.
pub open spec fn dependency_rows(packages: Seq<PlanPackage>) -> Seq<Seq<usize>> {
    Seq::new(packages.len(), |x: int| dependency_row(packages, packages[x].dependencies@))
}

proof fn lemma_key_index(packages: Seq<PlanPackage>, y: int)
    requires
        last_with_key(packages, y, packages.len() as int),
    ensures
        key_index(packages, packages[y].key@) == Some(y),
{
    let k = packages[y].key@;
    let n = packages.len() as int;
    let z = choose|z: int| #[trigger] last_with_key(packages, z, n) && packages[z].key@ == k;
    assert(z == y) by {
        if z < y {
            assert(packages[y].key@ == packages[z].key@);
        } else if y < z {
            assert(packages[z].key@ == packages[y].key@);
        }
    }
}

fn dependency_indices(packages: &Vec<PlanPackage>) -> (r: Vec<Vec<usize>>)
    ensures
        is_adjacency(packages@, r@),
        r@.map_values(|row: Vec<usize>| row@) == dependency_rows(packages@),
{
    let by_key = index_by_key(packages);
    let ghost ps = packages@;
    let n = packages.len();
    let mut r: Vec<Vec<usize>> = Vec::new();
    let mut x: usize = 0;
    while x < n
        invariant
            n == ps.len(),
            ps == packages@,
            x <= n,
            r@.len() == x,
            by_key@.dom() == crate::command_layout::package_keys(ps),
            forall|k: Seq<char>| #[trigger]
                by_key@.contains_key(k) ==> last_with_key(ps, by_key@[k] as int, n as int)
                    && ps[by_key@[k] as int].key@ == k,
            forall|a: int, t: int|
                0 <= a < x && 0 <= t < r@[a]@.len() ==> #[trigger] r@[a]@[t] < n
                    && depends_on(ps, a, r@[a]@[t] as int),
            forall|a: int, y: int|
                0 <= a < x && #[trigger] depends_on(ps, a, y) ==> exists|t: int|
                    0 <= t < r@[a]@.len() && #[trigger] r@[a]@[t] as int == y,
            forall|a: int| 0 <= a < x ==> #[trigger] r@[a]@ == dependency_row(ps, ps[a].dependencies@),
        decreases n - x,
    {
        let deps = &packages[x].dependencies;
        let mut row: Vec<usize> = Vec::new();
        let mut t: usize = 0;
        while t < deps.len()
            invariant
                n == ps.len(),
                ps == packages@,
                x < n,
                deps@ == ps[x as int].dependencies@,
                t <= deps@.len(),
                by_key@.dom() == crate::command_layout::package_keys(ps),
                forall|k: Seq<char>| #[trigger]
                    by_key@.contains_key(k) ==> last_with_key(ps, by_key@[k] as int, n as int)
                        && ps[by_key@[k] as int].key@ == k,
                forall|s: int| 0 <= s < row@.len() ==> #[trigger] row@[s] < n
                    && depends_on(ps, x as int, row@[s] as int),
                forall|y: int|
                    (last_with_key(ps, y, n as int) && exists|u: int| 0 <= u < t && #[trigger] deps@[u]@ == ps[y].key@)
                        ==> exists|s: int| 0 <= s < row@.len() && #[trigger] row@[s] as int == y,
                row@ == dependency_row(ps, deps@.take(t as int)),
            decreases deps@.len() - t,
        {
            let ghost old_row = row@;
            proof {
                assert(deps@.take(t + 1).drop_last() =~= deps@.take(t as int));
                assert(deps@.take(t + 1).last() == deps@[t as int]);
            }
            match by_key.get(deps[t].as_str()) {
                Some(y) => {
                    row.push(*y);
                    proof {
                        let yy = *y as int;
                        lemma_key_index(ps, yy);
                        assert(row@ == dependency_row(ps, deps@.take(t + 1)));
                        assert(depends_on(ps, x as int, yy)) by {
                            assert(deps@[t as int]@ == ps[yy].key@);
                        }
                        assert forall|z: int|
                            (last_with_key(ps, z, n as int) && exists|u: int| 0 <= u < t + 1 && #[trigger] deps@[u]@ == ps[z].key@)
                                implies exists|s: int| 0 <= s < row@.len() && #[trigger] row@[s] as int == z by {
                            let u = choose|u: int| 0 <= u < t + 1 && #[trigger] deps@[u]@ == ps[z].key@;
                            if u < t {
                                let s = choose|s: int| 0 <= s < old_row.len() && #[trigger] old_row[s] as int == z;
                                assert(row@[s] == old_row[s]);
                            } else {
                                // Both z and yy are the last package with this key.
                                assert(z == yy) by {
                                    if z < yy {
                                        assert(ps[yy].key@ == ps[z].key@);
                                    } else if yy < z {
                                        assert(ps[yy].key@ == ps[z].key@);
                                    }
                                }
                                assert(row@[old_row.len() as int] as int == z);
                            }
                        }
                    }
                },
                None => {
                    proof {
                        assert(key_index(ps, deps@[t as int]@) is None) by {
                            if exists|y: int| #[trigger] last_with_key(ps, y, n as int) && ps[y].key@ == deps@[t as int]@ {
                                let y = choose|y: int| #[trigger] last_with_key(ps, y, n as int) && ps[y].key@ == deps@[t as int]@;
                                assert(crate::command_layout::package_keys(ps).contains(ps[y].key@));
                            }
                        }
                        assert(row@ == dependency_row(ps, deps@.take(t + 1)));
                        assert forall|z: int|
                            (last_with_key(ps, z, n as int) && exists|u: int| 0 <= u < t + 1 && #[trigger] deps@[u]@ == ps[z].key@)
                                implies exists|s: int| 0 <= s < row@.len() && #[trigger] row@[s] as int == z by {
                            let u = choose|u: int| 0 <= u < t + 1 && #[trigger] deps@[u]@ == ps[z].key@;
                            if u == t {
                                assert(crate::command_layout::package_keys(ps).contains(ps[z].key@));
                            }
                        }
                    }
                },
            }
            t = t + 1;
        }
        proof {
            assert(deps@.take(t as int) =~= deps@);
        }
        let ghost old_r = r@;
        let ghost row_v = row@;
        r.push(row);
        proof {
            assert forall|a: int| 0 <= a < x + 1 implies #[trigger] r@[a]@ == dependency_row(ps, ps[a].dependencies@) by {
                if a < x {
                    assert(r@[a] == old_r[a]);
                }
            }
            assert forall|a: int, y: int|
                0 <= a < x + 1 && #[trigger] depends_on(ps, a, y) implies exists|t: int|
                    0 <= t < r@[a]@.len() && #[trigger] r@[a]@[t] as int == y by {
                if a == x {
                    let u = choose|u: int|
                        0 <= u < ps[a].dependencies@.len() && #[trigger] ps[a].dependencies@[u]@ == ps[y].key@;
                    assert(deps@[u]@ == ps[y].key@);
                    assert(r@[a]@ == row_v);
                    assert(exists|s: int| 0 <= s < row_v.len() && #[trigger] row_v[s] as int == y);
                } else {
                    assert(r@[a] == old_r[a]);
                }
            }
            assert forall|a: int, t: int|
                0 <= a < x + 1 && 0 <= t < r@[a]@.len() implies #[trigger] r@[a]@[t] < n
                    && depends_on(ps, a, r@[a]@[t] as int) by {
                if a < x {
                    assert(r@[a] == old_r[a]);
                }
            }
        }
        x = x + 1;
    }
    proof {
        assert(r@.map_values(|row: Vec<usize>| row@) =~= dependency_rows(ps));
    }
    r
}

/// The number of packages not yet visited.
pub open spec fn count_unvisited(marks: Seq<u8>) -> nat
    decreases marks.len(),
{
    if marks.len() == 0 {
        0
    } else {
        count_unvisited(marks.drop_last()) + if marks.last() == 0 {
            1nat
        } else {
            0nat
        }
    }
}

proof fn lemma_fewer_unvisited(before: Seq<u8>, after: Seq<u8>, x: int)
    requires
        before.len() == after.len(),
        forall|y: int| 0 <= y < after.len() && #[trigger] after[y] == 0 ==> before[y] == 0,
    ensures
        count_unvisited(after) <= count_unvisited(before),
        0 <= x < before.len() && before[x] == 0 && after[x] != 0 ==> count_unvisited(after)
            < count_unvisited(before),
    decreases before.len(),
{
    if before.len() > 0 {
        let b = before.drop_last();
        let a = after.drop_last();
        assert forall|y: int| 0 <= y < a.len() && #[trigger] a[y] == 0 implies b[y] == 0 by {
            assert(after[y] == a[y]);
        }
        lemma_fewer_unvisited(b, a, x);
        if 0 <= x < before.len() - 1 {
            assert(before[x] == b[x] && after[x] == a[x]);
        }
        assert(after.last() == after[after.len() - 1]);
    }
}

/// At most every package is unvisited.
proof fn lemma_unvisited_bound(marks: Seq<u8>)
    ensures
        count_unvisited(marks) <= marks.len(),
    decreases marks.len(),
{
    if marks.len() > 0 {
        lemma_unvisited_bound(marks.drop_last());
    }
}

/// The rows of an adjacency list, as sequences.
pub open spec fn rows_of(adj: Seq<Vec<usize>>) -> Seq<Seq<usize>> {
    adj.map_values(|row: Vec<usize>| row@)
}

/// The marks and output after a depth-first visit of package `index` (with
/// `fuel` levels of nesting allowed): a package not yet visited is marked 1,
/// its dependencies are visited in the order of its row, then it is marked 2
/// and appended to the output. A visited package is left alone.
pub open spec fn dfs_visit(
    rows: Seq<Seq<usize>>,
    fuel: nat,
    index: int,
    marks: Seq<u8>,
    out: Seq<usize>,
) -> (Seq<u8>, Seq<usize>)
    decreases fuel, 0int, 0int,
{
    if fuel == 0 || marks[index] != 0 {
        (marks, out)
    } else {
        let done = dfs_children(rows, (fuel - 1) as nat, index, 0, marks.update(index, 1), out);
        (done.0.update(index, 2), done.1.push(index as usize))
    }
}

/// The marks and output after visiting the dependencies of package `index`
/// from position `t` of its row on.
pub open spec fn dfs_children(
    rows: Seq<Seq<usize>>,
    fuel: nat,
    index: int,
    t: int,
    marks: Seq<u8>,
    out: Seq<usize>,
) -> (Seq<u8>, Seq<usize>)
    decreases fuel, 1int, rows[index].len() - t,
{
    if t < 0 || t >= rows[index].len() {
        (marks, out)
    } else {
        let next = dfs_visit(rows, fuel, rows[index][t] as int, marks, out);
        dfs_children(rows, fuel, index, t + 1, next.0, next.1)
    }
}

/// The output of depth-first visits of the packages from `i` on, in order.
pub open spec fn dfs_from(rows: Seq<Seq<usize>>, i: int, marks: Seq<u8>, out: Seq<usize>) -> Seq<usize>
    decreases rows.len() - i,
{
    if i < 0 || i >= rows.len() {
        out
    } else {
        let next = dfs_visit(rows, (rows.len() + 1) as nat, i, marks, out);
        dfs_from(rows, i + 1, next.0, next.1)
    }
}

/// The package indices in the order of a depth-first walk that starts from
/// each package in plan order and lists a package after the dependencies it
/// reaches first (in the order its dependency keys are listed).
pub open spec fn dfs_order(packages: Seq<PlanPackage>) -> Seq<usize> {
    dfs_from(dependency_rows(packages), 0, Seq::new(packages.len(), |x: int| 0u8), Seq::empty())
}

/// The state of the depth-first walk: `marks` is 2 for the packages in `out`
/// and 1 for those on `stack`, a chain of dependencies; each package in `out`
/// comes after its dependencies, except those that depend back on it.
pub open spec fn walk_state(
    packages: Seq<PlanPackage>,
    marks: Seq<u8>,
    out: Seq<usize>,
    stack: Seq<int>,
) -> bool {
    let n = packages.len();
    &&& marks.len() == n
    &&& out.no_duplicates()
    &&& forall|k: int| 0 <= k < out.len() ==> #[trigger] out[k] < n
    &&& forall|x: int| 0 <= x < n ==> (#[trigger] marks[x] == 2 <==> out.contains(x as usize))
    &&& forall|x: int| 0 <= x < n ==> (#[trigger] marks[x] == 1 <==> stack.contains(x))
    &&& forall|x: int| 0 <= x < n ==> #[trigger] marks[x] <= 2
    &&& stack.no_duplicates()
    &&& forall|k: int| 0 <= k < stack.len() ==> 0 <= #[trigger] stack[k] < n
    &&& forall|k: int| 0 <= k < stack.len() - 1 ==> #[trigger] depends_on(packages, stack[k], stack[k + 1])
    &&& forall|a: int, y: int|
        0 <= a < out.len() && #[trigger] depends_on(packages, out[a] as int, y) ==> out.take(a).contains(
            y as usize,
        ) || reaches(packages, y, out[a] as int)
}

fn visit(
    adj: &Vec<Vec<usize>>,
    index: usize,
    marks: &mut Vec<u8>,
    out: &mut Vec<usize>,
    Ghost(packages): Ghost<Seq<PlanPackage>>,
    Ghost(stack): Ghost<Seq<int>>,
    Ghost(fuel): Ghost<nat>,
)
    requires
        is_adjacency(packages, adj@),
        walk_state(packages, old(marks)@, old(out)@, stack),
        fuel > count_unvisited(old(marks)@),
        packages.len() <= usize::MAX,
        index < packages.len(),
        stack.len() > 0 ==> depends_on(packages, stack.last(), index as int),
    ensures
        walk_state(packages, final(marks)@, final(out)@, stack),
        final(marks)@[index as int] != 0,
        forall|x: int|
            0 <= x < packages.len() && #[trigger] old(marks)@[x] != 0 ==> final(marks)@[x] == old(
                marks,
            )@[x],
        forall|x: int|
            0 <= x < packages.len() && #[trigger] final(marks)@[x] == 0 ==> old(marks)@[x] == 0,
        final(out)@.len() >= old(out)@.len(),
        final(out)@.take(old(out)@.len() as int) == old(out)@,
        (final(marks)@, final(out)@) == dfs_visit(rows_of(adj@), fuel, index as int, old(marks)@, old(out)@),
    decreases count_unvisited(old(marks)@),
{
    if marks[index] != 0 {
        return;
    }
    let ghost entry_marks = marks@;
    let ghost entry_out = out@;
    assert(entry_marks == old(marks)@);
    let ghost inner = stack.push(index as int);
    marks.set(index, 1);
    proof {
        lemma_fewer_unvisited(entry_marks, marks@, index as int);
        assert(!stack.contains(index as int));
        assert forall|x: int| 0 <= x < packages.len() implies (#[trigger] marks@[x] == 1 <==> inner.contains(x)) by {
            if x == index {
                assert(inner[stack.len() as int] == x);
            } else if stack.contains(x) {
                let k = choose|k: int| 0 <= k < stack.len() && stack[k] == x;
                assert(inner[k] == x);
            } else if inner.contains(x) {
                let k = choose|k: int| 0 <= k < inner.len() && inner[k] == x;
                assert(stack[k] == x);
            }
        }
        assert forall|k: int| 0 <= k < inner.len() - 1 implies #[trigger] depends_on(packages, inner[k], inner[k + 1]) by {
            if k < stack.len() - 1 {
                assert(inner[k] == stack[k] && inner[k + 1] == stack[k + 1]);
            } else {
                assert(inner[k] == stack.last() && inner[k + 1] == index);
            }
        }
        assert forall|k: int| 0 <= k < inner.len() implies 0 <= #[trigger] inner[k] < packages.len() by {
            if k < stack.len() {
                assert(inner[k] == stack[k]);
            }
        }
        assert(!entry_out.contains(index));
    }
    let deps = &adj[index];
    let ghost rows = rows_of(adj@);
    let ghost inner_fuel = (fuel - 1) as nat;
    let ghost start_marks = marks@;
    proof {
        assert(rows[index as int] == deps@);
    }
    let mut t: usize = 0;
    while t < deps.len()
        invariant
            rows == rows_of(adj@),
            rows[index as int] == deps@,
            inner_fuel == (fuel - 1) as nat,
            fuel > count_unvisited(entry_marks),
            dfs_children(rows, inner_fuel, index as int, 0, start_marks, entry_out) == dfs_children(
                rows,
                inner_fuel,
                index as int,
                t as int,
                marks@,
                out@,
            ),
            is_adjacency(packages, adj@),
            *deps == adj@[index as int],
            packages.len() <= usize::MAX,
            index < packages.len(),
            t <= deps@.len(),
            inner == stack.push(index as int),
            walk_state(packages, marks@, out@, inner),
            marks@[index as int] == 1,
            count_unvisited(marks@) < count_unvisited(entry_marks),
            entry_marks == old(marks)@,
            entry_marks.len() == packages.len(),
            entry_marks[index as int] == 0,
            forall|x: int|
                0 <= x < packages.len() && #[trigger] entry_marks[x] != 0 ==> marks@[x] == entry_marks[x],
            forall|x: int| 0 <= x < packages.len() && #[trigger] marks@[x] == 0 ==> entry_marks[x] == 0,
            forall|u: int| 0 <= u < t ==> #[trigger] marks@[deps@[u] as int] != 0,
            out@.len() >= entry_out.len(),
            out@.take(entry_out.len() as int) == entry_out,
        decreases deps@.len() - t,
    {
        let dep = deps[t];
        proof {
            assert(dep < packages.len() && depends_on(packages, index as int, dep as int));
            assert(inner.last() == index);
        }
        let ghost before_marks = marks@;
        let ghost before_out = out@;
        visit(adj, dep, marks, out, Ghost(packages), Ghost(inner), Ghost(inner_fuel));
        proof {
            lemma_fewer_unvisited(before_marks, marks@, 0);
            assert forall|u: int| 0 <= u < t + 1 implies #[trigger] marks@[deps@[u] as int] != 0 by {
                if u < t {
                    assert(before_marks[deps@[u] as int] != 0);
                }
            }
            assert(out@.take(entry_out.len() as int) =~= entry_out) by {
                assert(out@.take(entry_out.len() as int) =~= out@.take(before_out.len() as int).take(entry_out.len() as int));
            }
        }
        t = t + 1;
    }
    let ghost loop_marks = marks@;
    let ghost loop_out = out@;
    marks.set(index, 2);
    out.push(index);
    proof {
        assert(start_marks == entry_marks.update(index as int, 1));
        assert((loop_marks, loop_out) == dfs_children(rows, inner_fuel, index as int, 0, start_marks, entry_out));
        assert((marks@, out@) == dfs_visit(rows, fuel, index as int, entry_marks, entry_out));
        let n = packages.len();
        assert(!loop_out.contains(index)) by {
            if loop_out.contains(index) {
                assert(loop_marks[index as int] == 2);
            }
        }
        assert forall|x: int| 0 <= x < n implies (#[trigger] marks@[x] == 2 <==> out@.contains(x as usize)) by {
            if x != index {
                assert(marks@[x] == loop_marks[x]);
                if out@.contains(x as usize) {
                    let k = choose|k: int| 0 <= k < out@.len() && out@[k] == x as usize;
                    if k == loop_out.len() {
                        assert(out@[k] == index);
                    }
                    assert(k < loop_out.len());
                    assert(loop_out[k] == out@[k]);
                }
                if loop_out.contains(x as usize) {
                    let k = choose|k: int| 0 <= k < loop_out.len() && loop_out[k] == x as usize;
                    assert(out@[k] == loop_out[k]);
                }
            } else {
                assert(out@[loop_out.len() as int] == index);
            }
        }
        assert forall|x: int| 0 <= x < n implies (#[trigger] marks@[x] == 1 <==> stack.contains(x)) by {
            if x != index {
                assert(marks@[x] == loop_marks[x]);
                if stack.contains(x) {
                    let k = choose|k: int| 0 <= k < stack.len() && stack[k] == x;
                    assert(inner[k] == x);
                }
                if inner.contains(x) {
                    let k = choose|k: int| 0 <= k < inner.len() && inner[k] == x;
                    assert(stack[k] == x);
                }
            }
        }
        assert forall|k: int| 0 <= k < stack.len() - 1 implies #[trigger] depends_on(packages, stack[k], stack[k + 1]) by {
            assert(inner[k] == stack[k] && inner[k + 1] == stack[k + 1]);
        }
        assert forall|k: int| 0 <= k < stack.len() implies 0 <= #[trigger] stack[k] < n by {
            assert(inner[k] == stack[k]);
        }
        assert forall|x: int| 0 <= x < n implies #[trigger] marks@[x] <= 2 by {
            if x != index {
                assert(marks@[x] == loop_marks[x]);
            }
        }
        assert forall|k: int| 0 <= k < out@.len() implies #[trigger] out@[k] < n by {
            if k < loop_out.len() {
                assert(out@[k] == loop_out[k]);
            }
        }
        assert forall|a: int, y: int|
            0 <= a < out@.len() && #[trigger] depends_on(packages, out@[a] as int, y) implies out@.take(a).contains(
                y as usize,
            ) || reaches(packages, y, out@[a] as int) by {
            if a < loop_out.len() {
                assert(out@[a] == loop_out[a]);
                assert(out@.take(a) =~= loop_out.take(a));
            } else {
                assert(out@[a] == index);
                assert(out@.take(a) =~= loop_out);
                let u = choose|u: int| 0 <= u < deps@.len() && #[trigger] deps@[u] as int == y;
                assert(loop_marks[deps@[u] as int] != 0);
                if loop_marks[y] == 2 {
                    assert(loop_out.contains(y as usize));
                } else {
                    assert(inner.contains(y));
                    let p = choose|p: int| 0 <= p < inner.len() && inner[p] == y;
                    let chain = inner.subrange(p, inner.len() as int);
                    assert(is_dependency_chain(packages, chain)) by {
                        assert forall|k: int| 0 <= k < chain.len() - 1 implies #[trigger] depends_on(packages, chain[k], chain[k + 1]) by {
                            assert(chain[k] == inner[p + k] && chain[k + 1] == inner[p + k + 1]);
                        }
                    }
                    assert(chain[0] == y && chain.last() == index);
                }
            }
        }
        lemma_fewer_unvisited(entry_marks, marks@, 0);
        assert(out@.take(entry_out.len() as int) =~= entry_out) by {
            assert(out@.take(entry_out.len() as int) =~= loop_out.take(entry_out.len() as int));
        }
    }
}

/// The package indices in dependency order: a depth-first walk from each
/// package in plan order, listing a package after its dependencies.
fn package_order(packages: &Vec<PlanPackage>) -> (r: Vec<usize>)
    ensures
        is_dependency_order(packages@, r@),
        r@ == dfs_order(packages@),
{
    let adj = dependency_indices(packages);
    let n = packages.len();
    let ghost ps = packages@;
    let mut marks: Vec<u8> = Vec::new();
    let mut i: usize = 0;
    while i < n
        invariant
            n == ps.len(),
            i <= n,
            marks@.len() == i,
            forall|x: int| 0 <= x < i ==> #[trigger] marks@[x] == 0,
        decreases n - i,
    {
        marks.push(0);
        i = i + 1;
    }
    let mut out: Vec<usize> = Vec::new();
    let ghost empty = Seq::<int>::empty();
    proof {
        assert forall|x: int| 0 <= x < n implies (#[trigger] marks@[x] == 2 <==> out@.contains(x as usize)) by {}
    }
    let ghost rows = rows_of(adj@);
    proof {
        assert(marks@ =~= Seq::new(n as nat, |x: int| 0u8));
    }
    let mut index: usize = 0;
    while index < n
        invariant
            n == ps.len(),
            ps == packages@,
            is_adjacency(ps, adj@),
            rows == rows_of(adj@),
            rows == dependency_rows(ps),
            dfs_order(ps) == dfs_from(rows, index as int, marks@, out@),
            empty == Seq::<int>::empty(),
            index <= n,
            walk_state(ps, marks@, out@, empty),
            forall|x: int| 0 <= x < index ==> #[trigger] marks@[x] != 0,
        decreases n - index,
    {
        let ghost before = marks@;
        let ghost before_out = out@;
        proof {
            lemma_unvisited_bound(marks@);
        }
        visit(&adj, index, &mut marks, &mut out, Ghost(ps), Ghost(empty), Ghost((n + 1) as nat));
        proof {
            assert(rows.len() == n);
            assert(dfs_from(rows, index as int, before, before_out) == dfs_from(rows, index + 1, marks@, out@));
        }
        proof {
            assert forall|x: int| 0 <= x < index + 1 implies #[trigger] marks@[x] != 0 by {
                if x < index {
                    assert(before[x] != 0);
                }
            }
        }
        index = index + 1;
    }
    proof {
        let all = crate::plan_package::index_range(n as int);
        assert forall|x: int| 0 <= x < n implies #[trigger] marks@[x] == 2 && out@.contains(x as usize) by {
            assert(marks@[x] != 0);
            if marks@[x] == 1 {
                assert(empty.contains(x));
            }
        }
        let outs = out@.map_values(|v: usize| v as int);
        assert(outs.to_set() =~= all) by {
            assert forall|x: int| all.contains(x) implies outs.to_set().contains(x) by {
                assert(marks@[x] == 2);
                assert(out@.contains(x as usize));
                let k = choose|k: int| 0 <= k < out@.len() && out@[k] == x as usize;
                assert(outs[k] == x);
            }
            assert forall|x: int| outs.to_set().contains(x) implies all.contains(x) by {
                let k = choose|k: int| 0 <= k < outs.len() && outs[k] == x;
                assert(out@[k] < n);
            }
        }
        assert(outs.no_duplicates()) by {
            assert forall|a: int, b: int| 0 <= a < outs.len() && 0 <= b < outs.len() && a != b implies outs[a] != outs[b] by {
                assert(out@[a] != out@[b]);
            }
        }
        outs.unique_seq_to_set();
        vstd::set_lib::lemma_int_range(0, n as int);
        assert forall|a: int, b: int|
            0 <= a < b < out@.len() && #[trigger] depends_on(ps, out@[a] as int, out@[b] as int)
                implies reaches(ps, out@[b] as int, out@[a] as int) by {
            if out@.take(a).contains(out@[b]) {
                let c = choose|c: int| 0 <= c < a && out@.take(a)[c] == out@[b];
                assert(out@[c] == out@[b]);
            }
        }
    }
    out
}

/// The integers `0..n`.
pub open spec fn index_range(n: int) -> Set<int> {
    vstd::set_lib::set_int_range(0, n)
}

/// Distinct indices below `n` that include each of `0..n` are exactly `n` in number.
pub proof fn lemma_indices_cover(s: Seq<usize>, n: int)
    requires
        0 <= n <= usize::MAX,
        s.no_duplicates(),
        forall|k: int| 0 <= k < s.len() ==> #[trigger] s[k] < n,
        forall|x: int| 0 <= x < n ==> s.contains(#[trigger] (x as usize)),
    ensures
        s.len() == n,
{
    lemma_distinct_indices_len(s, n);
    let t = s.map_values(|v: usize| v as int);
    t.lemma_cardinality_of_set();
    vstd::set_lib::lemma_int_range(0, n);
    assert(index_range(n).subset_of(t.to_set())) by {
        assert forall|x: int| index_range(n).contains(x) implies t.to_set().contains(x) by {
            assert(s.contains(x as usize));
            let k = choose|k: int| 0 <= k < s.len() && s[k] == x as usize;
            assert(t[k] == x);
        }
    }
    vstd::seq_lib::seq_to_set_is_finite(t);
    vstd::set_lib::lemma_len_subset(index_range(n), t.to_set());
}

/// Distinct indices below `n` are at most `n` in number.
pub proof fn lemma_distinct_indices_len(s: Seq<usize>, n: int)
    requires
        0 <= n,
        s.no_duplicates(),
        forall|k: int| 0 <= k < s.len() ==> #[trigger] s[k] < n,
    ensures
        s.len() <= n,
{
    let t = s.map_values(|v: usize| v as int);
    assert(t.no_duplicates()) by {
        assert forall|a: int, b: int| 0 <= a < t.len() && 0 <= b < t.len() && a != b implies t[a] != t[b] by {
            assert(s[a] != s[b]);
        }
    }
    t.unique_seq_to_set();
    vstd::set_lib::lemma_int_range(0, n);
    assert(t.to_set().subset_of(index_range(n))) by {
        assert forall|x: int| t.to_set().contains(x) implies index_range(n).contains(x) by {
            let k = choose|k: int| 0 <= k < t.len() && t[k] == x;
            assert(s[k] < n);
        }
    }
    vstd::set_lib::lemma_len_subset(t.to_set(), index_range(n));
}

/// The plan's packages in dependency order: each package after the packages
/// it depends on (unless they depend on each other through a cycle).
pub fn topologically_sorted_packages(plan: &Plan) -> (r: Vec<&PlanPackage>)
    ensures
        is_dependency_order(plan.packages@, dfs_order(plan.packages@)),
        r@.len() == dfs_order(plan.packages@).len(),
        forall|k: int|
            0 <= k < r@.len() ==> *r@[k] == plan.packages@[#[trigger] dfs_order(plan.packages@)[k] as int],
{
    let order = package_order(&plan.packages);
    let mut r: Vec<&PlanPackage> = Vec::new();
    let mut k: usize = 0;
    while k < order.len()
        invariant
            is_dependency_order(plan.packages@, order@),
            order@ == dfs_order(plan.packages@),
            k <= order@.len(),
            r@.len() == k,
            forall|j: int| 0 <= j < k ==> *r@[j] == plan.packages@[order@[j] as int],
        decreases order@.len() - k,
    {
        r.push(&plan.packages[order[k]]);
        k = k + 1;
    }
    r
}

} // verus!
