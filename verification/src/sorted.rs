//! Strictly sorted lists of strings: the ordered sets and map key lists that
//! the planner iterates in a deterministic order.

use vstd::prelude::*;

use crate::string_map::{
    entries_find, entries_view, key_seq, lemma_entry_in_view, lemma_view_key, lemma_view_len,
};
use crate::text::{seq_lt, str_equal, str_less, strings_view};

verus! {

/// Each element sorts strictly before the next ones.
pub open spec fn strictly_sorted(q: Seq<Seq<char>>) -> bool {
    forall|i: int, j: int| 0 <= i < j < q.len() ==> seq_lt(q[i], q[j])
}

/// No sequence sorts before itself.
pub proof fn lemma_seq_lt_irreflexive(a: Seq<char>)
    ensures
        !seq_lt(a, a),
    decreases a.len(),
{
    if a.len() > 0 {
        lemma_seq_lt_irreflexive(a.drop_first());
    }
}

/// The order is transitive.
pub proof fn lemma_seq_lt_transitive(a: Seq<char>, b: Seq<char>, c: Seq<char>)
    requires
        seq_lt(a, b),
        seq_lt(b, c),
    ensures
        seq_lt(a, c),
    decreases a.len(),
{
    if a.len() > 0 && b.len() > 0 && c.len() > 0 {
        if a[0] == b[0] && b[0] == c[0] {
            lemma_seq_lt_transitive(a.drop_first(), b.drop_first(), c.drop_first());
        }
    }
}

/// Any two distinct sequences are ordered one way or the other.
pub proof fn lemma_seq_lt_total(a: Seq<char>, b: Seq<char>)
    requires
        a != b,
    ensures
        seq_lt(a, b) || seq_lt(b, a),
    decreases a.len(),
{
    if a.len() == 0 {
        assert(b.len() > 0) by {
            if b.len() == 0 {
                assert(a =~= b);
            }
        }
    } else if b.len() > 0 && a[0] == b[0] {
        if a.drop_first() == b.drop_first() {
            assert(a =~= seq![a[0]] + a.drop_first());
            assert(b =~= seq![b[0]] + b.drop_first());
        }
        lemma_seq_lt_total(a.drop_first(), b.drop_first());
    } else if b.len() > 0 {
        vstd::utf8::char_u32_cast(a[0], a[0] as u32);
        vstd::utf8::char_u32_cast(b[0], b[0] as u32);
    }
}

/// A strictly sorted list of strings is determined by the set of its elements.
pub proof fn lemma_sorted_unique(p: Seq<Seq<char>>, q: Seq<Seq<char>>)
    requires
        strictly_sorted(p),
        strictly_sorted(q),
        p.to_set() == q.to_set(),
    ensures
        p == q,
    decreases p.len(),
{
    if p.len() == 0 {
        if q.len() > 0 {
            assert(q.to_set().contains(q[0]));
        }
        assert(q.len() == 0);
    } else {
        assert(q.len() > 0) by {
            assert(p.to_set().contains(p[0]));
        }
        // the first elements are both the least element of the set
        assert(p[0] == q[0]) by {
            assert(p.to_set().contains(p[0]));
            assert(q.to_set().contains(q[0]));
            let i = choose|i: int| 0 <= i < q.len() && q[i] == p[0];
            let j = choose|j: int| 0 <= j < p.len() && p[j] == q[0];
            if p[0] != q[0] {
                assert(i > 0 && j > 0);
                lemma_seq_lt_transitive(q[0], q[i], p[j]);
                lemma_seq_lt_irreflexive(q[0]);
            }
        }
        assert(p.drop_first().to_set() == q.drop_first().to_set()) by {
            assert forall|x: Seq<char>| p.drop_first().to_set().contains(x) implies q.drop_first().to_set().contains(x) by {
                let i = choose|i: int| 0 <= i < p.drop_first().len() && p.drop_first()[i] == x;
                assert(p.to_set().contains(x));
                let j = choose|j: int| 0 <= j < q.len() && q[j] == x;
                if j == 0 {
                    lemma_seq_lt_irreflexive(p[0]);
                }
                assert(q.drop_first()[j - 1] == x);
            }
            assert forall|x: Seq<char>| q.drop_first().to_set().contains(x) implies p.drop_first().to_set().contains(x) by {
                let i = choose|i: int| 0 <= i < q.drop_first().len() && q.drop_first()[i] == x;
                assert(q.to_set().contains(x));
                let j = choose|j: int| 0 <= j < p.len() && p[j] == x;
                if j == 0 {
                    lemma_seq_lt_irreflexive(q[0]);
                }
                assert(p.drop_first()[j - 1] == x);
            }
            assert(p.drop_first().to_set() =~= q.drop_first().to_set());
        }
        lemma_sorted_unique(p.drop_first(), q.drop_first());
        assert(p =~= seq![p[0]] + p.drop_first());
        assert(q =~= seq![q[0]] + q.drop_first());
    }
}

/// Inserts `item` into a strictly sorted list unless it is already there.
pub fn sorted_insert(v: &mut Vec<String>, item: String)
    requires
        strictly_sorted(strings_view(old(v)@)),
    ensures
        strictly_sorted(strings_view(final(v)@)),
        strings_view(final(v)@).to_set() == strings_view(old(v)@).to_set().insert(item@),
{
    let ghost old_view = strings_view(v@);
    let mut pos: usize = 0;
    while pos < v.len() && str_less(v[pos].as_str(), item.as_str())
        invariant
            pos <= v@.len(),
            old_view == strings_view(v@),
            forall|i: int| 0 <= i < pos ==> seq_lt(old_view[i], item@),
        decreases v@.len() - pos,
    {
        pos = pos + 1;
    }
    if pos < v.len() && str_equal(v[pos].as_str(), item.as_str()) {
        proof {
            assert(old_view[pos as int] == item@);
            assert(old_view.to_set().insert(item@) =~= old_view.to_set());
        }
        return;
    }
    let ghost item_view = item@;
    v.insert(pos, item);
    proof {
        let nv = strings_view(v@);
        assert(nv =~= old_view.insert(pos as int, item_view));
        if pos < old_view.len() {
            assert(!seq_lt(old_view[pos as int], item_view));
            assert(old_view[pos as int] != item_view);
            lemma_seq_lt_total(old_view[pos as int], item_view);
        }
        assert forall|i: int, j: int| 0 <= i < j < nv.len() implies seq_lt(nv[i], nv[j]) by {
            if j < pos {
            } else if j == pos {
            } else if i < pos {
                if j - 1 > pos {
                    lemma_seq_lt_transitive(item_view, old_view[pos as int], old_view[j - 1]);
                }
                lemma_seq_lt_transitive(nv[i], item_view, nv[j]);
            } else if i == pos {
                if j - 1 > pos {
                    lemma_seq_lt_transitive(item_view, old_view[pos as int], old_view[j - 1]);
                }
            } else {
            }
        }
        assert(nv.to_set() =~= old_view.to_set().insert(item_view)) by {
            assert forall|x: Seq<char>| nv.to_set().contains(x) implies old_view.to_set().insert(item_view).contains(x) by {
                let k = choose|k: int| 0 <= k < nv.len() && nv[k] == x;
                if k < pos {
                    assert(old_view[k] == x);
                } else if k > pos {
                    assert(old_view[k - 1] == x);
                }
            }
            assert forall|x: Seq<char>| old_view.to_set().insert(item_view).contains(x) implies nv.to_set().contains(x) by {
                if x == item_view {
                    assert(nv[pos as int] == x);
                } else {
                    let k = choose|k: int| 0 <= k < old_view.len() && old_view[k] == x;
                    if k < pos {
                        assert(nv[k] == x);
                    } else {
                        assert(nv[k + 1] == x);
                    }
                }
            }
        }
    }
}

/// The distinct strings of `items`, in sorted order (what collecting into a
/// `BTreeSet` and back gives).
pub fn sorted_unique(items: &Vec<String>) -> (r: Vec<String>)
    ensures
        strictly_sorted(strings_view(r@)),
        strings_view(r@).to_set() == strings_view(items@).to_set(),
{
    let mut r: Vec<String> = Vec::new();
    let mut i: usize = 0;
    proof {
        assert(strings_view(r@).to_set() =~= strings_view(items@.take(0)).to_set());
    }
    while i < items.len()
        invariant
            i <= items@.len(),
            strictly_sorted(strings_view(r@)),
            strings_view(r@).to_set() == strings_view(items@.take(i as int)).to_set(),
        decreases items@.len() - i,
    {
        sorted_insert(&mut r, items[i].clone());
        proof {
            assert(strings_view(items@.take(i + 1)) =~= strings_view(items@.take(i as int)).push(items@[i as int]@));
            let a = strings_view(items@.take(i as int));
            let x = items@[i as int]@;
            assert forall|y: Seq<char>| a.push(x).to_set().contains(y) implies a.to_set().insert(x).contains(y) by {
                let j = choose|j: int| 0 <= j < a.push(x).len() && a.push(x)[j] == y;
                if j < a.len() {
                    assert(a[j] == y);
                }
            }
            assert forall|y: Seq<char>| a.to_set().insert(x).contains(y) implies a.push(x).to_set().contains(y) by {
                if y == x {
                    assert(a.push(x)[a.len() as int] == y);
                } else {
                    let j = choose|j: int| 0 <= j < a.len() && a[j] == y;
                    assert(a.push(x)[j] == y);
                }
            }
            assert(strings_view(items@.take(i + 1)).to_set() =~= a.to_set().insert(x));
        }
        i = i + 1;
    }
    assert(items@.take(i as int) =~= items@);
    r
}

/// Strictly sorted keys are distinct.
pub proof fn lemma_sorted_no_duplicates(q: Seq<Seq<char>>)
    requires
        strictly_sorted(q),
    ensures
        q.no_duplicates(),
{
    assert forall|i: int, j: int| 0 <= i < q.len() && 0 <= j < q.len() && i != j implies q[i] != q[j] by {
        if i < j {
            assert(seq_lt(q[i], q[j]));
            if q[i] == q[j] {
                lemma_seq_lt_irreflexive(q[i]);
            }
        } else {
            assert(seq_lt(q[j], q[i]));
            if q[i] == q[j] {
                lemma_seq_lt_irreflexive(q[i]);
            }
        }
    }
}

/// A map keyed by strings whose entries are kept in increasing key order (the
/// order in which a `BTreeMap` is walked).
#[derive(Debug)]
pub struct SortedMap<V> {
    entries: Vec<(String, V)>,
}

impl<V> View for SortedMap<V> {
    type V = Map<Seq<char>, V>;

    closed spec fn view(&self) -> Map<Seq<char>, V> {
        entries_view(self.entries@)
    }
}

impl<V> SortedMap<V> {
    #[verifier::type_invariant]
    spec fn well_formed(self) -> bool {
        strictly_sorted(key_seq(self.entries@))
    }

    /// The entries in key order.
    pub closed spec fn entry_seq(&self) -> Seq<(String, V)> {
        self.entries@
    }

    /// An empty map.
    pub fn new() -> (r: Self)
        ensures
            r@ == Map::<Seq<char>, V>::empty(),
            r.entry_seq().len() == 0,
    {
        let r = SortedMap { entries: Vec::new() };
        assert(r@ =~= Map::<Seq<char>, V>::empty());
        r
    }

    /// The value stored under `key`, if any.
    pub fn get(&self, key: &str) -> (r: Option<&V>)
        ensures
            r is Some <==> self@.contains_key(key@),
            r matches Some(v) ==> *v == self@[key@],
    {
        proof {
            use_type_invariant(self);
            lemma_sorted_no_duplicates(key_seq(self.entries@));
            lemma_view_key(self.entries@, key@);
        }
        match entries_find(&self.entries, key) {
            Some(i) => {
                proof {
                    lemma_entry_in_view(self.entries@, i as int);
                }
                Some(&self.entries[i].1)
            },
            None => None,
        }
    }

    /// Whether `key` has an entry.
    pub fn contains_key(&self, key: &str) -> (r: bool)
        ensures
            r == self@.contains_key(key@),
    {
        proof {
            use_type_invariant(self);
            lemma_view_key(self.entries@, key@);
        }
        entries_find(&self.entries, key).is_some()
    }

    /// The number of entries.
    pub fn len(&self) -> (r: usize)
        ensures
            r == self.entry_seq().len(),
            self@.dom().finite(),
            r == self@.len(),
    {
        proof {
            use_type_invariant(self);
            lemma_sorted_no_duplicates(key_seq(self.entries@));
            lemma_view_len(self.entries@);
        }
        self.entries.len()
    }

    /// The entries, in increasing key order.
    pub fn entries(&self) -> (r: &Vec<(String, V)>)
        ensures
            r@ == self.entry_seq(),
            strictly_sorted(key_seq(r@)),
            key_seq(r@).no_duplicates(),
            entries_view(r@) == self@,
    {
        proof {
            use_type_invariant(self);
            lemma_sorted_no_duplicates(key_seq(self.entries@));
        }
        &self.entries
    }

    /// Stores `value` under `key`, replacing any earlier value.
    pub fn insert(&mut self, key: String, value: V)
        ensures
            final(self)@ == old(self)@.insert(key@, value),
    {
        proof {
            use_type_invariant(&*self);
        }
        let mut entries: Vec<(String, V)> = Vec::new();
        std::mem::swap(&mut entries, &mut self.entries);
        let ghost old_entries = entries@;
        let ghost old_keys = key_seq(old_entries);
        let ghost k = key@;
        proof {
            lemma_sorted_no_duplicates(old_keys);
        }
        let mut pos: usize = 0;
        while pos < entries.len() && str_less(entries[pos].0.as_str(), key.as_str())
            invariant
                pos <= old_entries.len(),
                entries@ == old_entries,
                old_keys == key_seq(old_entries),
                k == key@,
                forall|i: int| 0 <= i < pos ==> seq_lt(old_keys[i], k),
            decreases old_entries.len() - pos,
        {
            pos = pos + 1;
        }
        if pos < entries.len() && str_equal(entries[pos].0.as_str(), key.as_str()) {
            entries.set(pos, (key, value));
            proof {
                let s = entries@;
                assert(key_seq(s) =~= old_keys);
                assert forall|kk: Seq<char>|
                    #![trigger entries_view(s).contains_key(kk)]
                    entries_view(s).contains_key(kk) == entries_view(old_entries).insert(k, value).contains_key(kk) by {
                    lemma_view_key(s, kk);
                    lemma_view_key(old_entries, kk);
                    if entries_view(old_entries).insert(k, value).contains_key(kk) && kk != k {
                        let j = choose|j: int| 0 <= j < old_entries.len() && old_entries[j].0@ == kk;
                        assert(s[j].0@ == kk);
                    }
                }
                assert forall|kk: Seq<char>| #[trigger] entries_view(s).contains_key(kk) implies entries_view(s)[kk]
                    == entries_view(old_entries).insert(k, value)[kk] by {
                    lemma_view_key(s, kk);
                    let j = choose|j: int| 0 <= j < s.len() && s[j].0@ == kk;
                    lemma_entry_in_view(s, j);
                    if j != pos {
                        assert(old_keys[j] != old_keys[pos as int]);
                        assert(s[j] == old_entries[j]);
                        lemma_entry_in_view(old_entries, j);
                    } else {
                        assert(old_keys[pos as int] == k);
                        assert(s[j].1 == value);
                    }
                }
                assert(entries_view(s) =~= entries_view(old_entries).insert(k, value));
            }
        } else {
            entries.insert(pos, (key, value));
            proof {
                let s = entries@;
                let nk = key_seq(s);
                assert(nk =~= old_keys.insert(pos as int, k));
                if pos < old_keys.len() {
                    assert(!seq_lt(old_keys[pos as int], k));
                    assert(old_keys[pos as int] != k);
                    lemma_seq_lt_total(old_keys[pos as int], k);
                }
                assert forall|i: int, j: int| 0 <= i < j < nk.len() implies seq_lt(nk[i], nk[j]) by {
                    if j < pos {
                    } else if j == pos {
                    } else if i < pos {
                        if j - 1 > pos {
                            lemma_seq_lt_transitive(k, old_keys[pos as int], old_keys[j - 1]);
                        }
                        lemma_seq_lt_transitive(nk[i], k, nk[j]);
                    } else if i == pos {
                        if j - 1 > pos {
                            lemma_seq_lt_transitive(k, old_keys[pos as int], old_keys[j - 1]);
                        }
                    } else {
                    }
                }
                lemma_sorted_no_duplicates(nk);
                assert(!old_keys.contains(k)) by {
                    if old_keys.contains(k) {
                        let j = choose|j: int| 0 <= j < old_keys.len() && old_keys[j] == k;
                        if j < pos {
                            lemma_seq_lt_irreflexive(k);
                        } else if j > pos {
                            lemma_seq_lt_transitive(k, old_keys[pos as int], old_keys[j]);
                            lemma_seq_lt_irreflexive(k);
                        }
                    }
                }
                assert forall|kk: Seq<char>|
                    #![trigger entries_view(s).contains_key(kk)]
                    entries_view(s).contains_key(kk) == entries_view(old_entries).insert(k, value).contains_key(kk) by {
                    lemma_view_key(s, kk);
                    lemma_view_key(old_entries, kk);
                    if entries_view(s).contains_key(kk) && kk != k {
                        let j = choose|j: int| 0 <= j < s.len() && s[j].0@ == kk;
                        if j < pos {
                            assert(old_entries[j] == s[j]);
                        } else {
                            assert(j != pos);
                            assert(old_entries[j - 1] == s[j]);
                        }
                    }
                    if entries_view(old_entries).insert(k, value).contains_key(kk) {
                        if kk == k {
                            assert(s[pos as int].0@ == kk);
                        } else {
                            let j = choose|j: int| 0 <= j < old_entries.len() && old_entries[j].0@ == kk;
                            if j < pos {
                                assert(s[j] == old_entries[j]);
                            } else {
                                assert(s[j + 1] == old_entries[j]);
                            }
                        }
                    }
                }
                assert forall|kk: Seq<char>| #[trigger] entries_view(s).contains_key(kk) implies entries_view(s)[kk]
                    == entries_view(old_entries).insert(k, value)[kk] by {
                    lemma_view_key(s, kk);
                    let j = choose|j: int| 0 <= j < s.len() && s[j].0@ == kk;
                    lemma_entry_in_view(s, j);
                    if j != pos {
                        assert(nk[j] != nk[pos as int]);
                        assert(kk != k);
                    } else {
                        assert(s[j].1 == value);
                    }
                    if j < pos {
                        assert(s[j] == old_entries[j]);
                        lemma_entry_in_view(old_entries, j);
                    } else if j > pos {
                        assert(s[j] == old_entries[j - 1]);
                        lemma_entry_in_view(old_entries, j - 1);
                    }
                }
                assert(entries_view(s) =~= entries_view(old_entries).insert(k, value));
            }
        }
        self.entries = entries;
    }
}

impl<V: Copy> SortedMap<V> {
    /// A copy of the map.
    pub fn copied(&self) -> (r: Self)
        ensures
            r@ == self@,
            r.entry_seq() == self.entry_seq(),
    {
        proof {
            use_type_invariant(self);
        }
        let mut entries: Vec<(String, V)> = Vec::new();
        let mut i: usize = 0;
        while i < self.entries.len()
            invariant
                i <= self.entries@.len(),
                entries@ == self.entries@.take(i as int),
            decreases self.entries@.len() - i,
        {
            entries.push((self.entries[i].0.clone(), self.entries[i].1));
            proof {
                assert(entries@ =~= self.entries@.take(i + 1));
            }
            i = i + 1;
        }
        proof {
            assert(self.entries@.take(i as int) =~= self.entries@);
        }
        SortedMap { entries }
    }
}

} // verus!
