//! A map keyed by strings, kept as a vector of entries with distinct keys.

use vstd::prelude::*;

use crate::text::{str_equal, strings_view};

verus! {

/// The keys of a list of entries, in order.
pub open spec fn key_seq<V>(s: Seq<(String, V)>) -> Seq<Seq<char>> {
    s.map_values(|e: (String, V)| e.0@)
}

/// The position of the entry with key `k`.
pub open spec fn index_of_key<V>(s: Seq<(String, V)>, k: Seq<char>) -> int {
    choose|i: int| 0 <= i < s.len() && s[i].0@ == k
}

/// The map that a list of entries with distinct keys stands for.
pub open spec fn entries_view<V>(s: Seq<(String, V)>) -> Map<Seq<char>, V> {
    Map::new(|k: Seq<char>| key_seq(s).contains(k), |k: Seq<char>| s[index_of_key(s, k)].1)
}

/// A map from strings to `V`. Iteration order is insertion order, except that
/// `remove` moves the later entries forward.
#[derive(Debug)]
pub struct StringMap<V> {
    entries: Vec<(String, V)>,
}

impl<V> View for StringMap<V> {
    type V = Map<Seq<char>, V>;

    closed spec fn view(&self) -> Map<Seq<char>, V> {
        entries_view(self.entries@)
    }
}

pub proof fn lemma_entry_in_view<V>(s: Seq<(String, V)>, i: int)
    requires
        key_seq(s).no_duplicates(),
        0 <= i < s.len(),
    ensures
        entries_view(s).contains_key(s[i].0@),
        entries_view(s)[s[i].0@] == s[i].1,
        index_of_key(s, s[i].0@) == i,
{
    assert(key_seq(s)[i] == s[i].0@);
    let j = index_of_key(s, s[i].0@);
    assert(key_seq(s)[j] == s[j].0@);
}

pub proof fn lemma_view_key<V>(s: Seq<(String, V)>, k: Seq<char>)
    ensures
        entries_view(s).contains_key(k) <==> exists|i: int| 0 <= i < s.len() && s[i].0@ == k,
{
    if entries_view(s).contains_key(k) {
        let i = choose|i: int| 0 <= i < key_seq(s).len() && key_seq(s)[i] == k;
        assert(s[i].0@ == k);
    }
    if exists|i: int| 0 <= i < s.len() && s[i].0@ == k {
        let i = choose|i: int| 0 <= i < s.len() && s[i].0@ == k;
        assert(key_seq(s)[i] == k);
    }
}

pub proof fn lemma_view_len<V>(s: Seq<(String, V)>)
    requires
        key_seq(s).no_duplicates(),
    ensures
        entries_view(s).dom().finite(),
        entries_view(s).dom().len() == s.len(),
{
    assert(entries_view(s).dom() =~= key_seq(s).to_set());
    key_seq(s).unique_seq_to_set();
}

pub fn entries_find<V>(entries: &Vec<(String, V)>, key: &str) -> (r: Option<usize>)
    ensures
        r matches Some(i) ==> i < entries@.len() && entries@[i as int].0@ == key@,
        r is None ==> forall|j: int|
            0 <= j < entries@.len() ==> entries@[j].0@ != key@,
{
    let mut i: usize = 0;
    while i < entries.len()
        invariant
            i <= entries@.len(),
            forall|j: int| 0 <= j < i ==> entries@[j].0@ != key@,
        decreases entries@.len() - i,
    {
        if str_equal(entries[i].0.as_str(), key) {
            return Some(i);
        }
        i = i + 1;
    }
    None
}


/// Stores `value` under `key` in a list of entries with distinct keys.
pub fn entries_insert<V>(entries: &mut Vec<(String, V)>, key: String, value: V)
    requires
        key_seq(old(entries)@).no_duplicates(),
    ensures
        key_seq(final(entries)@).no_duplicates(),
        entries_view(final(entries)@) == entries_view(old(entries)@).insert(key@, value),
{
    let ghost old_entries = entries@;
    match entries_find(entries, key.as_str()) {
        Some(i) => {
            let ghost k = key@;
            entries.set(i, (key, value));
            proof {
                let s = entries@;
                assert(key_seq(s) =~= key_seq(old_entries));
            }
            proof {
                let s = entries@;
                assert(key_seq(s) =~= key_seq(old_entries));
                assert forall|kk: Seq<char>|
                    #![trigger entries_view(s).contains_key(kk)]
                    entries_view(s).contains_key(kk) == entries_view(old_entries).insert(
                        k,
                        value,
                    ).contains_key(kk) by {
                    lemma_view_key(s, kk);
                    lemma_view_key(old_entries, kk);
                }
                assert forall|kk: Seq<char>| #[trigger]
                    entries_view(s).contains_key(kk) implies entries_view(s)[kk]
                    == entries_view(old_entries).insert(k, value)[kk] by {
                    lemma_view_key(s, kk);
                    let j = choose|j: int| 0 <= j < s.len() && s[j].0@ == kk;
                    lemma_entry_in_view(s, j);
                    if j != i {
                        assert(key_seq(s)[j] == kk);
                        assert(key_seq(s)[i as int] == k);
                        assert(s[j] == old_entries[j]);
                        lemma_entry_in_view(old_entries, j);
                    } else {
                        assert(s[j].1 == value);
                    }
                }
                assert(entries_view(s) =~= entries_view(old_entries).insert(k, value));
            }
        },
        None => {
            let ghost k = key@;
            entries.push((key, value));
            proof {
                let s = entries@;
                assert(key_seq(s) =~= key_seq(old_entries).push(k));
                assert(key_seq(s).no_duplicates()) by {
                    assert forall|a: int, b: int|
                        0 <= a < key_seq(s).len() && 0 <= b < key_seq(s).len() && a != b
                        implies key_seq(s)[a] != key_seq(s)[b] by {
                        if a < old_entries.len() && b < old_entries.len() {
                            assert(key_seq(old_entries)[a] == key_seq(s)[a]);
                            assert(key_seq(old_entries)[b] == key_seq(s)[b]);
                        } else if a < old_entries.len() {
                            assert(old_entries[a].0@ == key_seq(s)[a]);
                        } else {
                            assert(old_entries[b].0@ == key_seq(s)[b]);
                        }
                    }
                }
            }
            proof {
                let s = entries@;
                assert forall|kk: Seq<char>|
                    #![trigger entries_view(s).contains_key(kk)]
                    entries_view(s).contains_key(kk) == entries_view(old_entries).insert(
                        k,
                        value,
                    ).contains_key(kk) by {
                    lemma_view_key(s, kk);
                    lemma_view_key(old_entries, kk);
                    if exists|j: int| 0 <= j < old_entries.len() && old_entries[j].0@ == kk {
                        let j = choose|j: int|
                            0 <= j < old_entries.len() && old_entries[j].0@ == kk;
                        assert(s[j] == old_entries[j]);
                    }
                    if kk == k {
                        assert(s[old_entries.len() as int].0@ == k);
                    }
                }
                assert forall|kk: Seq<char>| #[trigger]
                    entries_view(s).contains_key(kk) implies entries_view(s)[kk]
                    == entries_view(old_entries).insert(k, value)[kk] by {
                    lemma_view_key(s, kk);
                    let j = choose|j: int| 0 <= j < s.len() && s[j].0@ == kk;
                    lemma_entry_in_view(s, j);
                    if j < old_entries.len() {
                        assert(s[j] == old_entries[j]);
                        lemma_entry_in_view(old_entries, j);
                    }
                }
                assert(entries_view(s) =~= entries_view(old_entries).insert(k, value));
            }
        },
    }
}


/// Removes the entry with key `key` from a list of entries with distinct keys.
pub fn entries_remove<V>(entries: &mut Vec<(String, V)>, key: &str) -> (r: Option<V>)
    requires
        key_seq(old(entries)@).no_duplicates(),
    ensures
        key_seq(final(entries)@).no_duplicates(),
        r is Some <==> entries_view(old(entries)@).contains_key(key@),
        r matches Some(v) ==> v == entries_view(old(entries)@)[key@],
        entries_view(final(entries)@) == entries_view(old(entries)@).remove(key@),
{
    proof {
        lemma_view_key(entries@, key@);
    }
    let ghost old_entries = entries@;
    match entries_find(entries, key) {
        Some(i) => {
            proof {
                lemma_entry_in_view(old_entries, i as int);
            }
            let (_k, v) = entries.remove(i);
            proof {
                let s = entries@;
                assert(key_seq(s) =~= key_seq(old_entries).remove(i as int));
                assert forall|a: int, b: int|
                    0 <= a < key_seq(s).len() && 0 <= b < key_seq(s).len() && a != b
                    implies key_seq(s)[a] != key_seq(s)[b] by {
                    let oa = if a < i { a } else { a + 1 };
                    let ob = if b < i { b } else { b + 1 };
                    assert(key_seq(s)[a] == key_seq(old_entries)[oa]);
                    assert(key_seq(s)[b] == key_seq(old_entries)[ob]);
                }
            }
            proof {
                let s = entries@;
                let k = key@;
                assert forall|kk: Seq<char>|
                    #![trigger entries_view(s).contains_key(kk)]
                    entries_view(s).contains_key(kk) == entries_view(old_entries).remove(
                        k,
                    ).contains_key(kk) by {
                    lemma_view_key(s, kk);
                    lemma_view_key(old_entries, kk);
                    if exists|j: int| 0 <= j < old_entries.len() && old_entries[j].0@ == kk {
                        let j = choose|j: int|
                            0 <= j < old_entries.len() && old_entries[j].0@ == kk;
                        if j < i {
                            assert(s[j] == old_entries[j]);
                        } else if j > i {
                            assert(s[j - 1] == old_entries[j]);
                        } else {
                            assert(kk == k);
                        }
                    }
                    if exists|j: int| 0 <= j < s.len() && s[j].0@ == kk {
                        let j = choose|j: int| 0 <= j < s.len() && s[j].0@ == kk;
                        let oj = if j < i { j } else { j + 1 };
                        assert(s[j] == old_entries[oj]);
                        assert(key_seq(old_entries)[oj] == kk);
                        assert(key_seq(old_entries)[i as int] == k);
                    }
                }
                assert forall|kk: Seq<char>| #[trigger]
                    entries_view(s).contains_key(kk) implies entries_view(s)[kk]
                    == entries_view(old_entries).remove(k)[kk] by {
                    lemma_view_key(s, kk);
                    let j = choose|j: int| 0 <= j < s.len() && s[j].0@ == kk;
                    lemma_entry_in_view(s, j);
                    let oj = if j < i { j } else { j + 1 };
                    assert(s[j] == old_entries[oj]);
                    lemma_entry_in_view(old_entries, oj);
                }
                assert(entries_view(s) =~= entries_view(old_entries).remove(k));
            }
            Some(v)
        },
        None => {
            proof {
                assert(entries_view(entries@) =~= entries_view(old_entries).remove(key@));
            }
            None
        },
    }
}


impl<V> StringMap<V> {
    #[verifier::type_invariant]
    spec fn well_formed(self) -> bool {
        key_seq(self.entries@).no_duplicates()
    }

    /// The entries in iteration order.
    pub closed spec fn entry_seq(&self) -> Seq<(String, V)> {
        self.entries@
    }

    /// An empty map.
    pub fn new() -> (r: Self)
        ensures
            r@ == Map::<Seq<char>, V>::empty(),
    {
        let r = StringMap { entries: Vec::new() };
        assert(r@ =~= Map::<Seq<char>, V>::empty());
        r
    }

    /// The number of entries.
    pub fn len(&self) -> (r: usize)
        ensures
            self@.dom().finite(),
            r == self@.len(),
    {
        proof {
            use_type_invariant(self);
            lemma_view_len(self.entries@);
        }
        self.entries.len()
    }

    /// Whether the map has no entries.
    pub fn is_empty(&self) -> (r: bool)
        ensures
            r <==> self@.dom() == Set::<Seq<char>>::empty(),
    {
        proof {
            use_type_invariant(self);
            lemma_view_len(self.entries@);
            if self.entries@.len() > 0 {
                lemma_entry_in_view(self.entries@, 0);
            }
        }
        let r = self.entries.len() == 0;
        proof {
            if r {
                assert(self@.dom() =~= Set::<Seq<char>>::empty());
            } else {
                assert(self@.dom().contains(self.entries@[0].0@));
            }
        }
        r
    }

    /// The value stored under `key`, if any.
    pub fn get(&self, key: &str) -> (r: Option<&V>)
        ensures
            r is Some <==> self@.contains_key(key@),
            r matches Some(v) ==> *v == self@[key@],
    {
        proof {
            use_type_invariant(self);
            lemma_view_key(self.entries@, key@);
        }
        match entries_find(&self.entries, key) {
            Some(i) => {
                proof {
                    lemma_entry_in_view(self.entries@, i as int);
                }
                Some(&self.entries[i].1)
            },
            None => None,
        }
    }

    /// Whether `key` has an entry.
    pub fn contains_key(&self, key: &str) -> (r: bool)
        ensures
            r == self@.contains_key(key@),
    {
        proof {
            use_type_invariant(self);
            lemma_view_key(self.entries@, key@);
        }
        entries_find(&self.entries, key).is_some()
    }

    /// Stores `value` under `key`, replacing any earlier value.
    pub fn insert(&mut self, key: String, value: V)
        ensures
            final(self)@ == old(self)@.insert(key@, value),
    {
        proof {
            use_type_invariant(&*self);
        }
        let mut entries: Vec<(String, V)> = Vec::new();
        std::mem::swap(&mut entries, &mut self.entries);
        entries_insert(&mut entries, key, value);
        self.entries = entries;
    }

    /// Removes and returns the value stored under `key`, if any.
    pub fn remove(&mut self, key: &str) -> (r: Option<V>)
        ensures
            r is Some <==> old(self)@.contains_key(key@),
            r matches Some(v) ==> v == old(self)@[key@],
            final(self)@ == old(self)@.remove(key@),
    {
        proof {
            use_type_invariant(&*self);
        }
        let mut entries: Vec<(String, V)> = Vec::new();
        std::mem::swap(&mut entries, &mut self.entries);
        let r = entries_remove(&mut entries, key);
        self.entries = entries;
        r
    }

    /// The entries in iteration order.
    pub fn entries(&self) -> (r: &Vec<(String, V)>)
        ensures
            r@ == self.entry_seq(),
            entries_view(r@) == self@,
            key_seq(r@).no_duplicates(),
    {
        proof {
            use_type_invariant(self);
        }
        &self.entries
    }
}

} // verus!

verus! {

/// A set of strings.
#[derive(Debug)]
pub struct StringSet {
    map: StringMap<()>,
}

impl View for StringSet {
    type V = Set<Seq<char>>;

    closed spec fn view(&self) -> Set<Seq<char>> {
        self.map@.dom()
    }
}

impl StringSet {
    /// An empty set.
    pub fn new() -> (r: Self)
        ensures
            r@ == Set::<Seq<char>>::empty(),
    {
        StringSet { map: StringMap::new() }
    }

    /// Whether `item` is in the set.
    pub fn contains(&self, item: &str) -> (r: bool)
        ensures
            r == self@.contains(item@),
    {
        self.map.contains_key(item)
    }

    /// Adds `item` to the set.
    pub fn insert(&mut self, item: String)
        ensures
            final(self)@ == old(self)@.insert(item@),
    {
        self.map.insert(item, ());
    }

    /// Whether the set is empty.
    pub fn is_empty(&self) -> (r: bool)
        ensures
            r <==> self@ == Set::<Seq<char>>::empty(),
    {
        self.map.is_empty()
    }

    /// The number of items.
    pub fn len(&self) -> (r: usize)
        ensures
            self@.finite(),
            r == self@.len(),
    {
        self.map.len()
    }

    /// The items, in insertion order.
    pub fn items(&self) -> (r: Vec<String>)
        ensures
            strings_view(r@).to_set() == self@,
            strings_view(r@).no_duplicates(),
    {
        let entries = self.map.entries();
        let mut r: Vec<String> = Vec::new();
        let mut i: usize = 0;
        while i < entries.len()
            invariant
                i <= entries@.len(),
                strings_view(r@) == key_seq(entries@).take(i as int),
            decreases entries@.len() - i,
        {
            r.push(entries[i].0.clone());
            proof {
                assert(key_seq(entries@).take(i + 1) =~= key_seq(entries@).take(i as int).push(
                    entries@[i as int].0@,
                ));
                assert(strings_view(r@) =~= key_seq(entries@).take(i + 1));
            }
            i = i + 1;
        }
        proof {
            assert(key_seq(entries@).take(i as int) =~= key_seq(entries@));
            assert(self@ =~= key_seq(entries@).to_set());
        }
        r
    }
}

} // verus!
