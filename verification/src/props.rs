//! Observed Java block-state properties: a map from property name to value,
//! kept sorted by name so that two maps with the same entries have the same
//! representation.

use vstd::prelude::*;

use crate::text::{lemma_seq_lt_total, lemma_seq_lt_transitive, seq_lt, str_eq, str_lt};

verus! {

/// A string-to-string property map with entries in strictly increasing key
/// order.
#[derive(Debug, PartialEq, Eq)]
pub struct PropertyMap {
    entries: Vec<(String, String)>,
}

/// Keys strictly increase along `s`.
pub open spec fn sorted_keys(s: Seq<(Seq<char>, Seq<char>)>) -> bool {
    forall|i: int, j: int| 0 <= i < j < s.len() ==> seq_lt(#[trigger] s[i].0, #[trigger] s[j].0)
}

/// The value stored for `key` in an entry list, if any.
pub open spec fn pairs_lookup(s: Seq<(Seq<char>, Seq<char>)>, key: Seq<char>) -> Option<Seq<char>> {
    if exists|i: int| 0 <= i < s.len() && s[i].0 == key {
        Some(s[choose|i: int| 0 <= i < s.len() && s[i].0 == key].1)
    } else {
        None
    }
}

impl PropertyMap {
    /// The entries as character sequences, in key order.
    pub closed spec fn pairs(&self) -> Seq<(Seq<char>, Seq<char>)> {
        self.entries@.map_values(|e: (String, String)| (e.0@, e.1@))
    }

    #[verifier::type_invariant]
    closed spec fn inv(&self) -> bool {
        sorted_keys(self.pairs())
    }

    /// The value stored under `key`.
    pub open spec fn lookup(&self, key: Seq<char>) -> Option<Seq<char>> {
        pairs_lookup(self.pairs(), key)
    }

    /// An empty map.
    pub fn new() -> (r: PropertyMap)
        ensures
            r.pairs() == Seq::<(Seq<char>, Seq<char>)>::empty(),
    {
        let r = PropertyMap { entries: Vec::new() };
        assert(r.pairs() =~= Seq::<(Seq<char>, Seq<char>)>::empty());
        r
    }

    /// Number of entries.
    pub fn len(&self) -> (r: usize)
        ensures
            r == self.pairs().len(),
    {
        self.entries.len()
    }

    /// Whether the map has no entries.
    pub fn is_empty(&self) -> (r: bool)
        ensures
            r == (self.pairs().len() == 0),
    {
        self.entries.len() == 0
    }

    /// Key and value of the entry at `index` (in key order).
    pub fn entry_at(&self, index: usize) -> (r: (&String, &String))
        requires
            index < self.pairs().len(),
        ensures
            r.0@ == self.pairs()[index as int].0,
            r.1@ == self.pairs()[index as int].1,
            self.lookup(r.0@) == Some(r.1@),
    {
        proof {
            use_type_invariant(self);
            lemma_unique_key(self.pairs(), index as int);
        }
        let e = &self.entries[index];
        (&e.0, &e.1)
    }

    /// The value stored under `key`, if any.
    pub fn get(&self, key: &str) -> (r: Option<&String>)
        ensures
            match r {
                Some(v) => self.lookup(key@) == Some(v@),
                None => self.lookup(key@) is None,
            },
    {
        proof {
            use_type_invariant(self);
        }
        let n = self.entries.len();
        let mut i: usize = 0;
        while i < n
            invariant
                n == self.entries.len(),
                i <= n,
                sorted_keys(self.pairs()),
                forall|j: int| 0 <= j < i ==> self.pairs()[j].0 != key@,
            decreases n - i,
        {
            if str_eq(self.entries[i].0.as_str(), key) {
                proof {
                    lemma_unique_key(self.pairs(), i as int);
                }
                return Some(&self.entries[i].1);
            }
            i = i + 1;
        }
        None
    }

    /// Inserts or replaces the value stored under `key`; returns the
    /// previous value.
    pub fn insert(&mut self, key: String, value: String) -> (r: Option<String>)
        ensures
            final(self).lookup(key@) == Some(value@),
            forall|k: Seq<char>| k != key@ ==> final(self).lookup(k) == old(self).lookup(k),
            match r {
                Some(v) => old(self).lookup(key@) == Some(v@),
                None => old(self).lookup(key@) is None,
            },
            final(self).pairs().len() == old(self).pairs().len() + if r is Some { 0int } else { 1 },
    {
        proof {
            use_type_invariant(&*self);
        }
        let mut entries: Vec<(String, String)> = Vec::new();
        std::mem::swap(&mut entries, &mut self.entries);
        let ghost old_pairs = entries@.map_values(|e: (String, String)| (e.0@, e.1@));
        assert(old_pairs == old(self).pairs());
        let n = entries.len();
        let mut i: usize = 0;
        while i < n
            invariant
                n == entries.len(),
                i <= n,
                entries@ == old(self).entries@,
                old_pairs == entries@.map_values(|e: (String, String)| (e.0@, e.1@)),
                sorted_keys(old_pairs),
                forall|j: int| 0 <= j < i ==> seq_lt(#[trigger] old_pairs[j].0, key@),
            ensures
                i <= n,
                entries@ == old(self).entries@,
                old_pairs == entries@.map_values(|e: (String, String)| (e.0@, e.1@)),
                forall|j: int| 0 <= j < i ==> seq_lt(#[trigger] old_pairs[j].0, key@),
                i < n ==> !seq_lt(old_pairs[i as int].0, key@),
            decreases n - i,
        {
            if !str_lt(entries[i].0.as_str(), key.as_str()) {
                break;
            }
            i = i + 1;
        }
        let ghost kv = key@;
        let ghost vv = value@;
        if i < n && str_eq(entries[i].0.as_str(), key.as_str()) {
            proof {
                lemma_unique_key(old_pairs, i as int);
            }
            let (old_key, previous) = entries.remove(i);
            entries.insert(i, (old_key, value));
            let ghost new_pairs = entries@.map_values(|e: (String, String)| (e.0@, e.1@));
            assert(new_pairs =~= old_pairs.update(i as int, (kv, vv)));
            proof {
                assert(sorted_keys(new_pairs));
                lemma_unique_key(new_pairs, i as int);
                assert forall|k: Seq<char>| k != kv implies pairs_lookup(new_pairs, k)
                    == pairs_lookup(old_pairs, k) by {
                    lemma_lookup_after_update(old_pairs, i as int, kv, vv, k);
                }
            }
            self.entries = entries;
            Some(previous)
        } else {
            proof {
                if i < n {
                    lemma_seq_lt_total(old_pairs[i as int].0, kv);
                }
            }
            entries.insert(i, (key, value));
            let ghost new_pairs = entries@.map_values(|e: (String, String)| (e.0@, e.1@));
            assert(new_pairs =~= old_pairs.insert(i as int, (kv, vv)));
            proof {
                assert forall|a: int, b: int| 0 <= a < b < new_pairs.len() implies seq_lt(
                    #[trigger] new_pairs[a].0,
                    #[trigger] new_pairs[b].0,
                ) by {
                    if b < i {
                    } else if b == i {
                    } else if a < i {
                        assert(new_pairs[b] == old_pairs[b - 1]);
                        if i < n {
                            if b - 1 > i {
                                assert(seq_lt(old_pairs[i as int].0, old_pairs[b - 1].0));
                            }
                            lemma_seq_lt_transitive(new_pairs[a].0, kv, old_pairs[i as int].0);
                            if b - 1 > i {
                                lemma_seq_lt_transitive(
                                    new_pairs[a].0,
                                    old_pairs[i as int].0,
                                    old_pairs[b - 1].0,
                                );
                            }
                        }
                    } else if a == i {
                        if b - 1 > i {
                            lemma_seq_lt_transitive(kv, old_pairs[i as int].0, old_pairs[b - 1].0);
                        }
                    } else {
                        assert(new_pairs[a] == old_pairs[a - 1]);
                        assert(new_pairs[b] == old_pairs[b - 1]);
                    }
                }
                lemma_unique_key(new_pairs, i as int);
                assert forall|j: int| 0 <= j < old_pairs.len() implies old_pairs[j].0 != kv by {
                    if j < i {
                        lemma_seq_lt_total(old_pairs[j].0, kv);
                    } else if i < n {
                        if j > i {
                            assert(seq_lt(old_pairs[i as int].0, old_pairs[j].0));
                            lemma_seq_lt_transitive(kv, old_pairs[i as int].0, old_pairs[j].0);
                        }
                        lemma_seq_lt_total(kv, old_pairs[j].0);
                    }
                }
                assert forall|k: Seq<char>| k != kv implies pairs_lookup(new_pairs, k)
                    == pairs_lookup(old_pairs, k) by {
                    lemma_lookup_after_insert(old_pairs, i as int, kv, vv, k);
                }
            }
            self.entries = entries;
            None
        }
    }

    /// Removes every entry.
    pub fn clear(&mut self)
        ensures
            final(self).pairs() == Seq::<(Seq<char>, Seq<char>)>::empty(),
    {
        self.entries = Vec::new();
        assert(self.pairs() =~= Seq::<(Seq<char>, Seq<char>)>::empty());
    }

    /// A copy with the same entries.
    pub fn copy(&self) -> (r: PropertyMap)
        ensures
            r.pairs() == self.pairs(),
    {
        proof {
            use_type_invariant(self);
        }
        let n = self.entries.len();
        let mut entries: Vec<(String, String)> = Vec::new();
        let mut i: usize = 0;
        while i < n
            invariant
                n == self.entries.len(),
                i <= n,
                entries.len() == i,
                forall|j: int| 0 <= j < i ==> #[trigger] entries@[j] == self.entries@[j],
            decreases n - i,
        {
            let k = self.entries[i].0.clone();
            let v = self.entries[i].1.clone();
            entries.push((k, v));
            i = i + 1;
        }
        assert(entries@ =~= self.entries@);
        PropertyMap { entries }
    }

    /// Whether two maps hold the same entries.
    pub fn same_entries(&self, other: &PropertyMap) -> (r: bool)
        ensures
            r == (self.pairs() == other.pairs()),
    {
        let n = self.entries.len();
        assert(self.pairs().len() == self.entries.len());
        assert(other.pairs().len() == other.entries.len());
        if n != other.entries.len() {
            return false;
        }
        let mut i: usize = 0;
        while i < n
            invariant
                n == self.entries.len(),
                n == other.entries.len(),
                i <= n,
                forall|j: int| 0 <= j < i ==> self.pairs()[j] == other.pairs()[j],
            decreases n - i,
        {
            if !str_eq(self.entries[i].0.as_str(), other.entries[i].0.as_str()) || !str_eq(
                self.entries[i].1.as_str(),
                other.entries[i].1.as_str(),
            ) {
                assert(self.pairs()[i as int] != other.pairs()[i as int]);
                return false;
            }
            i = i + 1;
        }
        assert(self.pairs() =~= other.pairs());
        true
    }
}

/// In a sorted entry list the entry at `i` is the one found for its key.
pub proof fn lemma_unique_key(s: Seq<(Seq<char>, Seq<char>)>, i: int)
    requires
        sorted_keys(s),
        0 <= i < s.len(),
    ensures
        pairs_lookup(s, s[i].0) == Some(s[i].1),
        forall|j: int| 0 <= j < s.len() && s[j].0 == s[i].0 ==> j == i,
{
    assert forall|j: int| 0 <= j < s.len() && s[j].0 == s[i].0 implies j == i by {
        if j < i {
            lemma_seq_lt_total(s[j].0, s[i].0);
        } else if j > i {
            lemma_seq_lt_total(s[i].0, s[j].0);
        }
    }
    let c = choose|k: int| 0 <= k < s.len() && s[k].0 == s[i].0;
    assert(c == i);
}

/// Replacing the value at `i` leaves lookups of other keys unchanged.
proof fn lemma_lookup_after_update(
    a: Seq<(Seq<char>, Seq<char>)>,
    i: int,
    kv: Seq<char>,
    vv: Seq<char>,
    k: Seq<char>,
)
    requires
        sorted_keys(a),
        0 <= i < a.len(),
        a[i].0 == kv,
        k != kv,
        sorted_keys(a.update(i, (kv, vv))),
    ensures
        pairs_lookup(a.update(i, (kv, vv)), k) == pairs_lookup(a, k),
{
    let b = a.update(i, (kv, vv));
    if exists|j: int| 0 <= j < a.len() && a[j].0 == k {
        let j = choose|j: int| 0 <= j < a.len() && a[j].0 == k;
        lemma_unique_key(a, j);
        assert(b[j] == a[j]);
        lemma_unique_key(b, j);
    } else {
        assert forall|j: int| 0 <= j < b.len() implies b[j].0 != k by {
            if j != i {
                assert(b[j] == a[j]);
            }
        }
    }
}

/// Inserting a new key at `i` leaves lookups of other keys unchanged.
proof fn lemma_lookup_after_insert(
    a: Seq<(Seq<char>, Seq<char>)>,
    i: int,
    kv: Seq<char>,
    vv: Seq<char>,
    k: Seq<char>,
)
    requires
        sorted_keys(a),
        0 <= i <= a.len(),
        k != kv,
        sorted_keys(a.insert(i, (kv, vv))),
    ensures
        pairs_lookup(a.insert(i, (kv, vv)), k) == pairs_lookup(a, k),
{
    let b = a.insert(i, (kv, vv));
    if exists|j: int| 0 <= j < a.len() && a[j].0 == k {
        let j = choose|j: int| 0 <= j < a.len() && a[j].0 == k;
        lemma_unique_key(a, j);
        let jb = if j < i { j } else { j + 1 };
        assert(b[jb] == a[j]);
        lemma_unique_key(b, jb);
    } else {
        assert forall|j: int| 0 <= j < b.len() implies b[j].0 != k by {
            if j < i {
                assert(b[j] == a[j]);
            } else if j > i {
                assert(b[j] == a[j - 1]);
            }
        }
    }
}

} // verus!
