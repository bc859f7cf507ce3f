//! A small association container keyed by `u64`, used for the per-session
//! handshake registry and for the transaction pool's id-indexed sets.
//!
//! Entries are kept in insertion order in a vector with pairwise-distinct
//! keys; the abstract value is a `Map<u64, V>`, and the key order is exposed
//! as a sequence so that callers can iterate deterministically.

use vstd::prelude::*;

verus! {

/// The map denoted by a sequence of key/value pairs; later entries win,
/// though `KeyMap` never stores a key twice.
pub open spec fn map_of<V>(s: Seq<(u64, V)>) -> Map<u64, V>
    decreases s.len(),
{
    if s.len() == 0 {
        Map::empty()
    } else {
        map_of(s.drop_last()).insert(s.last().0, s.last().1)
    }
}

/// Pairwise-distinct keys.
pub open spec fn distinct_keys<V>(s: Seq<(u64, V)>) -> bool {
    forall|i: int, j: int| 0 <= i < j < s.len() ==> s[i].0 != s[j].0
}

proof fn lemma_map_of_contains<V>(s: Seq<(u64, V)>, k: u64)
    ensures
        map_of(s).contains_key(k) <==> exists|i: int| 0 <= i < s.len() && s[i].0 == k,
    decreases s.len(),
{
    if s.len() > 0 {
        lemma_map_of_contains(s.drop_last(), k);
        if s.last().0 == k {
            assert(s[s.len() - 1].0 == k);
        } else if map_of(s).contains_key(k) {
            let i = choose|i: int| 0 <= i < s.drop_last().len() && s.drop_last()[i].0 == k;
            assert(s[i].0 == k);
        } else {
            assert forall|i: int| 0 <= i < s.len() && s[i].0 == k implies false by {
                assert(i < s.len() - 1 ==> s.drop_last()[i].0 == k);
            }
        }
    }
}

proof fn lemma_map_of_get<V>(s: Seq<(u64, V)>, i: int)
    requires
        distinct_keys(s),
        0 <= i < s.len(),
    ensures
        map_of(s).contains_key(s[i].0),
        map_of(s)[s[i].0] == s[i].1,
    decreases s.len(),
{
    if i == s.len() - 1 {
        assert(s.last() == s[i]);
    } else {
        lemma_map_of_get(s.drop_last(), i);
        assert(s.drop_last()[i] == s[i]);
        assert(s.last().0 != s[i].0);
    }
}

proof fn lemma_map_of_dom_finite<V>(s: Seq<(u64, V)>)
    ensures
        map_of(s).dom().finite(),
        map_of(s).dom().len() <= s.len(),
        distinct_keys(s) ==> map_of(s).dom().len() == s.len(),
    decreases s.len(),
{
    if s.len() > 0 {
        lemma_map_of_dom_finite(s.drop_last());
        let k = s.last().0;
        if map_of(s.drop_last()).contains_key(k) {
            assert(map_of(s).dom() =~= map_of(s.drop_last()).dom());
            lemma_map_of_contains(s.drop_last(), k);
            let i = choose|i: int|
                0 <= i < s.drop_last().len() && s.drop_last()[i].0 == k;
            assert(s[i].0 == s[s.len() - 1].0);
        } else {
            assert(map_of(s).dom() =~= map_of(s.drop_last()).dom().insert(k));
        }
    }
}

proof fn lemma_map_of_update<V>(s: Seq<(u64, V)>, i: int, v: V)
    requires
        distinct_keys(s),
        0 <= i < s.len(),
    ensures
        map_of(s.update(i, (s[i].0, v))) =~= map_of(s).insert(s[i].0, v),
    decreases s.len(),
{
    let t = s.update(i, (s[i].0, v));
    if i == s.len() - 1 {
        assert(t.drop_last() =~= s.drop_last());
        assert(t.last() == (s[i].0, v));
    } else {
        assert(t.drop_last() =~= s.drop_last().update(i, (s[i].0, v)));
        assert(t.last() == s.last());
        lemma_map_of_update(s.drop_last(), i, v);
        assert(s.drop_last()[i] == s[i]);
        assert(s.last().0 != s[i].0);
    }
}

proof fn lemma_map_of_remove_at<V>(s: Seq<(u64, V)>, i: int)
    requires
        distinct_keys(s),
        0 <= i < s.len(),
    ensures
        map_of(s.remove(i)) =~= map_of(s).remove(s[i].0),
    decreases s.len(),
{
    let k = s[i].0;
    if i == s.len() - 1 {
        assert(s.remove(i) =~= s.drop_last());
        lemma_map_of_contains(s.drop_last(), k);
        assert forall|j: int| 0 <= j < s.drop_last().len() implies s.drop_last()[j].0 != k by {
            assert(s[j].0 != s[i].0);
        }
        assert(!map_of(s.drop_last()).contains_key(k));
        assert(map_of(s).remove(k) =~= map_of(s.drop_last()));
    } else {
        let t = s.remove(i);
        assert(t.drop_last() =~= s.drop_last().remove(i));
        assert(t.last() == s.last());
        lemma_map_of_remove_at(s.drop_last(), i);
        assert(s.drop_last()[i] == s[i]);
        assert(s.last().0 != k);
    }
}

/// An insertion-ordered map from `u64` keys to values.
pub struct KeyMap<V> {
    entries: Vec<(u64, V)>,
}

impl<V> View for KeyMap<V> {
    type V = Map<u64, V>;

    closed spec fn view(&self) -> Map<u64, V> {
        map_of(self.entries@)
    }
}

impl<V> KeyMap<V> {
    #[verifier::type_invariant]
    spec fn wf(self) -> bool {
        distinct_keys(self.entries@)
    }

    /// The keys, oldest insertion first.
    pub closed spec fn key_seq(self) -> Seq<u64> {
        self.entries@.map_values(|p: (u64, V)| p.0)
    }

    /// An empty map.
    pub fn new() -> (r: KeyMap<V>)
        ensures
            r@ == Map::<u64, V>::empty(),
            r.key_seq() == Seq::<u64>::empty(),
    {
        let r = KeyMap { entries: Vec::new() };
        proof {
            assert(r.key_seq() =~= Seq::<u64>::empty());
        }
        r
    }

    /// How many keys are stored. The ensures also relate the abstract map to
    /// the key order: the keys are exactly the map's domain, without
    /// repetition, so a scan over positions `0..r` visits every key once.
    pub fn len(&self) -> (r: usize)
        ensures
            r == self.key_seq().len(),
            self@.dom().finite(),
            r == self@.dom().len(),
            forall|i: int, j: int|
                0 <= i < j < self.key_seq().len() ==> self.key_seq()[i] != self.key_seq()[j],
            forall|i: int|
                0 <= i < self.key_seq().len() ==> self@.contains_key(#[trigger] self.key_seq()[i]),
            forall|k: u64| self@.contains_key(k) ==> self.key_seq().contains(k),
    {
        proof {
            use_type_invariant(self);
            lemma_map_of_dom_finite(self.entries@);
            assert forall|i: int|
                0 <= i < self.key_seq().len() implies self@.contains_key(
                #[trigger] self.key_seq()[i],
            ) by {
                lemma_map_of_get(self.entries@, i);
            }
            assert forall|k: u64| self@.contains_key(k) implies self.key_seq().contains(k) by {
                lemma_map_of_contains(self.entries@, k);
                let i = choose|i: int| 0 <= i < self.entries@.len() && self.entries@[i].0 == k;
                assert(self.key_seq()[i] == k);
            }
        }
        self.entries.len()
    }

    /// The key at a given position of the insertion order.
    pub fn key_at(&self, i: usize) -> (r: u64)
        requires
            i < self.key_seq().len(),
        ensures
            r == self.key_seq()[i as int],
            self@.contains_key(r),
    {
        proof {
            use_type_invariant(self);
            lemma_map_of_get(self.entries@, i as int);
        }
        self.entries[i].0
    }

    /// Whether `k` is present.
    #[verifier::loop_isolation(false)]
    pub fn contains_key(&self, k: u64) -> (r: bool)
        ensures
            r == self@.contains_key(k),
    {
        proof {
            use_type_invariant(self);
            lemma_map_of_contains(self.entries@, k);
        }
        let n = self.entries.len();
        let mut i: usize = 0;
        while i < n
            invariant
                n == self.entries@.len(),
                i <= n,
                forall|j: int| 0 <= j < i ==> self.entries@[j].0 != k,
            decreases n - i,
        {
            if self.entries[i].0 == k {
                return true;
            }
            i = i + 1;
        }
        false
    }

    /// Look a key up.
    #[verifier::loop_isolation(false)]
    pub fn get(&self, k: u64) -> (r: Option<&V>)
        ensures
            match r {
                Some(v) => self@.contains_key(k) && *v == self@[k],
                None => !self@.contains_key(k),
            },
    {
        proof {
            use_type_invariant(self);
            lemma_map_of_contains(self.entries@, k);
        }
        let n = self.entries.len();
        let mut i: usize = 0;
        while i < n
            invariant
                n == self.entries@.len(),
                i <= n,
                distinct_keys(self.entries@),
                forall|j: int| 0 <= j < i ==> self.entries@[j].0 != k,
            decreases n - i,
        {
            if self.entries[i].0 == k {
                proof {
                    lemma_map_of_get(self.entries@, i as int);
                }
                return Some(&self.entries[i].1);
            }
            i = i + 1;
        }
        None
    }

    /// Insert or replace the value under `k`. A fresh key is appended to the
    /// key order; a present key keeps its position.
    #[verifier::loop_isolation(false)]
    pub fn insert(&mut self, k: u64, v: V)
        ensures
            final(self)@ == old(self)@.insert(k, v),
            final(self).key_seq() == if old(self)@.contains_key(k) {
                old(self).key_seq()
            } else {
                old(self).key_seq().push(k)
            },
    {
        proof {
            use_type_invariant(&*self);
            lemma_map_of_contains(self.entries@, k);
        }
        let ghost s0 = self.entries@;
        let mut entries = Vec::new();
        std::mem::swap(&mut entries, &mut self.entries);
        let n = entries.len();
        let mut i: usize = 0;
        while i < n
            invariant
                n == entries@.len(),
                i <= n,
                entries@ == s0,
                distinct_keys(s0),
                forall|j: int| 0 <= j < i ==> s0[j].0 != k,
            decreases n - i,
        {
            if entries[i].0 == k {
                entries[i] = (k, v);
                proof {
                    assert(s0[i as int].0 == k);
                    lemma_map_of_update(s0, i as int, v);
                    assert(entries@.map_values(|p: (u64, V)| p.0) =~= s0.map_values(
                        |p: (u64, V)| p.0,
                    ));
                    lemma_map_of_get(s0, i as int);
                }
                self.entries = entries;
                return;
            }
            i = i + 1;
        }
        entries.push((k, v));
        proof {
            assert(entries@.drop_last() =~= s0);
            assert(map_of(entries@) == map_of(s0).insert(k, v));
            assert(entries@.map_values(|p: (u64, V)| p.0) =~= s0.map_values(
                |p: (u64, V)| p.0,
            ).push(k));
        }
        self.entries = entries;
    }

    /// Remove `k`, handing back its value when it was present.
    #[verifier::loop_isolation(false)]
    pub fn remove(&mut self, k: u64) -> (r: Option<V>)
        ensures
            final(self)@ == old(self)@.remove(k),
            match r {
                Some(v) => old(self)@.contains_key(k) && v == old(self)@[k],
                None => !old(self)@.contains_key(k),
            },
            !old(self)@.contains_key(k) ==> final(self).key_seq() == old(self).key_seq(),
            forall|k2: u64|
                final(self)@.contains_key(k2) == (old(self)@.contains_key(k2) && k2 != k),
    {
        proof {
            use_type_invariant(&*self);
            lemma_map_of_contains(self.entries@, k);
        }
        let ghost s0 = self.entries@;
        let mut entries = Vec::new();
        std::mem::swap(&mut entries, &mut self.entries);
        let n = entries.len();
        let mut i: usize = 0;
        while i < n
            invariant
                n == entries@.len(),
                i <= n,
                entries@ == s0,
                distinct_keys(s0),
                forall|j: int| 0 <= j < i ==> s0[j].0 != k,
            decreases n - i,
        {
            if entries[i].0 == k {
                let (_, v) = entries.remove(i);
                proof {
                    lemma_map_of_remove_at(s0, i as int);
                    lemma_map_of_get(s0, i as int);
                    assert forall|a: int, b: int|
                        0 <= a < b < entries@.len() implies entries@[a].0 != entries@[b].0 by {
                        if b < i {
                            assert(entries@[a] == s0[a] && entries@[b] == s0[b]);
                        } else if a < i {
                            assert(entries@[a] == s0[a] && entries@[b] == s0[b + 1]);
                        } else {
                            assert(entries@[a] == s0[a + 1] && entries@[b] == s0[b + 1]);
                        }
                    }
                }
                self.entries = entries;
                return Some(v);
            }
            i = i + 1;
        }
        proof {
            assert(map_of(s0).remove(k) =~= map_of(s0));
        }
        self.entries = entries;
        None
    }
}

} // verus!
