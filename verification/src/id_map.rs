//! A map from numeric ids to values, kept in increasing id order.
//!
//! The graph stores nodes, ports and links by id and walks them in id order,
//! so the map is a vector sorted by key: iteration order is the key order,
//! and a value's key is read from the value itself.

use vstd::prelude::*;

verus! {

/// A value that carries its own numeric key.
pub trait Keyed {
    spec fn id_key(&self) -> u64;

    fn key(&self) -> (k: u64)
        ensures
            k == self.id_key(),
    ;
}

/// Keys strictly increase along the sequence.
pub open spec fn keys_increasing<T: Keyed>(s: Seq<T>) -> bool {
    forall|i: int, j: int| 0 <= i < j < s.len() ==> s[i].id_key() < s[j].id_key()
}

/// Whether some entry of `s` has key `k`.
pub open spec fn seq_has_key<T: Keyed>(s: Seq<T>, k: u64) -> bool {
    exists|i: int| 0 <= i < s.len() && s[i].id_key() == k
}

/// The map a sequence of keyed values stands for.
pub open spec fn seq_map<T: Keyed>(s: Seq<T>) -> Map<u64, T> {
    Map::new(
        |k: u64| seq_has_key(s, k),
        |k: u64| s[choose|i: int| 0 <= i < s.len() && s[i].id_key() == k],
    )
}

/// In an increasing sequence, the entry at `i` is what the map holds for its key.
pub proof fn lemma_seq_map_index<T: Keyed>(s: Seq<T>, i: int)
    requires
        keys_increasing(s),
        0 <= i < s.len(),
    ensures
        seq_map(s).contains_key(s[i].id_key()),
        seq_map(s)[s[i].id_key()] == s[i],
{
    let k = s[i].id_key();
    assert(seq_has_key(s, k));
    let j = choose|j: int| 0 <= j < s.len() && s[j].id_key() == k;
    assert(s[j].id_key() == k);
    if j < i {
        assert(s[j].id_key() < s[i].id_key());
    } else if i < j {
        assert(s[i].id_key() < s[j].id_key());
    }
}

/// An increasing sequence has exactly as many entries as its map has keys.
pub proof fn lemma_seq_map_len<T: Keyed>(s: Seq<T>)
    requires
        keys_increasing(s),
    ensures
        seq_map(s).dom().finite(),
        seq_map(s).dom().len() == s.len(),
{
    let ks = s.map_values(|v: T| v.id_key());
    assert(ks.no_duplicates()) by {
        assert forall|i: int, j: int| 0 <= i < ks.len() && 0 <= j < ks.len() && i != j implies ks[i]
            != ks[j] by {
            if i < j {
                assert(s[i].id_key() < s[j].id_key());
            } else {
                assert(s[j].id_key() < s[i].id_key());
            }
        }
    }
    assert(seq_map(s).dom() =~= ks.to_set()) by {
        assert forall|k: u64| seq_map(s).dom().contains(k) implies ks.to_set().contains(k) by {
            let i = choose|i: int| 0 <= i < s.len() && s[i].id_key() == k;
            assert(ks[i] == k);
        }
        assert forall|k: u64| ks.to_set().contains(k) implies seq_map(s).dom().contains(k) by {
            let i = choose|i: int| 0 <= i < ks.len() && ks[i] == k;
            assert(s[i].id_key() == k);
        }
    }
    ks.unique_seq_to_set();
}

/// Values keyed by id, in increasing id order.
pub struct IdMap<T: Keyed> {
    entries: Vec<T>,
}

impl<T: Keyed> View for IdMap<T> {
    type V = Map<u64, T>;

    closed spec fn view(&self) -> Map<u64, T> {
        seq_map(self.entries@)
    }
}

impl<T: Keyed> IdMap<T> {
    #[verifier::type_invariant]
    closed spec fn sorted(&self) -> bool {
        keys_increasing(self.entries@)
    }

    /// The values in increasing key order.
    pub closed spec fn entries(&self) -> Seq<T> {
        self.entries@
    }

    /// An empty map.
    pub fn new() -> (map: Self)
        ensures
            map@ == Map::<u64, T>::empty(),
            map.entries() == Seq::<T>::empty(),
    {
        let map = IdMap { entries: Vec::new() };
        assert(map@ =~= Map::<u64, T>::empty());
        map
    }

    /// The values in increasing key order. They are exactly the map's values.
    pub fn values(&self) -> (values: &[T])
        ensures
            values@ == self.entries(),
            keys_increasing(values@),
            seq_map(values@) == self@,
    {
        proof {
            use_type_invariant(self);
        }
        self.entries.as_slice()
    }

    /// The values in increasing key order, each key of the map being the
    /// key of one of them.
    pub fn ordered_values(&self) -> (values: &[T])
        ensures
            values@ == self.entries(),
            keys_increasing(values@),
            forall|k: u64|
                #[trigger] self@.contains_key(k) ==> exists|j: int|
                    0 <= j < values@.len() && values@[j].id_key() == k,
    {
        proof {
            use_type_invariant(self);
            assert forall|k: u64| #[trigger] self@.contains_key(k) implies exists|j: int|
                0 <= j < self.entries@.len() && self.entries@[j].id_key() == k by {
                assert(seq_has_key(self.entries@, k));
            }
        }
        self.entries.as_slice()
    }

    /// Number of entries.
    pub fn len(&self) -> (n: usize)
        ensures
            n == self.entries().len(),
            n == self@.dom().len(),
    {
        proof {
            use_type_invariant(self);
            lemma_seq_map_len(self.entries@);
        }
        self.entries.len()
    }

    pub fn is_empty(&self) -> (empty: bool)
        ensures
            empty == (self@.dom().len() == 0),
            empty == (self.entries().len() == 0),
    {
        proof {
            use_type_invariant(self);
            lemma_seq_map_len(self.entries@);
        }
        self.entries.len() == 0
    }

    /// Position of the first entry whose key is at least `k`.
    fn position(&self, k: u64) -> (pos: usize)
        ensures
            pos <= self.entries@.len(),
            forall|i: int| 0 <= i < pos ==> self.entries@[i].id_key() < k,
            forall|i: int| pos <= i < self.entries@.len() ==> self.entries@[i].id_key() >= k,
    {
        proof {
            use_type_invariant(self);
        }
        let mut pos: usize = 0;
        while pos < self.entries.len()
            invariant
                pos <= self.entries@.len(),
                keys_increasing(self.entries@),
                forall|i: int| 0 <= i < pos ==> self.entries@[i].id_key() < k,
            decreases self.entries@.len() - pos,
        {
            if self.entries[pos].key() >= k {
                proof {
                    assert forall|i: int| pos <= i < self.entries@.len() implies self.entries@[i].id_key()
                        >= k by {
                        if i > pos {
                            assert(self.entries@[pos as int].id_key() < self.entries@[i].id_key());
                        }
                    }
                }
                return pos;
            }
            pos = pos + 1;
        }
        pos
    }

    /// Index of the entry with key `k`, if there is one.
    fn index_of(&self, k: u64) -> (found: Option<usize>)
        ensures
            match found {
                Some(i) => i < self.entries@.len() && self.entries@[i as int].id_key() == k,
                None => !self@.contains_key(k),
            },
    {
        proof {
            use_type_invariant(self);
        }
        let pos = self.position(k);
        if pos < self.entries.len() && self.entries[pos].key() == k {
            Some(pos)
        } else {
            proof {
                if self@.contains_key(k) {
                    let i = choose|i: int| 0 <= i < self.entries@.len() && self.entries@[i].id_key() == k;
                    if i < pos {
                    } else if i > pos {
                        assert(self.entries@[pos as int].id_key() < self.entries@[i].id_key());
                    }
                }
            }
            None
        }
    }

    pub fn contains_key(&self, k: u64) -> (found: bool)
        ensures
            found == self@.contains_key(k),
    {
        match self.index_of(k) {
            Some(i) => {
                proof {
                    assert(seq_has_key(self.entries@, k));
                }
                true
            },
            None => false,
        }
    }

    pub fn get(&self, k: u64) -> (value: Option<&T>)
        ensures
            match value {
                Some(v) => self@.contains_key(k) && *v == self@[k] && v.id_key() == k,
                None => !self@.contains_key(k),
            },
    {
        proof {
            use_type_invariant(self);
        }
        match self.index_of(k) {
            Some(i) => {
                proof {
                    lemma_seq_map_index(self.entries@, i as int);
                }
                Some(&self.entries[i])
            },
            None => None,
        }
    }

    /// Insert or replace the value under its own key, returning what it replaced.
    pub fn insert(&mut self, value: T) -> (previous: Option<T>)
        ensures
            final(self)@ == old(self)@.insert(value.id_key(), value),
            match previous {
                Some(p) => old(self)@.contains_key(value.id_key()) && p == old(self)@[value.id_key()],
                None => !old(self)@.contains_key(value.id_key()),
            },
    {
        proof {
            use_type_invariant(&*self);
        }
        let k = value.key();
        let pos = self.position(k);
        let mut entries = Vec::new();
        std::mem::swap(&mut entries, &mut self.entries);
        let ghost before = entries@;
        assert(keys_increasing(before));
        if pos < entries.len() && entries[pos].key() == k {
            let old_value = entries.remove(pos);
            entries.insert(pos, value);
            proof {
                lemma_seq_map_index(before, pos as int);
                let after = entries@;
                assert(after =~= before.update(pos as int, value));
                assert(keys_increasing(after));
                assert forall|kk: u64| #![auto] seq_map(after).contains_key(kk) == seq_map(before).insert(k, value).contains_key(kk) by {
                    if seq_has_key(before, kk) {
                        let i = choose|i: int| 0 <= i < before.len() && before[i].id_key() == kk;
                        assert(after[i].id_key() == kk);
                    }
                    if seq_has_key(after, kk) {
                        let i = choose|i: int| 0 <= i < after.len() && after[i].id_key() == kk;
                        assert(before[i].id_key() == kk);
                    }
                }
                assert forall|kk: u64| seq_map(after).contains_key(kk) implies seq_map(after)[kk] == seq_map(before).insert(k, value)[kk] by {
                    let i = choose|i: int| 0 <= i < after.len() && after[i].id_key() == kk;
                    lemma_seq_map_index(after, i);
                    if i != pos {
                        lemma_seq_map_index(before, i);
                    }
                }
                assert(seq_map(after) =~= seq_map(before).insert(k, value));
            }
            self.entries = entries;
            Some(old_value)
        } else {
            entries.insert(pos, value);
            proof {
                let after = entries@;
                assert(after =~= before.insert(pos as int, value));
                assert(!seq_has_key(before, k)) by {
                    if seq_has_key(before, k) {
                        let i = choose|i: int| 0 <= i < before.len() && before[i].id_key() == k;
                        if i > pos {
                            assert(before[pos as int].id_key() < before[i].id_key());
                        }
                    }
                }
                assert(keys_increasing(after));
                assert forall|kk: u64| #![auto] seq_map(after).contains_key(kk) == seq_map(before).insert(k, value).contains_key(kk) by {
                    if seq_has_key(before, kk) {
                        let i = choose|i: int| 0 <= i < before.len() && before[i].id_key() == kk;
                        if i < pos {
                            assert(after[i].id_key() == kk);
                        } else {
                            assert(after[i + 1].id_key() == kk);
                        }
                    }
                    if seq_has_key(after, kk) {
                        let i = choose|i: int| 0 <= i < after.len() && after[i].id_key() == kk;
                        if i < pos {
                            assert(before[i].id_key() == kk);
                        } else if i > pos {
                            assert(before[i - 1].id_key() == kk);
                        }
                    }
                    assert(after[pos as int].id_key() == k);
                }
                assert forall|kk: u64| seq_map(after).contains_key(kk) implies seq_map(after)[kk] == seq_map(before).insert(k, value)[kk] by {
                    let i = choose|i: int| 0 <= i < after.len() && after[i].id_key() == kk;
                    lemma_seq_map_index(after, i);
                    if i < pos {
                        lemma_seq_map_index(before, i);
                    } else if i > pos {
                        lemma_seq_map_index(before, i - 1);
                    }
                }
                assert(seq_map(after) =~= seq_map(before).insert(k, value));
            }
            self.entries = entries;
            None
        }
    }

    /// Remove the value under `k`, returning it.
    pub fn remove(&mut self, k: u64) -> (removed: Option<T>)
        ensures
            final(self)@ == old(self)@.remove(k),
            removed is None ==> *final(self) == *old(self),
            match removed {
                Some(v) => old(self)@.contains_key(k) && v == old(self)@[k] && v.id_key() == k,
                None => !old(self)@.contains_key(k),
            },
    {
        proof {
            use_type_invariant(&*self);
        }
        match self.index_of(k) {
            None => {
                assert(self@ =~= self@.remove(k));
                None
            },
            Some(pos) => {
                let mut entries = Vec::new();
                std::mem::swap(&mut entries, &mut self.entries);
                let ghost before = entries@;
                let v = entries.remove(pos);
                proof {
                    lemma_seq_map_index(before, pos as int);
                    let after = entries@;
                    assert(after =~= before.remove(pos as int));
                    assert(keys_increasing(after));
                    assert forall|kk: u64| #![auto] seq_map(after).contains_key(kk) == seq_map(before).remove(k).contains_key(kk) by {
                        if seq_has_key(before, kk) && kk != k {
                            let i = choose|i: int| 0 <= i < before.len() && before[i].id_key() == kk;
                            if i < pos {
                                assert(after[i].id_key() == kk);
                            } else {
                                assert(i != pos);
                                assert(after[i - 1].id_key() == kk);
                            }
                        }
                        if seq_has_key(after, kk) {
                            let i = choose|i: int| 0 <= i < after.len() && after[i].id_key() == kk;
                            if i < pos {
                                assert(before[i].id_key() == kk);
                                assert(before[i].id_key() < before[pos as int].id_key());
                            } else {
                                assert(before[i + 1].id_key() == kk);
                                assert(before[pos as int].id_key() < before[i + 1].id_key());
                            }
                        }
                    }
                    assert forall|kk: u64| seq_map(after).contains_key(kk) implies seq_map(after)[kk] == seq_map(before).remove(k)[kk] by {
                        let i = choose|i: int| 0 <= i < after.len() && after[i].id_key() == kk;
                        lemma_seq_map_index(after, i);
                        if i < pos {
                            lemma_seq_map_index(before, i);
                        } else {
                            lemma_seq_map_index(before, i + 1);
                        }
                    }
                    assert(seq_map(after) =~= seq_map(before).remove(k));
                }
                self.entries = entries;
                Some(v)
            },
        }
    }
}

} // verus!
