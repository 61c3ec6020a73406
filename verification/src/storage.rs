//! The storage core both record stores share: a vector of entries with
//! pairwise distinct byte-string keys, seen abstractly as a map from key to
//! entry. Point lookup, conditional insert, and take-out are the operation
//! classes the stores above it need.

use vstd::prelude::*;

verus! {

/// An entry a store can hold: something filed under a byte-string key.
pub trait Keyed: Sized {
    /// The key the entry is filed under.
    spec fn key(&self) -> Seq<u8>;

    /// Decides whether this entry's key is `k`.
    fn has_key(&self, k: &Vec<u8>) -> (r: bool)
        ensures
            r == (self.key() == k@),
    ;

    /// The entry's key as bytes.
    fn key_bytes(&self) -> (r: Vec<u8>)
        ensures
            r@ == self.key(),
    ;
}

/// The map a sequence of keyed entries stands for; a later entry with the
/// same key would shadow an earlier one, but well-formed stores keep keys
/// distinct.
pub open spec fn entries_map<T: Keyed>(s: Seq<T>) -> Map<Seq<u8>, T>
    decreases s.len(),
{
    if s.len() == 0 {
        Map::empty()
    } else {
        entries_map(s.drop_last()).insert(s.last().key(), s.last())
    }
}

/// Keys are pairwise distinct.
pub open spec fn distinct_keys<T: Keyed>(s: Seq<T>) -> bool {
    forall|i: int, j: int| 0 <= i < j < s.len() ==> s[i].key() != s[j].key()
}

/// A key is in the map exactly when some entry carries it.
proof fn lemma_entries_map_contains<T: Keyed>(s: Seq<T>, k: Seq<u8>)
    ensures
        entries_map(s).dom().contains(k) <==> exists|i: int| 0 <= i < s.len() && s[i].key() == k,
    decreases s.len(),
{
    if s.len() > 0 {
        lemma_entries_map_contains(s.drop_last(), k);
        if entries_map(s).dom().contains(k) && s.last().key() != k {
            let i = choose|i: int| 0 <= i < s.drop_last().len() && s.drop_last()[i].key() == k;
            assert(s[i].key() == k);
        }
        if exists|i: int| 0 <= i < s.len() && s[i].key() == k {
            let i = choose|i: int| 0 <= i < s.len() && s[i].key() == k;
            if i < s.len() - 1 {
                assert(s.drop_last()[i].key() == k);
            }
        }
    }
}

/// With distinct keys, the map sends each entry's key to that entry.
proof fn lemma_entries_map_get<T: Keyed>(s: Seq<T>, i: int)
    requires
        distinct_keys(s),
        0 <= i < s.len(),
    ensures
        entries_map(s).dom().contains(s[i].key()),
        entries_map(s)[s[i].key()] == s[i],
    decreases s.len(),
{
    if i < s.len() - 1 {
        assert(s.drop_last()[i] == s[i]);
        lemma_entries_map_get(s.drop_last(), i);
    }
}

/// Appending a fresh entry inserts it into the map.
proof fn lemma_entries_map_push<T: Keyed>(s: Seq<T>, e: T)
    ensures
        entries_map(s.push(e)) == entries_map(s).insert(e.key(), e),
{
    assert(s.push(e).drop_last() =~= s);
    assert(s.push(e).last() == e);
}

/// Removing the entry at `i` removes its key from the map.
proof fn lemma_entries_map_remove<T: Keyed>(s: Seq<T>, i: int)
    requires
        distinct_keys(s),
        0 <= i < s.len(),
    ensures
        entries_map(s.remove(i)) == entries_map(s).remove(s[i].key()),
    decreases s.len(),
{
    let k = s[i].key();
    if i == s.len() - 1 {
        assert(s.remove(i) =~= s.drop_last());
        lemma_entries_map_contains(s.drop_last(), k);
        assert(!entries_map(s.drop_last()).dom().contains(k));
        assert(entries_map(s.drop_last()).insert(k, s.last()).remove(k) =~= entries_map(
            s.drop_last(),
        ));
    } else {
        let t = s.drop_last();
        assert(s.remove(i).drop_last() =~= t.remove(i));
        assert(s.remove(i).last() == s.last());
        lemma_entries_map_remove(t, i);
        assert(t[i] == s[i]);
        assert(entries_map(s.remove(i)) == entries_map(t).remove(k).insert(s.last().key(), s.last()));
        assert(s.last().key() != k);
        assert(entries_map(t).remove(k).insert(s.last().key(), s.last()) =~= entries_map(t).insert(
            s.last().key(),
            s.last(),
        ).remove(k));
    }
}

/// Every entry the map holds is filed under its own key.
proof fn lemma_entries_map_keys<T: Keyed>(s: Seq<T>, k: Seq<u8>)
    ensures
        entries_map(s).dom().contains(k) ==> entries_map(s)[k].key() == k,
    decreases s.len(),
{
    if s.len() > 0 {
        lemma_entries_map_keys(s.drop_last(), k);
    }
}

/// The map of a distinct-keyed sequence is finite and no larger than the
/// sequence.
proof fn lemma_entries_map_finite<T: Keyed>(s: Seq<T>)
    ensures
        entries_map(s).dom().finite(),
        entries_map(s).dom().len() <= s.len(),
    decreases s.len(),
{
    if s.len() > 0 {
        lemma_entries_map_finite(s.drop_last());
    }
}

/// A vector of entries with pairwise distinct keys, read as a map.
pub struct AssocVec<T> {
    entries: Vec<T>,
}

impl<T: Keyed> View for AssocVec<T> {
    type V = Map<Seq<u8>, T>;

    closed spec fn view(&self) -> Map<Seq<u8>, T> {
        entries_map(self.entries@)
    }
}

impl<T: Keyed> AssocVec<T> {
    /// The store's entries carry pairwise distinct keys.
    pub closed spec fn wf(&self) -> bool {
        distinct_keys(self.entries@)
    }

    /// An empty store.
    pub fn new() -> (r: Self)
        ensures
            r@ == Map::<Seq<u8>, T>::empty(),
            r.wf(),
    {
        AssocVec { entries: Vec::new() }
    }

    /// The index of the entry filed under `k`, if any.
    fn index_of(&self, k: &Vec<u8>) -> (r: Option<usize>)
        ensures
            r matches Some(i) ==> i < self.entries@.len() && self.entries@[i as int].key() == k@,
            r is None ==> forall|i: int| 0 <= i < self.entries@.len()
                ==> self.entries@[i].key() != k@,
    {
        let mut i: usize = 0;
        while i < self.entries.len()
            invariant
                i <= self.entries@.len(),
                forall|j: int| 0 <= j < i ==> self.entries@[j].key() != k@,
            decreases self.entries@.len() - i,
        {
            if self.entries[i].has_key(k) {
                return Some(i);
            }
            i = i + 1;
        }
        None
    }

    /// Every entry in the view is filed under its own key.
    pub proof fn lemma_view_key_contains(&self, k: Seq<u8>)
        ensures
            self@.dom().contains(k) ==> self@[k].key() == k,
    {
        lemma_entries_map_keys(self.entries@, k);
    }

    /// The entry filed under `k`, if any.
    pub fn get(&self, k: &Vec<u8>) -> (r: Option<&T>)
        requires
            self.wf(),
        ensures
            r matches Some(e) ==> self@.dom().contains(k@) && *e == self@[k@],
            r is None ==> !self@.dom().contains(k@),
    {
        proof {
            lemma_entries_map_contains(self.entries@, k@);
        }
        match self.index_of(k) {
            Some(i) => {
                proof {
                    lemma_entries_map_get(self.entries@, i as int);
                }
                Some(&self.entries[i])
            },
            None => None,
        }
    }

    /// Files a fresh entry; refuses one whose key is already taken.
    pub fn try_insert(&mut self, e: T) -> (r: bool)
        requires
            old(self).wf(),
        ensures
            final(self).wf(),
            r == !old(self)@.dom().contains(e.key()),
            r ==> final(self)@ == old(self)@.insert(e.key(), e),
            !r ==> final(self)@ == old(self)@,
    {
        proof {
            lemma_entries_map_contains(self.entries@, e.key());
        }
        let kv = e.key_bytes();
        match self.index_of(&kv) {
            Some(i) => {
                proof {
                    lemma_entries_map_get(self.entries@, i as int);
                }
                false
            },
            None => {
                proof {
                    lemma_entries_map_push(self.entries@, e);
                }
                self.entries.push(e);
                true
            },
        }
    }

    /// Takes the entry filed under `k` out of the store.
    pub fn take(&mut self, k: &Vec<u8>) -> (r: Option<T>)
        requires
            old(self).wf(),
        ensures
            final(self).wf(),
            r matches Some(e) ==> old(self)@.dom().contains(k@) && e == old(self)@[k@]
                && final(self)@ == old(self)@.remove(k@),
            r is None ==> !old(self)@.dom().contains(k@) && final(self)@ == old(self)@,
    {
        proof {
            lemma_entries_map_contains(self.entries@, k@);
        }
        match self.index_of(k) {
            Some(i) => {
                proof {
                    lemma_entries_map_get(self.entries@, i as int);
                    lemma_entries_map_remove(self.entries@, i as int);
                }
                let e = self.entries.remove(i);
                Some(e)
            },
            None => None,
        }
    }

    /// The store's map is finite.
    pub proof fn lemma_view_finite(&self)
        ensures
            self@.dom().finite(),
    {
        lemma_entries_map_finite(self.entries@);
    }

    /// Takes some entry out of the store; `None` only when it is empty.
    pub fn pop(&mut self) -> (r: Option<T>)
        requires
            old(self).wf(),
        ensures
            final(self).wf(),
            r matches Some(e) ==> old(self)@.dom().contains(e.key()) && e == old(self)@[e.key()]
                && final(self)@ == old(self)@.remove(e.key()) && final(self)@.dom().len() < old(
                self,
            )@.dom().len(),
            r is None ==> old(self)@ == Map::<Seq<u8>, T>::empty() && final(self)@ == old(self)@,
    {
        proof {
            lemma_entries_map_finite(self.entries@);
        }
        if self.entries.len() == 0 {
            proof {
                assert(self@ =~= Map::<Seq<u8>, T>::empty());
            }
            return None;
        }
        let i = self.entries.len() - 1;
        proof {
            lemma_entries_map_get(self.entries@, i as int);
            lemma_entries_map_remove(self.entries@, i as int);
            lemma_entries_map_contains(self.entries@, self.entries@[i as int].key());
            lemma_entries_map_finite(self.entries@.remove(i as int));
        }
        let e = self.entries.remove(i);
        proof {
            assert(old(self)@.remove(e.key()).dom().len() < old(self)@.dom().len()) by {
                assert(old(self)@.dom().remove(e.key()) =~= old(self)@.remove(e.key()).dom());
            }
        }
        Some(e)
    }

    /// Borrows every entry, one per key: what a caller needs to hand the
    /// store's contents out.
    pub fn entries_ref(&self) -> (r: Vec<&T>)
        requires
            self.wf(),
        ensures
            forall|i: int| 0 <= i < r@.len() ==> self@.dom().contains((#[trigger] r@[i]).key())
                && self@[r@[i].key()] == *r@[i],
            forall|i: int, j: int| 0 <= i < j < r@.len() ==> r@[i].key() != r@[j].key(),
            forall|k: Seq<u8>| #[trigger] self@.dom().contains(k) ==> exists|i: int|
                0 <= i < r@.len() && (#[trigger] r@[i]).key() == k,
    {
        let mut r: Vec<&T> = Vec::new();
        let mut i: usize = 0;
        while i < self.entries.len()
            invariant
                self.wf(),
                i <= self.entries@.len(),
                r@.len() == i,
                forall|j: int| 0 <= j < i ==> *(#[trigger] r@[j]) == self.entries@[j],
            decreases self.entries@.len() - i,
        {
            r.push(&self.entries[i]);
            i = i + 1;
        }
        proof {
            assert forall|j: int| 0 <= j < r@.len() implies self@.dom().contains(
                (#[trigger] r@[j]).key(),
            ) && self@[r@[j].key()] == *r@[j] by {
                lemma_entries_map_get(self.entries@, j);
            }
            assert forall|k: Seq<u8>| #[trigger] self@.dom().contains(k) implies exists|i: int|
                0 <= i < r@.len() && (#[trigger] r@[i]).key() == k by {
                lemma_entries_map_contains(self.entries@, k);
                let j = choose|j: int| 0 <= j < self.entries@.len() && self.entries@[j].key() == k;
                assert(r@[j].key() == k);
            }
        }
        r
    }

    /// Files an entry, replacing any entry its key already names.
    pub fn put(&mut self, e: T)
        requires
            old(self).wf(),
        ensures
            final(self).wf(),
            final(self)@ == old(self)@.insert(e.key(), e),
    {
        let kv = e.key_bytes();
        match self.index_of(&kv) {
            Some(i) => {
                proof {
                    lemma_entries_map_get(self.entries@, i as int);
                    lemma_entries_map_remove(self.entries@, i as int);
                    lemma_entries_map_push(self.entries@.remove(i as int), e);
                }
                let _ = self.entries.remove(i);
                self.entries.push(e);
                proof {
                    assert(self@ =~= old(self)@.insert(e.key(), e));
                }
            },
            None => {
                proof {
                    lemma_entries_map_push(self.entries@, e);
                }
                self.entries.push(e);
            },
        }
    }
}

} // verus!
