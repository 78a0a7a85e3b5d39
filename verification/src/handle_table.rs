//! The server-side handle table: a mapping from an opaque 64-bit identifier
//! to an open resource.
//!
//! Identifiers are drawn at random by the caller and collisions are not
//! checked, exactly as in the protocol's design: an insert with an identifier
//! already present shadows the earlier entry. Lookups therefore answer with
//! the most recently inserted entry for an identifier. The protocol offers no
//! close operation, so the table only grows for the life of the server.

use vstd::prelude::*;

verus! {

/// The entry a lookup for `id` answers with: the last entry carrying `id`,
/// as an index into the entry sequence.
pub open spec fn spec_find_idx<T>(s: Seq<(u64, T)>, id: u64) -> Option<int>
    decreases s.len(),
{
    if s.len() == 0 {
        None
    } else if s.last().0 == id {
        Some(s.len() - 1)
    } else {
        spec_find_idx(s.drop_last(), id)
    }
}

/// The resource a lookup for `id` answers with.
pub open spec fn spec_find<T>(s: Seq<(u64, T)>, id: u64) -> Option<T> {
    match spec_find_idx(s, id) {
        Some(i) => Some(s[i].1),
        None => None,
    }
}

/// A found index lies in range and carries the identifier looked for.
pub proof fn lemma_find_idx_valid<T>(s: Seq<(u64, T)>, id: u64)
    ensures
        match spec_find_idx(s, id) {
            Some(i) => 0 <= i < s.len() && s[i].0 == id,
            None => forall|i: int| 0 <= i < s.len() ==> s[i].0 != id,
        },
    decreases s.len(),
{
    if s.len() > 0 && s.last().0 != id {
        lemma_find_idx_valid(s.drop_last(), id);
        match spec_find_idx(s.drop_last(), id) {
            Some(i) => {
                assert(s.drop_last()[i] == s[i]);
            },
            None => {
                assert forall|i: int| 0 <= i < s.len() implies s[i].0 != id by {
                    if i < s.len() - 1 {
                        assert(s.drop_last()[i] == s[i]);
                    } else {
                        assert(s[i] == s.last());
                    }
                }
            },
        }
    }
}

/// Entries other than the last are found exactly as before it was pushed.
pub proof fn lemma_find_idx_push<T>(s: Seq<(u64, T)>, e: (u64, T), id: u64)
    ensures
        spec_find_idx(s.push(e), id) == if e.0 == id {
            Some(s.len() as int)
        } else {
            spec_find_idx(s, id)
        },
{
    let t = s.push(e);
    assert(t.drop_last() =~= s);
}

/// An update at an index off an identifier's found index leaves lookups for
/// that identifier unchanged; an update at the found index is found.
pub proof fn lemma_find_idx_update<T>(s: Seq<(u64, T)>, k: int, v: T, id: u64)
    requires
        0 <= k < s.len(),
        s[k].0 == id ==> spec_find_idx(s, id) == Some(k),
    ensures
        spec_find_idx(s.update(k, (s[k].0, v)), id) == spec_find_idx(s, id),
    decreases s.len(),
{
    let t = s.update(k, (s[k].0, v));
    assert(t.len() == s.len());
    assert(t.last().0 == s.last().0);
    if s.len() > 0 && s.last().0 != id {
        if k < s.len() - 1 {
            assert(t.drop_last() =~= s.drop_last().update(k, (s[k].0, v)));
            lemma_find_idx_update(s.drop_last(), k, v, id);
        } else {
            assert(t.drop_last() =~= s.drop_last());
        }
    }
}

/// A mapping from a 64-bit handle to an open resource, insert-only, with
/// lookups answered by the most recent entry.
pub struct HandleTable<T> {
    entries: Vec<(u64, T)>,
}

impl<T> View for HandleTable<T> {
    type V = Seq<(u64, T)>;

    closed spec fn view(&self) -> Seq<(u64, T)> {
        self.entries@
    }
}

impl<T> HandleTable<T> {
    /// An empty table.
    pub fn new() -> (r: Self)
        ensures
            r@ == Seq::<(u64, T)>::empty(),
    {
        HandleTable { entries: Vec::new() }
    }

    /// How many entries the table holds, shadowed ones included.
    pub fn len(&self) -> (n: usize)
        ensures
            n == self@.len(),
    {
        self.entries.len()
    }

    /// Stores a resource under an identifier; an entry already carrying the
    /// identifier is shadowed, not checked, as the protocol's design has it.
    pub fn insert(&mut self, id: u64, v: T)
        ensures
            final(self)@ == old(self)@.push((id, v)),
            spec_find(final(self)@, id) == Some(v),
    {
        self.entries.push((id, v));
        proof {
            lemma_find_idx_push(old(self)@, (id, v), id);
        }
    }

    /// Whether some entry carries the identifier.
    pub fn contains(&self, id: u64) -> (r: bool)
        ensures
            r == (spec_find_idx(self@, id) is Some),
    {
        self.find_index(id).is_some()
    }

    /// The index of the entry a lookup answers with, scanning from the most
    /// recent entry back.
    pub fn find_index(&self, id: u64) -> (r: Option<usize>)
        ensures
            match r {
                Some(i) => spec_find_idx(self@, id) == Some(i as int),
                None => spec_find_idx(self@, id) is None,
            },
    {
        let mut i: usize = self.entries.len();
        proof {
            assert(self@.subrange(0, self@.len() as int) =~= self@);
        }
        while i > 0
            invariant
                i <= self.entries.len(),
                spec_find_idx(self@, id) == spec_find_idx(self@.subrange(0, i as int), id),
            decreases i,
        {
            i = i - 1;
            proof {
                let pre = self@.subrange(0, i + 1);
                assert(pre.drop_last() =~= self@.subrange(0, i as int));
                assert(pre.last() == self@[i as int]);
            }
            if self.entries[i].0 == id {
                return Some(i);
            }
        }
        proof {
            assert(self@.subrange(0, 0) =~= Seq::<(u64, T)>::empty());
        }
        None
    }

    /// The resource a lookup answers with.
    pub fn get(&self, id: u64) -> (r: Option<&T>)
        ensures
            match r {
                Some(v) => spec_find(self@, id) == Some(*v),
                None => spec_find(self@, id) is None,
            },
    {
        proof {
            lemma_find_idx_valid(self@, id);
        }
        match self.find_index(id) {
            Some(i) => Some(&self.entries[i].1),
            None => None,
        }
    }

    /// Replaces the resource a lookup answers with; without such an entry the
    /// table is unchanged and `false` comes back.
    pub fn set(&mut self, id: u64, v: T) -> (r: bool)
        ensures
            match spec_find_idx(old(self)@, id) {
                Some(i) => r && final(self)@ == old(self)@.update(i, (id, v)),
                None => !r && final(self)@ == old(self)@,
            },
            spec_find_idx(final(self)@, id) == spec_find_idx(old(self)@, id),
    {
        match self.find_index(id) {
            Some(i) => {
                proof {
                    lemma_find_idx_valid(old(self)@, id);
                }
                self.entries[i] = (id, v);
                proof {
                    lemma_find_idx_update(old(self)@, i as int, v, id);
                }
                true
            },
            None => false,
        }
    }
}

} // verus!
