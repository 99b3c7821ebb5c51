//! Maps keyed by number, kept in the order of the numbers.

use crate::names::Duplicate;
use vstd::prelude::*;

verus! {

/// An identity that is a number.
pub trait Numbered: Copy {
    spec fn number(self) -> u64;

    fn get_number(self) -> (r: u64)
        ensures
            r == self.number(),
    ;
}

/// A list of numbered values, by ascending number.
#[derive(Debug, PartialEq, Eq)]
pub struct NumberMap<K: Numbered, T> {
    entries: Vec<(K, T)>,
}

impl<K: Numbered, T> NumberMap<K, T> {
    /// The numbers ascend.
    #[verifier::type_invariant]
    spec fn in_order(self) -> bool {
        ascending(self.entries@)
    }
}

/// The entries of a map as values, in order.
pub open spec fn numbered_views<K, T: View>(v: Seq<(K, T)>) -> Seq<(K, T::V)> {
    Seq::new(v.len(), |i: int| (v[i].0, v[i].1@))
}

impl<K: Numbered, T: View> View for NumberMap<K, T> {
    type V = Seq<(K, T::V)>;

    closed spec fn view(&self) -> Seq<(K, T::V)> {
        numbered_views(self.entries@)
    }
}

/// Numbers strictly increasing: in order, and none twice.
pub open spec fn ascending<K: Numbered, T>(m: Seq<(K, T)>) -> bool {
    forall|i: int, j: int|
        0 <= i < j < m.len() ==> (#[trigger] m[i]).0.number() < (#[trigger] m[j]).0.number()
}

/// How many leading entries have a number before `n`.
pub open spec fn place<K: Numbered, T>(m: Seq<(K, T)>, n: u64) -> int
    decreases m.len(),
{
    if m.len() == 0 {
        0
    } else if m[0].0.number() < n {
        1 + place(m.skip(1), n)
    } else {
        0
    }
}

/// Is there an entry numbered `n`?
pub open spec fn has<K: Numbered, T>(m: Seq<(K, T)>, n: u64) -> bool {
    place(m, n) < m.len() && m[place(m, n)].0.number() == n
}

/// The map with `k` standing for `v`: the old value replaced, or a new entry in its place.
pub open spec fn put<K: Numbered, T>(m: Seq<(K, T)>, k: K, v: T) -> Seq<(K, T)> {
    if has(m, k.number()) {
        m.update(place(m, k.number()), (k, v))
    } else {
        m.insert(place(m, k.number()), (k, v))
    }
}

// ---------------------------------------------------------------------------
// Laws.
// ---------------------------------------------------------------------------

/// `place` splits the map: every number before it precedes `n`, the one at it does not.
proof fn place_splits<K: Numbered, T>(m: Seq<(K, T)>, n: u64)
    ensures
        0 <= place(m, n) <= m.len(),
        forall|i: int| 0 <= i < place(m, n) ==> (#[trigger] m[i]).0.number() < n,
        place(m, n) < m.len() ==> m[place(m, n)].0.number() >= n,
    decreases m.len(),
{
    if m.len() > 0 && m[0].0.number() < n {
        let t = m.skip(1);
        place_splits(t, n);
        assert forall|i: int| 0 <= i < place(m, n) implies (#[trigger] m[i]).0.number() < n by {
            if i > 0 {
                assert(t[i - 1] == m[i]);
            }
        }
        if place(m, n) < m.len() {
            assert(t[place(t, n)] == m[place(m, n)]);
        }
    }
}

/// Inserting keeps the numbers ascending.
pub proof fn put_keeps_ascending<K: Numbered, T>(m: Seq<(K, T)>, k: K, v: T)
    requires
        ascending(m),
    ensures
        ascending(put(m, k, v)),
{
    place_splits(m, k.number());
    let p = place(m, k.number());
    let n = put(m, k, v);
    assert forall|i: int, j: int| 0 <= i < j < n.len() implies (#[trigger] n[i]).0.number() < (
    #[trigger] n[j]).0.number() by {
        if has(m, k.number()) {
            assert(m[i].0.number() < m[j].0.number());
        } else {
            let a = if i < p {
                i
            } else {
                i - 1
            };
            let b = if j < p {
                j
            } else {
                j - 1
            };
            if i == p {
                assert(n[j] == m[b]);
                if b > p {
                    assert(m[p].0.number() < m[b].0.number());
                }
            } else if j == p {
                assert(n[i] == m[a]);
            } else {
                assert(n[i] == m[a] && n[j] == m[b]);
                assert(m[a].0.number() < m[b].0.number());
            }
        }
    }
}

/// A number stands for one entry.
pub proof fn numbers_are_single<K: Numbered, T>(m: Seq<(K, T)>, i: int, j: int)
    requires
        ascending(m),
        0 <= i < m.len(),
        0 <= j < m.len(),
        m[i].0.number() == m[j].0.number(),
    ensures
        i == j,
{
    if i < j {
        assert(m[i].0.number() < m[j].0.number());
    } else if j < i {
        assert(m[j].0.number() < m[i].0.number());
    }
}

/// The order is that of the numbers alone.
proof fn views_ascend<K: Numbered, T: View>(v: Seq<(K, T)>)
    ensures
        ascending(v) == ascending(numbered_views(v)),
{
    let m = numbered_views(v);
    if ascending(v) {
        assert forall|i: int, j: int| 0 <= i < j < m.len() implies (#[trigger] m[i]).0.number() < (
        #[trigger] m[j]).0.number() by {
            assert(v[i].0.number() < v[j].0.number());
        }
    }
    if ascending(m) {
        assert forall|i: int, j: int| 0 <= i < j < v.len() implies (#[trigger] v[i]).0.number() < (
        #[trigger] v[j]).0.number() by {
            assert(m[i].0.number() < m[j].0.number());
        }
    }
}

// ---------------------------------------------------------------------------
// The operations.
// ---------------------------------------------------------------------------

impl<K: Numbered, T: View> NumberMap<K, T> {
    /// An empty map.
    pub fn new() -> (r: NumberMap<K, T>)
        ensures
            r@ == Seq::<(K, T::V)>::empty(),
    {
        let r = NumberMap { entries: Vec::new() };
        assert(r@ =~= Seq::<(K, T::V)>::empty());
        r
    }

    /// The numbers ascend, and none is there twice.
    pub fn ordered(&self)
        ensures
            ascending(self@),
    {
        proof {
            use_type_invariant(self);
            views_ascend(self.entries@);
        }
    }

    /// How many entries there are.
    pub fn len(&self) -> (r: usize)
        ensures
            r == self@.len(),
    {
        self.entries.len()
    }

    /// The identity of entry `i`.
    pub fn key_at(&self, i: usize) -> (r: K)
        requires
            i < self@.len(),
        ensures
            r == self@[i as int].0,
    {
        self.entries[i].0
    }

    /// The value of entry `i`.
    pub fn value_at(&self, i: usize) -> (r: &T)
        requires
            i < self@.len(),
        ensures
            r@ == self@[i as int].1,
    {
        &self.entries[i].1
    }

    /// Let `k` stand for `v`.
    pub fn insert(&mut self, k: K, v: T)
        ensures
            final(self)@ == put(old(self)@, k, v@),
    {
        let ghost before = self.entries@;
        let ghost vv = v@;
        let n = k.get_number();
        let mut i: usize = 0;
        assert(self@.skip(0) =~= self@);
        while i < self.entries.len() && self.entries[i].0.get_number() < n
            invariant
                i <= self.entries.len(),
                self.entries.len() == self@.len(),
                self.entries@ == before,
                place(self@, n) == i + place(self@.skip(i as int), n),
            decreases self.entries.len() - i,
        {
            assert(self@.skip(i as int)[0] == self@[i as int]);
            assert(self@.skip(i as int).skip(1) =~= self@.skip(i + 1));
            i += 1;
        }
        proof {
            if i < self.entries.len() {
                assert(self@.skip(i as int)[0] == self@[i as int]);
            }
            use_type_invariant(&*self);
            views_ascend(before);
            put_keeps_ascending(self@, k, v@);
        }
        let mut entries: Vec<(K, T)> = Vec::new();
        std::mem::swap(&mut entries, &mut self.entries);
        if i < entries.len() && entries[i].0.get_number() == n {
            entries.set(i, (k, v));
            assert(numbered_views(entries@) =~= numbered_views(before).update(i as int, (k, vv)));
        } else {
            entries.insert(i, (k, v));
            assert(numbered_views(entries@) =~= numbered_views(before).insert(i as int, (k, vv)));
        }
        proof {
            views_ascend(entries@);
        }
        self.entries = entries;
    }
}

impl<K: Numbered, T: Duplicate> Duplicate for NumberMap<K, T> {
    fn duplicate(&self) -> (r: NumberMap<K, T>) {
        let mut entries: Vec<(K, T)> = Vec::new();
        let mut i: usize = 0;
        while i < self.entries.len()
            invariant
                i <= self.entries.len(),
                entries.len() == i,
                forall|j: int|
                    0 <= j < i ==> (#[trigger] entries@[j]).0 == self.entries@[j].0
                        && entries@[j].1@ == self.entries@[j].1@,
            decreases self.entries.len() - i,
        {
            entries.push((self.entries[i].0, self.entries[i].1.duplicate()));
            i += 1;
        }
        proof {
            use_type_invariant(self);
            assert forall|i: int, j: int| 0 <= i < j < entries@.len() implies (
            #[trigger] entries@[i]).0.number() < (#[trigger] entries@[j]).0.number() by {
                assert(self.entries@[i].0.number() < self.entries@[j].0.number());
            }
        }
        let r = NumberMap { entries };
        assert(r@ =~= self@);
        r
    }
}

} // verus!
