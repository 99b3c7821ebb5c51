//! Maps keyed by name, kept in name order so that every walk over one is reproducible.

use crate::text;
use crate::text::{str_eq, str_lt};
use vstd::prelude::*;

verus! {

/// A value that can be duplicated without changing what it stands for.
pub trait Duplicate: View + Sized {
    fn duplicate(&self) -> (r: Self)
        ensures
            r@ == self@,
    ;
}

impl Duplicate for String {
    fn duplicate(&self) -> (r: String) {
        self.clone()
    }
}

/// A list of named values, by ascending name.
#[derive(Debug, PartialEq, Eq)]
pub struct NameMap<T> {
    entries: Vec<(String, T)>,
}

impl<T> NameMap<T> {
    /// The names ascend.
    #[verifier::type_invariant]
    spec fn in_order(self) -> bool {
        names_ascend(self.entries@)
    }
}

/// Each name comes before the next.
spec fn names_ascend<T>(v: Seq<(String, T)>) -> bool {
    forall|i: int, j: int| 0 <= i < j < v.len() ==> #[trigger] text::lex_lt(v[i].0@, v[j].0@)
}

/// The entries of a map as values, in order.
pub open spec fn entry_views<T: View>(v: Seq<(String, T)>) -> Seq<(Seq<char>, T::V)> {
    Seq::new(v.len(), |i: int| (v[i].0@, v[i].1@))
}

impl<T: View> View for NameMap<T> {
    type V = Seq<(Seq<char>, T::V)>;

    closed spec fn view(&self) -> Seq<(Seq<char>, T::V)> {
        entry_views(self.entries@)
    }
}

/// How many leading entries have a name before `k`.
pub open spec fn place<T>(m: Seq<(Seq<char>, T)>, k: Seq<char>) -> int
    decreases m.len(),
{
    if m.len() == 0 {
        0
    } else if text::lex_lt(m[0].0, k) {
        1 + place(m.skip(1), k)
    } else {
        0
    }
}

/// Is there an entry named `k`?
pub open spec fn has<T>(m: Seq<(Seq<char>, T)>, k: Seq<char>) -> bool {
    place(m, k) < m.len() && m[place(m, k)].0 == k
}

/// The value named `k`.
pub open spec fn lookup<T>(m: Seq<(Seq<char>, T)>, k: Seq<char>) -> Option<T> {
    if has(m, k) {
        Some(m[place(m, k)].1)
    } else {
        None
    }
}

/// The map with `k` naming `v`: the old value replaced, or a new entry in its place.
pub open spec fn put<T>(m: Seq<(Seq<char>, T)>, k: Seq<char>, v: T) -> Seq<(Seq<char>, T)> {
    if has(m, k) {
        m.update(place(m, k), (k, v))
    } else {
        m.insert(place(m, k), (k, v))
    }
}

/// Names strictly increasing: in order, and none twice.
pub open spec fn sorted<T>(m: Seq<(Seq<char>, T)>) -> bool {
    forall|i: int, j: int| 0 <= i < j < m.len() ==> #[trigger] text::lex_lt(m[i].0, m[j].0)
}

// ---------------------------------------------------------------------------
// Laws.
// ---------------------------------------------------------------------------

/// `place` splits the map: every name before it precedes `k`, the one at it does not.
pub proof fn place_splits<T>(m: Seq<(Seq<char>, T)>, k: Seq<char>)
    ensures
        0 <= place(m, k) <= m.len(),
        forall|i: int| 0 <= i < place(m, k) ==> text::lex_lt(#[trigger] m[i].0, k),
        place(m, k) < m.len() ==> !text::lex_lt(m[place(m, k)].0, k),
    decreases m.len(),
{
    if m.len() > 0 && text::lex_lt(m[0].0, k) {
        let t = m.skip(1);
        place_splits(t, k);
        assert forall|i: int| 0 <= i < place(m, k) implies text::lex_lt(#[trigger] m[i].0, k) by {
            if i > 0 {
                assert(t[i - 1] == m[i]);
            }
        }
        if place(m, k) < m.len() {
            assert(t[place(t, k)] == m[place(m, k)]);
        }
    }
}

/// In a sorted map the entries from `place` on come after `k`, the first at best equal.
proof fn rest_follows<T>(m: Seq<(Seq<char>, T)>, k: Seq<char>, i: int)
    requires
        sorted(m),
        place(m, k) <= i < m.len(),
    ensures
        m[i].0 == k || text::lex_lt(k, m[i].0),
        i > place(m, k) ==> text::lex_lt(k, m[i].0),
{
    place_splits(m, k);
    let p = place(m, k);
    text::lex_lt_total(m[p].0, k);
    if i > p {
        assert(text::lex_lt(m[p].0, m[i].0));
        if m[p].0 != k {
            text::lex_lt_transitive(k, m[p].0, m[i].0);
        }
    }
}

/// A sorted map has an entry named `k` exactly when `has` says so.
pub proof fn has_is_membership<T>(m: Seq<(Seq<char>, T)>, k: Seq<char>)
    requires
        sorted(m),
    ensures
        has(m, k) <==> exists|i: int| 0 <= i < m.len() && #[trigger] m[i].0 == k,
        forall|i: int| 0 <= i < m.len() && #[trigger] m[i].0 == k ==> i == place(m, k),
{
    place_splits(m, k);
    assert forall|i: int| 0 <= i < m.len() && #[trigger] m[i].0 == k implies i == place(m, k) by {
        text::lex_lt_irreflexive(k);
        if i > place(m, k) {
            rest_follows(m, k, i);
        }
    }
}

/// Names that ascend are those of a sorted map.
proof fn ascending_is_sorted<T: View>(v: Seq<(String, T)>)
    ensures
        names_ascend(v) == sorted(entry_views(v)),
{
    let m = entry_views(v);
    if names_ascend(v) {
        assert forall|i: int, j: int| 0 <= i < j < m.len() implies #[trigger] text::lex_lt(
            m[i].0,
            m[j].0,
        ) by {
            assert(text::lex_lt(v[i].0@, v[j].0@));
        }
    }
    if sorted(m) {
        assert forall|i: int, j: int| 0 <= i < j < v.len() implies #[trigger] text::lex_lt(
            v[i].0@,
            v[j].0@,
        ) by {
            assert(text::lex_lt(m[i].0, m[j].0));
        }
    }
}

/// Inserting keeps a map sorted.
pub proof fn put_keeps_sorted<T>(m: Seq<(Seq<char>, T)>, k: Seq<char>, v: T)
    requires
        sorted(m),
    ensures
        sorted(put(m, k, v)),
{
    place_splits(m, k);
    let p = place(m, k);
    let n = put(m, k, v);
    assert forall|i: int, j: int| 0 <= i < j < n.len() implies #[trigger] text::lex_lt(
        n[i].0,
        n[j].0,
    ) by {
        if has(m, k) {
            assert(text::lex_lt(m[i].0, m[j].0));
        } else {
            let a = if i < p {
                i
            } else {
                i - 1
            };
            let b = if j < p {
                j
            } else {
                j - 1
            };
            if i == p {
                assert(n[j] == m[b]);
                rest_follows(m, k, b);
            } else if j == p {
                assert(n[i] == m[a]);
            } else {
                assert(n[i] == m[a] && n[j] == m[b]);
                assert(text::lex_lt(m[a].0, m[b].0));
            }
        }
    }
}

/// A sorted map reads back what was inserted last under a name, and every other name is
/// as before.
pub proof fn put_then_lookup<T>(m: Seq<(Seq<char>, T)>, k: Seq<char>, v: T, q: Seq<char>)
    requires
        sorted(m),
    ensures
        lookup(put(m, k, v), q) == if q == k {
            Some(v)
        } else {
            lookup(m, q)
        },
{
    let n = put(m, k, v);
    let p = place(m, k);
    place_splits(m, k);
    put_keeps_sorted(m, k, v);
    has_is_membership(m, q);
    has_is_membership(n, q);
    if q == k {
        assert(n[p].0 == k);
        assert(has(n, k));
        assert(place(n, k) == p);
    } else {
        if has(m, q) {
            let i = place(m, q);
            place_splits(m, q);
            let j = if has(m, k) || i < p {
                i
            } else {
                i + 1
            };
            assert(n[j] == m[i]);
            assert(n[j].0 == q);
            assert(has(n, q));
            assert(place(n, q) == j);
        }
        if has(n, q) {
            let j = place(n, q);
            place_splits(n, q);
            let i = if has(m, k) || j < p {
                j
            } else {
                j - 1
            };
            assert(n[j] == m[i]);
            assert(m[i].0 == q);
        }
    }
}

// ---------------------------------------------------------------------------
// The operations.
// ---------------------------------------------------------------------------

impl<T: View> NameMap<T> {
    /// An empty map.
    pub fn new() -> (r: NameMap<T>)
        ensures
            r@.len() == 0,
            sorted(r@),
            r@ == Seq::<(Seq<char>, T::V)>::empty(),
    {
        let r = NameMap { entries: Vec::new() };
        assert(r@ =~= Seq::<(Seq<char>, T::V)>::empty());
        r
    }

    /// The names ascend, and none is there twice.
    pub fn ordered(&self)
        ensures
            sorted(self@),
    {
        proof {
            use_type_invariant(self);
            ascending_is_sorted(self.entries@);
        }
    }

    /// How many entries there are.
    pub fn len(&self) -> (r: usize)
        ensures
            r == self@.len(),
    {
        self.entries.len()
    }

    /// Is the map empty?
    pub fn is_empty(&self) -> (r: bool)
        ensures
            r == (self@.len() == 0),
    {
        self.entries.len() == 0
    }

    /// The name of entry `i`.
    pub fn key_at(&self, i: usize) -> (r: &String)
        requires
            i < self@.len(),
        ensures
            r@ == self@[i as int].0,
    {
        &self.entries[i].0
    }

    /// The value of entry `i`.
    pub fn value_at(&self, i: usize) -> (r: &T)
        requires
            i < self@.len(),
        ensures
            r@ == self@[i as int].1,
    {
        &self.entries[i].1
    }

    fn place_of(&self, k: &str) -> (r: usize)
        ensures
            r == place(self@, k@),
            r <= self@.len(),
    {
        let mut i: usize = 0;
        assert(self@.skip(0) =~= self@);
        while i < self.entries.len() && str_lt(self.entries[i].0.as_str(), k)
            invariant
                i <= self.entries.len(),
                self.entries.len() == self@.len(),
                place(self@, k@) == i + place(self@.skip(i as int), k@),
            decreases self.entries.len() - i,
        {
            assert(self@.skip(i as int)[0] == self@[i as int]);
            assert(self@.skip(i as int).skip(1) =~= self@.skip(i + 1));
            i += 1;
        }
        proof {
            if i < self.entries.len() {
                assert(self@.skip(i as int)[0] == self@[i as int]);
            }
        }
        i
    }

    /// The value named `k`.
    pub fn get(&self, k: &str) -> (r: Option<&T>)
        ensures
            match r {
                Some(v) => lookup(self@, k@) == Some(v@),
                None => lookup(self@, k@) is None,
            },
    {
        let i = self.place_of(k);
        if i < self.entries.len() && str_eq(self.entries[i].0.as_str(), k) {
            Some(&self.entries[i].1)
        } else {
            None
        }
    }

    /// Is there an entry named `k`?
    pub fn contains_key(&self, k: &str) -> (r: bool)
        ensures
            r == has(self@, k@),
    {
        let i = self.place_of(k);
        i < self.entries.len() && str_eq(self.entries[i].0.as_str(), k)
    }

    /// Let `k` name `v`.
    pub fn insert(&mut self, k: String, v: T)
        ensures
            final(self)@ == put(old(self)@, k@, v@),
            sorted(final(self)@),
    {
        let i = self.place_of(k.as_str());
        let ghost before = self.entries@;
        let ghost kv = k@;
        let ghost vv = v@;
        let ghost after = put(self@, k@, v@);
        proof {
            use_type_invariant(&*self);
            ascending_is_sorted(before);
            put_keeps_sorted(self@, k@, v@);
        }
        let mut entries: Vec<(String, T)> = Vec::new();
        std::mem::swap(&mut entries, &mut self.entries);
        if i < entries.len() && str_eq(entries[i].0.as_str(), k.as_str()) {
            entries.set(i, (k, v));
            assert(entry_views(entries@) =~= entry_views(before).update(i as int, (kv, vv)));
        } else {
            entries.insert(i, (k, v));
            assert(entry_views(entries@) =~= entry_views(before).insert(i as int, (kv, vv)));
        }
        proof {
            ascending_is_sorted(entries@);
        }
        self.entries = entries;
    }
}

impl<T: Duplicate> Duplicate for NameMap<T> {
    fn duplicate(&self) -> (r: NameMap<T>) {
        let mut entries: Vec<(String, T)> = Vec::new();
        let mut i: usize = 0;
        while i < self.entries.len()
            invariant
                i <= self.entries.len(),
                entries.len() == i,
                forall|j: int|
                    0 <= j < i ==> entries@[j].0@ == self.entries@[j].0@ && entries@[j].1@
                        == self.entries@[j].1@,
            decreases self.entries.len() - i,
        {
            entries.push((self.entries[i].0.clone(), self.entries[i].1.duplicate()));
            i += 1;
        }
        proof {
            use_type_invariant(self);
            assert forall|i: int, j: int| 0 <= i < j < entries@.len() implies #[trigger] text::lex_lt(
                entries@[i].0@,
                entries@[j].0@,
            ) by {
                assert(text::lex_lt(self.entries@[i].0@, self.entries@[j].0@));
            }
        }
        let r = NameMap { entries };
        assert(r@ =~= self@);
        r
    }
}

} // verus!
