//! Disjoint sets: which nodes are joined by a set of links.

use vstd::prelude::*;

verus! {

// ---------------------------------------------------------------------------
// Connectivity.
// ---------------------------------------------------------------------------

/// Two nodes are linked, in either direction.
pub open spec fn linked(links: Set<(int, int)>, x: int, y: int) -> bool {
    links.contains((x, y)) || links.contains((y, x))
}

/// The step from node `k` of a walk to the next.
pub open spec fn step(links: Set<(int, int)>, walk: Seq<int>, k: int) -> bool {
    linked(links, walk[k], walk[k + 1])
}

/// A walk along links.
pub open spec fn is_walk(links: Set<(int, int)>, walk: Seq<int>) -> bool {
    &&& walk.len() > 0
    &&& forall|k: int| 0 <= k && k + 1 < walk.len() ==> #[trigger] step(links, walk, k)
}

/// A walk from one node to another.
pub open spec fn walks(links: Set<(int, int)>, walk: Seq<int>, x: int, y: int) -> bool {
    is_walk(links, walk) && walk[0] == x && walk.last() == y
}

/// Two nodes are joined: a walk leads from one to the other.
pub open spec fn joined(links: Set<(int, int)>, x: int, y: int) -> bool {
    exists|walk: Seq<int>| #[trigger] walks(links, walk, x, y)
}

/// A node is joined to itself.
pub proof fn joined_reflexive(links: Set<(int, int)>, x: int)
    ensures
        joined(links, x, x),
{
    assert(walks(links, seq![x], x, x));
}

/// Joining is symmetric.
pub proof fn joined_symmetric(links: Set<(int, int)>, x: int, y: int)
    requires
        joined(links, x, y),
    ensures
        joined(links, y, x),
{
    let w = choose|w: Seq<int>| #[trigger] walks(links, w, x, y);
    let v = w.reverse();
    assert forall|k: int| 0 <= k && k + 1 < v.len() implies #[trigger] step(links, v, k) by {
        assert(step(links, w, w.len() - 2 - k));
    }
    assert(walks(links, v, y, x));
}

/// Joining is transitive.
pub proof fn joined_transitive(links: Set<(int, int)>, x: int, y: int, z: int)
    requires
        joined(links, x, y),
        joined(links, y, z),
    ensures
        joined(links, x, z),
{
    let a = choose|w: Seq<int>| #[trigger] walks(links, w, x, y);
    let b = choose|w: Seq<int>| #[trigger] walks(links, w, y, z);
    let w = a + b.skip(1);
    assert forall|k: int| 0 <= k && k + 1 < w.len() implies #[trigger] step(links, w, k) by {
        if k + 1 < a.len() {
            assert(step(links, a, k));
        } else {
            assert(step(links, b, k + 1 - a.len()));
        }
    }
    assert(w.last() == z) by {
        if b.len() > 1 {
            assert(w.last() == b.last());
        }
    }
    assert(walks(links, w, x, z));
}

/// More links join no less.
pub proof fn joined_monotone(links: Set<(int, int)>, more: Set<(int, int)>, x: int, y: int)
    requires
        links.subset_of(more),
        joined(links, x, y),
    ensures
        joined(more, x, y),
{
    let w = choose|w: Seq<int>| #[trigger] walks(links, w, x, y);
    assert forall|k: int| 0 <= k && k + 1 < w.len() implies #[trigger] step(more, w, k) by {
        assert(step(links, w, k));
    }
    assert(walks(more, w, x, y));
}

/// What one more link joins: what was joined, and what either of its ends was joined to.
pub open spec fn joined_by(links: Set<(int, int)>, a: int, b: int, x: int, y: int) -> bool {
    ||| joined(links, x, y)
    ||| (joined(links, x, a) && joined(links, b, y))
    ||| (joined(links, x, b) && joined(links, a, y))
}

proof fn walk_with_link(
    links: Set<(int, int)>,
    a: int,
    b: int,
    walk: Seq<int>,
    k: int,
)
    requires
        is_walk(links.insert((a, b)), walk),
        0 <= k < walk.len(),
    ensures
        joined_by(links, a, b, walk[0], walk[k]),
    decreases k,
{
    let x = walk[0];
    if k == 0 {
        joined_reflexive(links, x);
    } else {
        let y = walk[k - 1];
        let z = walk[k];
        walk_with_link(links, a, b, walk, k - 1);
        assert(step(links.insert((a, b)), walk, k - 1));
        joined_reflexive(links, a);
        joined_reflexive(links, b);
        if linked(links, y, z) {
            assert(walks(links, seq![y, z], y, z)) by {
                let w = seq![y, z];
                assert forall|j: int| 0 <= j && j + 1 < w.len() implies #[trigger] step(
                    links,
                    w,
                    j,
                ) by {}
            }
            if joined(links, x, y) {
                joined_transitive(links, x, y, z);
            } else if joined(links, x, a) && joined(links, b, y) {
                joined_transitive(links, b, y, z);
            } else {
                joined_transitive(links, a, y, z);
            }
        } else if y == a && z == b {
            if joined(links, x, b) && joined(links, a, y) {
                assert(joined_by(links, a, b, x, z));
            }
        } else {
            assert(y == b && z == a);
        }
    }
}

/// One more link joins exactly what `joined_by` says.
pub proof fn joined_with_link(links: Set<(int, int)>, a: int, b: int, x: int, y: int)
    ensures
        joined(links.insert((a, b)), x, y) == joined_by(links, a, b, x, y),
{
    let more = links.insert((a, b));
    if joined(more, x, y) {
        let w = choose|w: Seq<int>| #[trigger] walks(more, w, x, y);
        walk_with_link(links, a, b, w, w.len() - 1);
    }
    if joined_by(links, a, b, x, y) {
        let w = seq![a, b];
        assert forall|j: int| 0 <= j && j + 1 < w.len() implies #[trigger] step(more, w, j) by {}
        assert(walks(more, w, a, b));
        joined_symmetric(more, a, b);
        if joined(links, x, y) {
            joined_monotone(links, more, x, y);
        } else if joined(links, x, a) && joined(links, b, y) {
            joined_monotone(links, more, x, a);
            joined_monotone(links, more, b, y);
            joined_transitive(more, x, a, b);
            joined_transitive(more, x, b, y);
        } else {
            joined_monotone(links, more, x, b);
            joined_monotone(links, more, a, y);
            joined_transitive(more, x, b, a);
            joined_transitive(more, x, a, y);
        }
    }
}

/// Without links nothing is joined but a node to itself.
pub proof fn nothing_joined(x: int, y: int)
    ensures
        joined(Set::empty(), x, y) == (x == y),
{
    let none = Set::<(int, int)>::empty();
    joined_reflexive(none, x);
    if joined(none, x, y) {
        let w = choose|w: Seq<int>| #[trigger] walks(none, w, x, y);
        if w.len() > 1 {
            assert(step(none, w, 0));
        }
    }
}

/// A node joined to no smaller one.
pub open spec fn is_first(links: Set<(int, int)>, x: int) -> bool {
    forall|y: int| 0 <= y < x ==> !#[trigger] joined(links, y, x)
}

/// How many groups the first `k` nodes fall into.
pub open spec fn groups(links: Set<(int, int)>, k: nat) -> nat
    decreases k,
{
    if k == 0 {
        0
    } else {
        groups(links, (k - 1) as nat) + if is_first(links, k - 1) {
            1nat
        } else {
            0nat
        }
    }
}

/// There are at most as many groups as nodes, and at least one when there is a node.
pub proof fn groups_bounds(links: Set<(int, int)>, k: nat)
    ensures
        groups(links, k) <= k,
        k > 0 ==> groups(links, k) >= 1,
    decreases k,
{
    if k > 0 {
        groups_bounds(links, (k - 1) as nat);
        assert(is_first(links, 0));
    }
}

/// When all nodes are joined there is one group.
pub proof fn all_joined_is_one_group(links: Set<(int, int)>, k: nat)
    requires
        k > 0,
        forall|x: int| 0 <= x < k ==> joined(links, 0, x),
    ensures
        groups(links, k) == 1,
    decreases k,
{
    if k > 1 {
        all_joined_is_one_group(links, (k - 1) as nat);
        assert(joined(links, 0, k - 1));
        assert(!is_first(links, k - 1));
    } else {
        assert(groups(links, 0) == 0);
        assert(is_first(links, 0));
    }
}

/// When there is one group all nodes are joined.
pub proof fn one_group_is_all_joined(links: Set<(int, int)>, k: nat, x: int)
    requires
        groups(links, k) == 1,
        0 <= x < k,
    ensures
        joined(links, 0, x),
    decreases x,
{
    if x == 0 {
        joined_reflexive(links, 0);
    } else {
        first_is_counted(links, k, x);
        let y = choose|y: int| 0 <= y < x && #[trigger] joined(links, y, x);
        one_group_is_all_joined(links, k, y);
        joined_transitive(links, 0, y, x);
    }
}

proof fn first_is_counted(links: Set<(int, int)>, k: nat, x: int)
    requires
        groups(links, k) == 1,
        0 < x < k,
    ensures
        !is_first(links, x),
    decreases k,
{
    groups_bounds(links, (k - 1) as nat);
    if x < k - 1 {
        first_is_counted(links, (k - 1) as nat, x);
    }
}

// ---------------------------------------------------------------------------
// The structure.
// ---------------------------------------------------------------------------

/// Disjoint sets of the nodes `0..n`, each a tree of parent pointers.
pub struct UnionFind {
    parent: Vec<usize>,
    root: Ghost<Seq<int>>,
    level: Ghost<Seq<int>>,
    top: Ghost<int>,
}

impl UnionFind {
    /// The representative of each node.
    pub closed spec fn roots(self) -> Seq<int> {
        self.root@
    }

    /// How many nodes there are.
    pub closed spec fn size(self) -> nat {
        self.parent@.len()
    }

    /// Parent pointers lead upwards, level by level, to the representative.
    pub closed spec fn wf(self) -> bool {
        &&& self.root@.len() == self.parent@.len()
        &&& self.level@.len() == self.parent@.len()
        &&& forall|x: int|
            0 <= x < self.parent@.len() ==> {
                &&& (#[trigger] self.parent@[x]) < self.parent@.len()
                &&& 0 <= self.root@[x] < self.parent@.len()
                &&& 0 <= self.level@[x] <= self.top@
                &&& self.root@[self.parent@[x] as int] == self.root@[x]
                &&& self.parent@[self.root@[x]] == self.root@[x]
                &&& self.parent@[x] == x ==> self.root@[x] == x
                &&& self.parent@[x] != x ==> self.level@[self.parent@[x] as int] > self.level@[x]
            }
    }

    /// The nodes are in one set.
    pub open spec fn same(self, x: int, y: int) -> bool {
        self.roots()[x] == self.roots()[y]
    }

    /// `n` nodes, each on its own.
    pub fn new(n: usize) -> (r: UnionFind)
        ensures
            r.wf(),
            r.size() == n,
            r.roots().len() == n,
            forall|x: int| 0 <= x < n ==> #[trigger] r.roots()[x] == x,
    {
        let mut parent: Vec<usize> = Vec::new();
        let mut i: usize = 0;
        while i < n
            invariant
                i <= n,
                parent.len() == i,
                forall|x: int| 0 <= x < i ==> #[trigger] parent@[x] == x,
            decreases n - i,
        {
            parent.push(i);
            i += 1;
        }
        UnionFind {
            parent,
            root: Ghost(Seq::new(n as nat, |x: int| x)),
            level: Ghost(Seq::new(n as nat, |x: int| 0)),
            top: Ghost(0),
        }
    }

    /// The representative of a node. Pointers on the way are shortened; no set changes.
    pub fn find(&mut self, x: usize) -> (r: usize)
        requires
            old(self).wf(),
            x < old(self).size(),
        ensures
            final(self).wf(),
            final(self).size() == old(self).size(),
            final(self).roots() == old(self).roots(),
            r == old(self).roots()[x as int],
            r < old(self).size(),
            final(self).is_root(r as int),
            forall|y: int| old(self).is_root(y) ==> final(self).is_root(y),
    {
        let mut x = x;
        let ghost start = x as int;
        let ghost was = *self;
        while self.parent[x] != x
            invariant
                self.wf(),
                x < self.size(),
                self.size() == was.size(),
                self.roots() == was.roots(),
                self.root@[x as int] == was.root@[start],
                forall|y: int| was.is_root(y) ==> self.is_root(y),
            decreases self.top@ - self.level@[x as int],
        {
            let p: usize = self.parent[x];
            assert(self.parent@[p as int] < self.parent@.len());
            let g: usize = self.parent[p];
            assert(self.parent@[g as int] < self.parent@.len());
            let ghost prev = *self;
            self.parent.set(x, g);
            proof {
                assert(prev.level@[p as int] > prev.level@[x as int]);
                assert(g != p ==> prev.level@[g as int] > prev.level@[p as int]);
                assert(prev.root@[g as int] == prev.root@[x as int]);
                let r = prev.root@[x as int];
                assert(prev.parent@[r] == r);
                assert(r != x);
                assert forall|z: int| 0 <= z < self.parent@.len() implies {
                    &&& (#[trigger] self.parent@[z]) < self.parent@.len()
                    &&& 0 <= self.root@[z] < self.parent@.len()
                    &&& 0 <= self.level@[z] <= self.top@
                    &&& self.root@[self.parent@[z] as int] == self.root@[z]
                    &&& self.parent@[self.root@[z]] == self.root@[z]
                    &&& self.parent@[z] == z ==> self.root@[z] == z
                    &&& self.parent@[z] != z ==> self.level@[self.parent@[z] as int]
                        > self.level@[z]
                } by {
                    assert(prev.parent@[z] < prev.parent@.len());
                    assert(prev.parent@[prev.root@[z]] == prev.root@[z]);
                    assert(prev.root@[z] != x);
                }
            }
            x = g;
        }
        x
    }

    /// The node represents its set.
    pub closed spec fn is_root(self, x: int) -> bool {
        0 <= x < self.parent@.len() && self.parent@[x] == x
    }

    /// Join the sets of two nodes.
    pub fn union(&mut self, a: usize, b: usize)
        requires
            old(self).wf(),
            a < old(self).size(),
            b < old(self).size(),
        ensures
            final(self).wf(),
            final(self).size() == old(self).size(),
            final(self).roots().len() == old(self).roots().len(),
            forall|x: int, y: int|
                0 <= x < old(self).size() && 0 <= y < old(self).size() ==> (
                #[trigger] final(self).same(x, y) <==> {
                    ||| old(self).same(x, y)
                    ||| (old(self).same(x, a as int) && old(self).same(b as int, y))
                    ||| (old(self).same(x, b as int) && old(self).same(a as int, y))
                }),
    {
        let ghost was = *self;
        let ra: usize = self.find(a);
        let rb: usize = self.find(b);
        if ra != rb {
            let ghost prev = *self;
            self.parent.set(ra, rb);
            proof {
                let n = prev.parent@.len();
                let lifted = prev.level@.update(
                    rb as int,
                    if prev.level@[rb as int] > prev.level@[ra as int] {
                        prev.level@[rb as int]
                    } else {
                        prev.level@[ra as int] + 1
                    },
                );
                self.root = Ghost(
                    Seq::new(
                        n,
                        |x: int|
                            if prev.root@[x] == ra {
                                rb as int
                            } else {
                                prev.root@[x]
                            },
                    ),
                );
                self.level = Ghost(lifted);
                self.top = Ghost(prev.top@ + 1);
                assert(prev.parent@[ra as int] == ra && prev.parent@[rb as int] == rb);
                assert(prev.root@[ra as int] == ra && prev.root@[rb as int] == rb);
                assert forall|z: int| 0 <= z < n implies {
                    &&& (#[trigger] self.parent@[z]) < n
                    &&& 0 <= self.root@[z] < n
                    &&& 0 <= self.level@[z] <= self.top@
                    &&& self.root@[self.parent@[z] as int] == self.root@[z]
                    &&& self.parent@[self.root@[z]] == self.root@[z]
                    &&& self.parent@[z] == z ==> self.root@[z] == z
                    &&& self.parent@[z] != z ==> self.level@[self.parent@[z] as int]
                        > self.level@[z]
                } by {
                    assert(prev.parent@[z] < n);
                    assert(prev.parent@[prev.root@[z]] == prev.root@[z]);
                }
            }
        }
    }
}

} // verus!
