//! The z-stackup: slabs of material that give a "layer" its real z.

use super::limits::{BOARD_THICKNESS, COPPER_THICKNESS, MASK_THICKNESS, SILK_THICKNESS};
use crate::coord::Nm;
use crate::names::Duplicate;
use crate::text::str_eq;
use vstd::prelude::*;

verus! {

/// A vertical extent, `lo ≤ hi`; z increases upward.
#[derive(Clone, Copy, Debug, PartialEq, Eq, Structural)]
pub struct ZRange {
    pub lo: Nm,
    pub hi: Nm,
}

impl ZRange {
    /// The extent between two heights, in either order.
    pub open spec fn between(a: Nm, b: Nm) -> ZRange {
        ZRange {
            lo: if a <= b {
                a
            } else {
                b
            },
            hi: if a <= b {
                b
            } else {
                a
            },
        }
    }

    /// Do two extents share a height? Touching counts.
    pub open spec fn meets(self, o: ZRange) -> bool {
        self.lo <= o.hi && o.lo <= self.hi
    }

    /// The extent between two heights, in either order.
    pub fn new(lo: Nm, hi: Nm) -> (r: ZRange)
        ensures
            r == ZRange::between(lo, hi),
            r.lo <= r.hi,
    {
        if lo <= hi {
            ZRange { lo, hi }
        } else {
            ZRange { lo: hi, hi: lo }
        }
    }

    /// Do two extents overlap, touching included?
    pub fn overlaps(&self, o: &ZRange) -> (r: bool)
        ensures
            r == self.meets(*o),
    {
        self.lo <= o.hi && o.lo <= self.hi
    }
}

/// What a keep-out keeps out.
#[derive(Clone, Copy, Debug, PartialEq, Eq, PartialOrd, Ord, Structural)]
pub enum KeepoutKind {
    Copper,
    Component,
    Drill,
    Route,
}

/// What a region of space is.
#[derive(Clone, Copy, Debug, PartialEq, Eq, Structural)]
pub enum Role {
    /// Electrically active copper.
    Conductor,
    /// Board body.
    Substrate,
    /// Absence of material: a drill, a cutout, a mask opening.
    Void,
    /// Reserved space nothing may intrude into.
    Keepout(KeepoutKind),
    /// Surface marking.
    Marking,
    /// Solder-mask material.
    Mask,
    /// A mechanical reference.
    Datum,
}

/// A physical material, by name.
#[derive(Clone, Debug, PartialEq, Eq)]
pub struct Material {
    pub name: String,
}

impl View for Material {
    type V = Seq<char>;

    open spec fn view(&self) -> Seq<char> {
        self.name@
    }
}

impl Material {
    /// The material called `name`.
    pub fn named(name: &str) -> (r: Material)
        ensures
            r@ == name@,
    {
        Material { name: name.to_owned() }
    }
}

/// An optional material, by name.
pub open spec fn opt_material(o: Option<Material>) -> Option<Seq<char>> {
    match o {
        Some(m) => Some(m@),
        None => None,
    }
}

pub fn clone_material(o: &Option<Material>) -> (r: Option<Material>)
    ensures
        opt_material(r) == opt_material(*o),
{
    match o {
        Some(m) => Some(Material { name: m.name.clone() }),
        None => None,
    }
}

/// A named z-range with the role and material found there.
#[derive(Clone, Debug, PartialEq, Eq)]
pub struct Slab {
    pub name: String,
    pub z: ZRange,
    pub role: Role,
    pub material: Option<Material>,
}

/// A slab as a value.
pub struct SlabV {
    pub name: Seq<char>,
    pub z: ZRange,
    pub role: Role,
    pub material: Option<Seq<char>>,
}

impl View for Slab {
    type V = SlabV;

    open spec fn view(&self) -> SlabV {
        SlabV {
            name: self.name@,
            z: self.z,
            role: self.role,
            material: opt_material(self.material),
        }
    }
}

impl Duplicate for Slab {
    fn duplicate(&self) -> (r: Slab) {
        Slab {
            name: self.name.clone(),
            z: self.z,
            role: self.role,
            material: clone_material(&self.material),
        }
    }
}

/// The board stackup: its slabs, in authored order.
#[derive(Clone, Debug, PartialEq, Eq)]
pub struct Stackup {
    pub slabs: Vec<Slab>,
}

/// The values of a list of slabs.
pub open spec fn slab_views(v: Seq<Slab>) -> Seq<SlabV> {
    Seq::new(v.len(), |i: int| v[i]@)
}

/// The values of a list of borrowed slabs.
pub open spec fn slab_refs(v: Seq<&Slab>) -> Seq<SlabV> {
    Seq::new(v.len(), |i: int| v[i]@)
}

impl View for Stackup {
    type V = Seq<SlabV>;

    open spec fn view(&self) -> Seq<SlabV> {
        slab_views(self.slabs@)
    }
}

// ---------------------------------------------------------------------------
// What a stackup answers.
// ---------------------------------------------------------------------------

/// The position of the first slab called `name`, or the length.
pub open spec fn slab_index(s: Seq<SlabV>, name: Seq<char>) -> int
    decreases s.len(),
{
    if s.len() == 0 {
        0
    } else if s[0].name == name {
        0
    } else {
        1 + slab_index(s.skip(1), name)
    }
}

/// The first slab called `name`.
pub open spec fn find_slab(s: Seq<SlabV>, name: Seq<char>) -> Option<SlabV> {
    if slab_index(s, name) < s.len() {
        Some(s[slab_index(s, name)])
    } else {
        None
    }
}

/// `slab_index` is the first slab of that name, or the length.
pub proof fn slab_index_is_first(s: Seq<SlabV>, name: Seq<char>)
    ensures
        0 <= slab_index(s, name) <= s.len(),
        slab_index(s, name) < s.len() ==> s[slab_index(s, name)].name == name,
        forall|i: int| 0 <= i < slab_index(s, name) ==> (#[trigger] s[i]).name != name,
    decreases s.len(),
{
    if s.len() > 0 && s[0].name != name {
        slab_index_is_first(s.skip(1), name);
        assert forall|i: int| 0 <= i < slab_index(s, name) implies (#[trigger] s[i]).name
            != name by {
            if i > 0 {
                assert(s.skip(1)[i - 1] == s[i]);
            }
        }
    }
}

/// How many leading slabs are at least as high as `hi`.
pub open spec fn rank(s: Seq<SlabV>, hi: Nm) -> int
    decreases s.len(),
{
    if s.len() == 0 {
        0
    } else if s[0].z.hi >= hi {
        1 + rank(s.skip(1), hi)
    } else {
        0
    }
}

/// The conductor slabs among the first `k`, topmost first; slabs of equal height keep
/// their authored order.
pub open spec fn copper_prefix(s: Seq<SlabV>, k: nat) -> Seq<SlabV>
    decreases k,
{
    if k == 0 {
        Seq::empty()
    } else {
        let done = copper_prefix(s, (k - 1) as nat);
        let x = s[k - 1];
        if x.role == Role::Conductor {
            done.insert(rank(done, x.z.hi), x)
        } else {
            done
        }
    }
}

/// The conductor slabs, topmost first.
pub open spec fn copper_of(s: Seq<SlabV>) -> Seq<SlabV> {
    copper_prefix(s, s.len())
}

/// The z of copper layer `i` from the top.
pub open spec fn copper_z(s: Seq<SlabV>, i: int) -> Option<ZRange> {
    if 0 <= i < copper_of(s).len() {
        Some(copper_of(s)[i].z)
    } else {
        None
    }
}

/// The topmost copper.
pub open spec fn top_copper_of(s: Seq<SlabV>) -> Option<ZRange> {
    copper_z(s, 0)
}

/// The lowest copper.
pub open spec fn bottom_copper_of(s: Seq<SlabV>) -> Option<ZRange> {
    copper_z(s, copper_of(s).len() - 1)
}

/// The lowest mask slab among the first `k` at or above height `z`, the first of those.
pub open spec fn mask_above(s: Seq<SlabV>, k: nat, z: Nm) -> Option<ZRange>
    decreases k,
{
    if k == 0 {
        None
    } else {
        let best = mask_above(s, (k - 1) as nat, z);
        let x = s[k - 1];
        if x.role == Role::Mask && x.z.lo >= z && (best is None || x.z.lo < best->0.lo) {
            Some(x.z)
        } else {
            best
        }
    }
}

/// The highest mask slab among the first `k` at or below height `z`, the last of those.
pub open spec fn mask_below(s: Seq<SlabV>, k: nat, z: Nm) -> Option<ZRange>
    decreases k,
{
    if k == 0 {
        None
    } else {
        let best = mask_below(s, (k - 1) as nat, z);
        let x = s[k - 1];
        if x.role == Role::Mask && x.z.hi <= z && (best is None || x.z.hi >= best->0.hi) {
            Some(x.z)
        } else {
            best
        }
    }
}

/// The mask slab just outside the top copper.
pub open spec fn top_mask_of(s: Seq<SlabV>) -> Option<ZRange> {
    match top_copper_of(s) {
        Some(t) => mask_above(s, s.len(), t.hi),
        None => None,
    }
}

/// The mask slab just outside the bottom copper.
pub open spec fn bottom_mask_of(s: Seq<SlabV>) -> Option<ZRange> {
    match bottom_copper_of(s) {
        Some(b) => mask_below(s, s.len(), b.lo),
        None => None,
    }
}

/// Is the slab part of the board body?
pub open spec fn is_body(x: SlabV) -> bool {
    x.role == Role::Conductor || x.role == Role::Substrate
}

/// The lowest face and the highest face among the first `k` slabs (of the body only, when
/// `body`), if there is one.
pub open spec fn span_prefix(s: Seq<SlabV>, k: nat, body: bool) -> Option<(Nm, Nm)>
    decreases k,
{
    if k == 0 {
        None
    } else {
        let best = span_prefix(s, (k - 1) as nat, body);
        let x = s[k - 1];
        if body && !is_body(x) {
            best
        } else {
            match best {
                None => Some((x.z.lo, x.z.hi)),
                Some((lo, hi)) => Some(
                    (
                        if x.z.lo < lo {
                            x.z.lo
                        } else {
                            lo
                        },
                        if x.z.hi > hi {
                            x.z.hi
                        } else {
                            hi
                        },
                    ),
                ),
            }
        }
    }
}

/// The z-range of a span.
pub open spec fn span_z(o: Option<(Nm, Nm)>) -> Option<ZRange> {
    match o {
        Some((lo, hi)) => Some(ZRange::between(lo, hi)),
        None => None,
    }
}

/// The full vertical extent of every slab.
pub open spec fn full_z_of(s: Seq<SlabV>) -> Option<ZRange> {
    span_z(span_prefix(s, s.len(), false))
}

/// The vertical extent of the board body, or of everything when there is no body.
pub open spec fn board_z_of(s: Seq<SlabV>) -> Option<ZRange> {
    match span_prefix(s, s.len(), true) {
        Some(b) => span_z(Some(b)),
        None => full_z_of(s),
    }
}

/// Is there any mask slab?
pub open spec fn has_mask(s: Seq<SlabV>) -> bool {
    exists|i: int| 0 <= i < s.len() && (#[trigger] s[i]).role == Role::Mask
}

/// The outer copper slabs whose outer face no mask covers, top first, a lone slab once;
/// none on a board that has no mask at all.
pub open spec fn unmasked_of(s: Seq<SlabV>) -> Seq<Seq<char>> {
    let cu = copper_of(s);
    if !has_mask(s) || cu.len() == 0 {
        Seq::empty()
    } else {
        let top = cu[0].name;
        let bottom = cu[cu.len() - 1].name;
        if top_mask_of(s) is None && bottom_mask_of(s) is None {
            if cu.len() == 1 {
                seq![top]
            } else {
                seq![top, bottom]
            }
        } else if top_mask_of(s) is None {
            seq![top]
        } else if bottom_mask_of(s) is None {
            seq![bottom]
        } else {
            Seq::empty()
        }
    }
}

// ---------------------------------------------------------------------------
// Laws.
// ---------------------------------------------------------------------------

/// The outer copper is the outermost: no conductor slab has a higher face than the top copper,
/// nor a lower upper face than the bottom copper. There is outer copper as soon as there is
/// any.
pub proof fn outer_copper_is_outermost(s: Seq<SlabV>)
    ensures
        match top_copper_of(s) {
            Some(z) => {
                &&& exists|i: int|
                    0 <= i < s.len() && (#[trigger] s[i]).role == Role::Conductor && s[i].z == z
                &&& forall|i: int|
                    0 <= i < s.len() && (#[trigger] s[i]).role == Role::Conductor ==> s[i].z.hi
                        <= z.hi
            },
            None => forall|i: int| 0 <= i < s.len() ==> (#[trigger] s[i]).role != Role::Conductor,
        },
        match bottom_copper_of(s) {
            Some(z) => {
                &&& exists|i: int|
                    0 <= i < s.len() && (#[trigger] s[i]).role == Role::Conductor && s[i].z == z
                &&& forall|i: int|
                    0 <= i < s.len() && (#[trigger] s[i]).role == Role::Conductor ==> s[i].z.hi
                        >= z.hi
            },
            None => forall|i: int| 0 <= i < s.len() ==> (#[trigger] s[i]).role != Role::Conductor,
        },
{
    copper_is_topmost_first(s);
    let cu = copper_of(s);
    assert forall|i: int| 0 <= i < s.len() && (#[trigger] s[i]).role == Role::Conductor implies
        cu.len() > 0 && cu[cu.len() - 1].z.hi <= s[i].z.hi <= cu[0].z.hi by {
        assert(s.contains(s[i]));
        assert(cu.contains(s[i]));
        let j = choose|j: int| 0 <= j < cu.len() && cu[j] == s[i];
        if 0 < j {
            assert(cu[0].z.hi >= cu[j].z.hi);
        }
        if j < cu.len() - 1 {
            assert(cu[j].z.hi >= cu[cu.len() - 1].z.hi);
        }
    }
    if cu.len() > 0 {
        assert(cu.contains(cu[0]) && cu.contains(cu[cu.len() - 1]));
        let i = choose|i: int| 0 <= i < s.len() && s[i] == cu[0];
        let j = choose|j: int| 0 <= j < s.len() && s[j] == cu[cu.len() - 1];
        assert(s[i].role == Role::Conductor && s[i].z == cu[0].z);
        assert(s[j].role == Role::Conductor && s[j].z == cu[cu.len() - 1].z);
    }
}

proof fn mask_above_is_next(s: Seq<SlabV>, k: nat, z: Nm)
    requires
        k <= s.len(),
    ensures
        match mask_above(s, k, z) {
            Some(m) => {
                &&& m.lo >= z
                &&& exists|i: int|
                    0 <= i < k && (#[trigger] s[i]).role == Role::Mask && s[i].z == m
                &&& forall|i: int|
                    0 <= i < k && (#[trigger] s[i]).role == Role::Mask && s[i].z.lo >= z ==> m.lo
                        <= s[i].z.lo
            },
            None => forall|i: int|
                0 <= i < k && (#[trigger] s[i]).role == Role::Mask ==> s[i].z.lo < z,
        },
    decreases k,
{
    if k > 0 {
        mask_above_is_next(s, (k - 1) as nat, z);
        let x = s[k - 1];
    }
}

proof fn mask_below_is_next(s: Seq<SlabV>, k: nat, z: Nm)
    requires
        k <= s.len(),
    ensures
        match mask_below(s, k, z) {
            Some(m) => {
                &&& m.hi <= z
                &&& exists|i: int|
                    0 <= i < k && (#[trigger] s[i]).role == Role::Mask && s[i].z == m
                &&& forall|i: int|
                    0 <= i < k && (#[trigger] s[i]).role == Role::Mask && s[i].z.hi <= z ==> m.hi
                        >= s[i].z.hi
            },
            None => forall|i: int|
                0 <= i < k && (#[trigger] s[i]).role == Role::Mask ==> s[i].z.hi > z,
        },
    decreases k,
{
    if k > 0 {
        mask_below_is_next(s, (k - 1) as nat, z);
        let x = s[k - 1];
    }
}

/// The mask of a side is the first mask slab beyond the outer copper of that side: no other
/// mask slab beyond the copper is nearer to it.
pub proof fn mask_is_just_outside_the_copper(s: Seq<SlabV>)
    ensures
        top_copper_of(s) matches Some(c) ==> match top_mask_of(s) {
            Some(m) => {
                &&& m.lo >= c.hi
                &&& exists|i: int|
                    0 <= i < s.len() && (#[trigger] s[i]).role == Role::Mask && s[i].z == m
                &&& forall|i: int|
                    0 <= i < s.len() && (#[trigger] s[i]).role == Role::Mask && s[i].z.lo >= c.hi
                        ==> m.lo <= s[i].z.lo
            },
            None => forall|i: int|
                0 <= i < s.len() && (#[trigger] s[i]).role == Role::Mask ==> s[i].z.lo < c.hi,
        },
        bottom_copper_of(s) matches Some(c) ==> match bottom_mask_of(s) {
            Some(m) => {
                &&& m.hi <= c.lo
                &&& exists|i: int|
                    0 <= i < s.len() && (#[trigger] s[i]).role == Role::Mask && s[i].z == m
                &&& forall|i: int|
                    0 <= i < s.len() && (#[trigger] s[i]).role == Role::Mask && s[i].z.hi <= c.lo
                        ==> m.hi >= s[i].z.hi
            },
            None => forall|i: int|
                0 <= i < s.len() && (#[trigger] s[i]).role == Role::Mask ==> s[i].z.hi > c.lo,
        },
{
    if let Some(c) = top_copper_of(s) {
        mask_above_is_next(s, s.len(), c.hi);
    }
    if let Some(c) = bottom_copper_of(s) {
        mask_below_is_next(s, s.len(), c.lo);
    }
}

proof fn span_holds(s: Seq<SlabV>, k: nat, body: bool)
    requires
        k <= s.len(),
    ensures
        match span_prefix(s, k, body) {
            Some((lo, hi)) => {
                &&& forall|i: int|
                    0 <= i < k && (!body || is_body(s[i])) ==> lo <= (#[trigger] s[i]).z.lo
                        && s[i].z.hi <= hi
                &&& exists|i: int|
                    0 <= i < k && (!body || is_body(s[i])) && (#[trigger] s[i]).z.lo == lo
                &&& exists|i: int|
                    0 <= i < k && (!body || is_body(s[i])) && (#[trigger] s[i]).z.hi == hi
            },
            None => forall|i: int| 0 <= i < k ==> body && !is_body(#[trigger] s[i]),
        },
    decreases k,
{
    if k > 0 {
        span_holds(s, (k - 1) as nat, body);
        let x = s[k - 1];
        if !body || is_body(x) {
            assert(s[k - 1].z.lo == x.z.lo);
        }
    }
}

/// The full height of a stackup holds every slab, and is no larger: some slab is the lowest
/// and some slab the highest.
pub proof fn full_z_holds_all(s: Seq<SlabV>)
    requires
        s.len() > 0,
    ensures
        full_z_of(s) matches Some(z) && forall|i: int|
            0 <= i < s.len() ==> z.lo <= (#[trigger] s[i]).z.lo && s[i].z.hi <= z.hi,
        (forall|i: int| 0 <= i < s.len() ==> (#[trigger] s[i]).z.lo <= s[i].z.hi) ==> (exists|i: int|
            0 <= i < s.len() && (#[trigger] s[i]).z.lo == full_z_of(s)->0.lo) && (exists|i: int|
            0 <= i < s.len() && (#[trigger] s[i]).z.hi == full_z_of(s)->0.hi),
{
    span_holds(s, s.len(), false);
    assert(s[0].z.lo == s[0].z.lo);
}

/// The height of the board body holds every slab of substrate and copper, and is no larger.
pub proof fn board_z_holds_the_body(s: Seq<SlabV>)
    requires
        exists|i: int|
            0 <= i < s.len() && ((#[trigger] s[i]).role == Role::Substrate || s[i].role
                == Role::Conductor),
        forall|i: int| 0 <= i < s.len() ==> (#[trigger] s[i]).z.lo <= s[i].z.hi,
    ensures
        board_z_of(s) matches Some(z) && forall|i: int|
            0 <= i < s.len() && ((#[trigger] s[i]).role == Role::Substrate || s[i].role
                == Role::Conductor) ==> z.lo <= s[i].z.lo && s[i].z.hi <= z.hi,
        exists|i: int|
            0 <= i < s.len() && ((#[trigger] s[i]).role == Role::Substrate || s[i].role
                == Role::Conductor) && s[i].z.lo == board_z_of(s)->0.lo,
        exists|i: int|
            0 <= i < s.len() && ((#[trigger] s[i]).role == Role::Substrate || s[i].role
                == Role::Conductor) && s[i].z.hi == board_z_of(s)->0.hi,
{
    span_holds(s, s.len(), true);
    let i = choose|i: int|
        0 <= i < s.len() && ((#[trigger] s[i]).role == Role::Substrate || s[i].role
            == Role::Conductor);
    assert(is_body(s[i]));
}

/// Topmost first: heights never increase along the list.
pub open spec fn descending(s: Seq<SlabV>) -> bool {
    forall|i: int, j: int|
        0 <= i < j < s.len() ==> (#[trigger] s[i]).z.hi >= (#[trigger] s[j]).z.hi
}

/// The slab is copper.
pub open spec fn is_copper() -> spec_fn(SlabV) -> bool {
    |x: SlabV| x.role == Role::Conductor
}

/// The copper slabs come topmost first, and are exactly the conductor slabs, each as often
/// as it is there.
pub proof fn copper_is_topmost_first(s: Seq<SlabV>)
    ensures
        descending(copper_of(s)),
        copper_of(s).to_multiset() == s.filter(is_copper()).to_multiset(),
        forall|x: SlabV|
            #[trigger] copper_of(s).contains(x) <==> s.contains(x) && x.role == Role::Conductor,
{
    copper_prefix_descends(s, s.len());
    copper_prefix_members(s, s.len());
    copper_prefix_counts(s, s.len());
    assert(s.take(s.len() as int) =~= s);
}

proof fn copper_prefix_counts(s: Seq<SlabV>, k: nat)
    requires
        k <= s.len(),
    ensures
        copper_prefix(s, k).to_multiset() == s.take(k as int).filter(is_copper()).to_multiset(),
    decreases k,
{
    let t = s.take(k as int);
    reveal(Seq::filter);
    if k == 0 {
        assert(copper_prefix(s, k) =~= t.filter(is_copper()));
    } else {
        let done = copper_prefix(s, (k - 1) as nat);
        let x = s[k - 1];
        copper_prefix_counts(s, (k - 1) as nat);
        assert(t.drop_last() =~= s.take(k - 1));
        if x.role == Role::Conductor {
            rank_splits(done, x.z.hi);
            let rest = s.take(k - 1).filter(is_copper());
            vstd::seq_lib::to_multiset_insert(done, rank(done, x.z.hi), x);
            vstd::seq_lib::to_multiset_insert(rest, rest.len() as int, x);
            assert(rest.push(x) =~= rest.insert(rest.len() as int, x));
        }
    }
}

proof fn rank_splits(s: Seq<SlabV>, hi: Nm)
    ensures
        0 <= rank(s, hi) <= s.len(),
        forall|i: int| 0 <= i < rank(s, hi) ==> (#[trigger] s[i]).z.hi >= hi,
        rank(s, hi) < s.len() ==> s[rank(s, hi)].z.hi < hi,
    decreases s.len(),
{
    if s.len() > 0 && s[0].z.hi >= hi {
        let t = s.skip(1);
        rank_splits(t, hi);
        assert forall|i: int| 0 <= i < rank(s, hi) implies (#[trigger] s[i]).z.hi >= hi by {
            if i > 0 {
                assert(t[i - 1] == s[i]);
            }
        }
        if rank(s, hi) < s.len() {
            assert(t[rank(t, hi)] == s[rank(s, hi)]);
        }
    }
}

proof fn copper_prefix_descends(s: Seq<SlabV>, k: nat)
    requires
        k <= s.len(),
    ensures
        descending(copper_prefix(s, k)),
    decreases k,
{
    if k > 0 {
        copper_prefix_descends(s, (k - 1) as nat);
        let done = copper_prefix(s, (k - 1) as nat);
        let x = s[k - 1];
        if x.role == Role::Conductor {
            rank_splits(done, x.z.hi);
            let p = rank(done, x.z.hi);
            let all = done.insert(p, x);
            assert forall|i: int, j: int| 0 <= i < j < all.len() implies (#[trigger] all[i]).z.hi
                >= (#[trigger] all[j]).z.hi by {
                let a = if i < p {
                    i
                } else {
                    i - 1
                };
                let b = if j < p {
                    j
                } else {
                    j - 1
                };
                if i == p {
                    assert(all[j] == done[b]);
                    if b > p {
                        assert(done[p].z.hi >= done[b].z.hi);
                    }
                } else if j == p {
                    assert(all[i] == done[a]);
                } else {
                    assert(all[i] == done[a] && all[j] == done[b]);
                }
            }
        }
    }
}

proof fn copper_prefix_members(s: Seq<SlabV>, k: nat)
    requires
        k <= s.len(),
    ensures
        forall|x: SlabV|
            #[trigger] copper_prefix(s, k).contains(x) <==> s.take(k as int).contains(x) && x.role
                == Role::Conductor,
    decreases k,
{
    if k > 0 {
        copper_prefix_members(s, (k - 1) as nat);
        let done = copper_prefix(s, (k - 1) as nat);
        let y = s[k - 1];
        let t0 = s.take(k - 1);
        let t = s.take(k as int);
        assert(t =~= t0.push(y));
        rank_splits(done, y.z.hi);
        let p = rank(done, y.z.hi);
        let all = copper_prefix(s, k);
        assert forall|x: SlabV|
            #[trigger] all.contains(x) <==> t.contains(x) && x.role == Role::Conductor by {
            if all.contains(x) {
                let i = choose|i: int| 0 <= i < all.len() && all[i] == x;
                if y.role == Role::Conductor && i == p {
                    assert(t[k - 1] == x);
                } else {
                    let a = if y.role != Role::Conductor || i < p {
                        i
                    } else {
                        i - 1
                    };
                    assert(done[a] == x);
                    assert(done.contains(x));
                    let m = choose|m: int| 0 <= m < t0.len() && t0[m] == x;
                    assert(t[m] == x);
                }
            }
            if t.contains(x) && x.role == Role::Conductor {
                let m = choose|m: int| 0 <= m < t.len() && t[m] == x;
                if m == k - 1 {
                    assert(all[p] == x);
                } else {
                    assert(t0[m] == x);
                    assert(t0.contains(x));
                    assert(done.contains(x));
                    let a = choose|a: int| 0 <= a < done.len() && done[a] == x;
                    let i = if y.role != Role::Conductor || a < p {
                        a
                    } else {
                        a + 1
                    };
                    assert(all[i] == x);
                }
            }
        }
    } else {
        assert(s.take(0) =~= Seq::<SlabV>::empty());
    }
}

// ---------------------------------------------------------------------------
// The queries.
// ---------------------------------------------------------------------------

/// The value of a slab.
pub open spec fn slab_value(
    name: Seq<char>,
    lo: int,
    hi: int,
    role: Role,
    material: Seq<char>,
) -> SlabV {
    SlabV {
        name,
        z: ZRange { lo: lo as i64, hi: hi as i64 },
        role,
        material: Some(material),
    }
}

/// The default stackup: a 1.6 mm board with copper, mask and silk on both sides.
pub open spec fn default_slabs() -> Seq<SlabV> {
    let t = BOARD_THICKNESS as int;
    let c = COPPER_THICKNESS as int;
    let m = MASK_THICKNESS as int;
    let k = SILK_THICKNESS as int;
    seq![
        slab_value("B.SilkS"@, -m - k, -m, Role::Marking, "ink"@),
        slab_value("B.Mask"@, -m, 0, Role::Mask, "soldermask"@),
        slab_value("B.Cu"@, 0, c, Role::Conductor, "copper"@),
        slab_value("core"@, c, t - c, Role::Substrate, "FR4"@),
        slab_value("F.Cu"@, t - c, t, Role::Conductor, "copper"@),
        slab_value("F.Mask"@, t, t + m, Role::Mask, "soldermask"@),
        slab_value("F.SilkS"@, t + m, t + m + k, Role::Marking, "ink"@),
    ]
}

fn make_slab(name: &str, lo: Nm, hi: Nm, role: Role, material: &str) -> (r: Slab)
    requires
        lo <= hi,
    ensures
        r@ == slab_value(name@, lo as int, hi as int, role, material@),
{
    Slab {
        name: name.to_owned(),
        z: ZRange::new(lo, hi),
        role,
        material: Some(Material::named(material)),
    }
}

fn widest(slabs: &Vec<Slab>, body: bool) -> (r: Option<(Nm, Nm)>)
    ensures
        r == span_prefix(slab_views(slabs@), slabs@.len(), body),
{
    let mut best: Option<(Nm, Nm)> = None;
    let mut i: usize = 0;
    let ghost s = slab_views(slabs@);
    while i < slabs.len()
        invariant
            i <= slabs.len(),
            s == slab_views(slabs@),
            best == span_prefix(s, i as nat, body),
        decreases slabs.len() - i,
    {
        let x = &slabs[i];
        assert(s[i as int] == x@);
        let counts = !body || x.role == Role::Conductor || x.role == Role::Substrate;
        if counts {
            best = match best {
                None => Some((x.z.lo, x.z.hi)),
                Some((lo, hi)) => Some(
                    (
                        if x.z.lo < lo {
                            x.z.lo
                        } else {
                            lo
                        },
                        if x.z.hi > hi {
                            x.z.hi
                        } else {
                            hi
                        },
                    ),
                ),
            };
        }
        i += 1;
    }
    best
}

impl Stackup {
    /// The familiar default: a 1.6 mm board, 1 oz copper on both sides, mask and silk
    /// extending outward from the copper.
    pub fn default_2layer() -> (r: Stackup)
        ensures
            r@ == default_slabs(),
    {
        let t = BOARD_THICKNESS;
        let c = COPPER_THICKNESS;
        let mask = MASK_THICKNESS;
        let silk = SILK_THICKNESS;
        let mut slabs: Vec<Slab> = Vec::new();
        slabs.push(make_slab("B.SilkS", -mask - silk, -mask, Role::Marking, "ink"));
        slabs.push(make_slab("B.Mask", -mask, 0, Role::Mask, "soldermask"));
        slabs.push(make_slab("B.Cu", 0, c, Role::Conductor, "copper"));
        slabs.push(make_slab("core", c, t - c, Role::Substrate, "FR4"));
        slabs.push(make_slab("F.Cu", t - c, t, Role::Conductor, "copper"));
        slabs.push(make_slab("F.Mask", t, t + mask, Role::Mask, "soldermask"));
        slabs.push(make_slab("F.SilkS", t + mask, t + mask + silk, Role::Marking, "ink"));
        let r = Stackup { slabs };
        assert(r@ =~= default_slabs());
        r
    }

    /// The first slab called `name`.
    pub fn slab(&self, name: &str) -> (r: Option<&Slab>)
        ensures
            match r {
                Some(s) => find_slab(self@, name@) == Some(s@),
                None => find_slab(self@, name@) is None,
            },
    {
        let mut i: usize = 0;
        proof {
            slab_index_is_first(self@, name@);
        }
        while i < self.slabs.len()
            invariant
                i <= slab_index(self@, name@) <= self@.len(),
                self@.len() == self.slabs.len(),
                slab_index(self@, name@) < self@.len() ==> self@[slab_index(self@, name@)].name
                    == name@,
                forall|j: int|
                    0 <= j < slab_index(self@, name@) ==> (#[trigger] self@[j]).name != name@,
            decreases self.slabs.len() - i,
        {
            assert(self@[i as int] == self.slabs@[i as int]@);
            if str_eq(self.slabs[i].name.as_str(), name) {
                return Some(&self.slabs[i]);
            }
            i += 1;
        }
        None
    }

    /// The z-range of the slab called `name`.
    pub fn slab_z(&self, name: &str) -> (r: Option<ZRange>)
        ensures
            r == match find_slab(self@, name@) {
                Some(s) => Some(s.z),
                None => None,
            },
    {
        match self.slab(name) {
            Some(s) => Some(s.z),
            None => None,
        }
    }

    /// The conductor slabs, topmost first.
    pub fn copper_slabs(&self) -> (r: Vec<&Slab>)
        ensures
            slab_refs(r@) == copper_of(self@),
    {
        let mut cu: Vec<&Slab> = Vec::new();
        let mut i: usize = 0;
        assert(slab_refs(cu@) =~= copper_prefix(self@, 0));
        while i < self.slabs.len()
            invariant
                i <= self.slabs.len(),
                slab_refs(cu@) == copper_prefix(self@, i as nat),
            decreases self.slabs.len() - i,
        {
            let x = &self.slabs[i];
            assert(self@[i as int] == x@);
            if x.role == Role::Conductor {
                let ghost done = slab_refs(cu@);
                let mut at: usize = 0;
                assert(done.skip(0) =~= done);
                while at < cu.len() && cu[at].z.hi >= x.z.hi
                    invariant
                        at <= cu.len(),
                        done == slab_refs(cu@),
                        rank(done, x.z.hi) == at + rank(done.skip(at as int), x.z.hi),
                    decreases cu.len() - at,
                {
                    assert(done.skip(at as int)[0] == done[at as int]);
                    assert(done.skip(at as int).skip(1) =~= done.skip(at + 1));
                    at += 1;
                }
                proof {
                    if at < cu.len() {
                        assert(done.skip(at as int)[0] == done[at as int]);
                    }
                }
                cu.insert(at, x);
                assert(slab_refs(cu@) =~= done.insert(at as int, x@));
            }
            i += 1;
        }
        cu
    }

    /// The z-range of copper layer `i` from the top.
    pub fn nth_copper_from_top(&self, i: usize) -> (r: Option<ZRange>)
        ensures
            r == copper_z(self@, i as int),
    {
        let cu = self.copper_slabs();
        assert(slab_refs(cu@).len() == cu.len());
        if i < cu.len() {
            assert(slab_refs(cu@)[i as int] == cu@[i as int]@);
            Some(cu[i].z)
        } else {
            None
        }
    }

    /// The top outer copper.
    pub fn top_copper(&self) -> (r: Option<ZRange>)
        ensures
            r == top_copper_of(self@),
    {
        self.nth_copper_from_top(0)
    }

    /// The bottom outer copper.
    pub fn bottom_copper(&self) -> (r: Option<ZRange>)
        ensures
            r == bottom_copper_of(self@),
    {
        let cu = self.copper_slabs();
        assert(slab_refs(cu@).len() == cu.len());
        if cu.len() == 0 {
            None
        } else {
            assert(slab_refs(cu@)[cu.len() - 1] == cu@[cu.len() - 1]@);
            Some(cu[cu.len() - 1].z)
        }
    }

    /// The solder-mask slab immediately outside the top copper, found by role and
    /// height, whatever its name.
    pub fn top_mask(&self) -> (r: Option<ZRange>)
        ensures
            r == top_mask_of(self@),
    {
        let top = match self.top_copper() {
            Some(z) => z,
            None => {
                return None;
            },
        };
        let mut best: Option<ZRange> = None;
        let mut i: usize = 0;
        while i < self.slabs.len()
            invariant
                i <= self.slabs.len(),
                best == mask_above(self@, i as nat, top.hi),
            decreases self.slabs.len() - i,
        {
            let x = &self.slabs[i];
            assert(self@[i as int] == x@);
            if x.role == Role::Mask && x.z.lo >= top.hi {
                let better = match best {
                    None => true,
                    Some(b) => x.z.lo < b.lo,
                };
                if better {
                    best = Some(x.z);
                }
            }
            i += 1;
        }
        best
    }

    /// The solder-mask slab immediately outside the bottom copper.
    pub fn bottom_mask(&self) -> (r: Option<ZRange>)
        ensures
            r == bottom_mask_of(self@),
    {
        let bot = match self.bottom_copper() {
            Some(z) => z,
            None => {
                return None;
            },
        };
        let mut best: Option<ZRange> = None;
        let mut i: usize = 0;
        while i < self.slabs.len()
            invariant
                i <= self.slabs.len(),
                best == mask_below(self@, i as nat, bot.lo),
            decreases self.slabs.len() - i,
        {
            let x = &self.slabs[i];
            assert(self@[i as int] == x@);
            if x.role == Role::Mask && x.z.hi <= bot.lo {
                let better = match best {
                    None => true,
                    Some(b) => x.z.hi >= b.hi,
                };
                if better {
                    best = Some(x.z);
                }
            }
            i += 1;
        }
        best
    }

    /// The board body's vertical extent: copper and dielectric, without mask and silk.
    pub fn board_z(&self) -> (r: Option<ZRange>)
        ensures
            r == board_z_of(self@),
    {
        match widest(&self.slabs, true) {
            Some((lo, hi)) => Some(ZRange::new(lo, hi)),
            None => self.full_z(),
        }
    }

    /// The full vertical extent, mask and silk included.
    pub fn full_z(&self) -> (r: Option<ZRange>)
        ensures
            r == full_z_of(self@),
    {
        match widest(&self.slabs, false) {
            Some((lo, hi)) => Some(ZRange::new(lo, hi)),
            None => None,
        }
    }

    /// The outer copper slabs whose outer face no mask covers, top first. A board without
    /// any mask is deliberately bare and names none.
    pub fn unmasked_outer_copper(&self) -> (r: Vec<String>)
        ensures
            crate::text::strs(r@) == unmasked_of(self@),
    {
        let mut out: Vec<String> = Vec::new();
        let mut any = false;
        let mut i: usize = 0;
        while i < self.slabs.len()
            invariant
                i <= self.slabs.len(),
                any == (exists|j: int| 0 <= j < i && (#[trigger] self@[j]).role == Role::Mask),
            decreases self.slabs.len() - i,
        {
            assert(self@[i as int] == self.slabs@[i as int]@);
            if self.slabs[i].role == Role::Mask {
                any = true;
            }
            i += 1;
        }
        let cu = self.copper_slabs();
        assert(slab_refs(cu@).len() == cu.len());
        if any && cu.len() > 0 {
            assert(slab_refs(cu@)[0] == cu@[0]@);
            assert(slab_refs(cu@)[cu.len() - 1] == cu@[cu.len() - 1]@);
            let top_bare = self.top_mask().is_none();
            let bottom_bare = self.bottom_mask().is_none();
            if top_bare {
                out.push(cu[0].name.clone());
            }
            if bottom_bare && !(top_bare && cu.len() == 1) {
                out.push(cu[cu.len() - 1].name.clone());
            }
        }
        assert(crate::text::strs(out@) =~= unmasked_of(self@));
        out
    }
}

} // verus!
