//! Copper layers, traces and vias.

use crate::coord::{Nm, Point};
use crate::doc::Provenance;
use crate::geom::polygon::clone_points;
use crate::geom::stackup;
use crate::geom::stackup::{Slab, SlabV, Stackup, ZRange};
use crate::id::NetId;
use crate::names::Duplicate;
use crate::text::str_eq;
use vstd::prelude::*;

verus! {

/// A copper layer by its position in the stack: the working form of a router, never
/// stored. Identity is a slab name.
#[derive(Clone, Copy, Debug, PartialEq, Eq, PartialOrd, Ord, Hash, Structural)]
pub enum Layer {
    Top,
    Inner(u8),
    Bottom,
}

/// Position in the stack, top first. `Bottom` lies below every inner layer.
pub open spec fn depth_of(l: Layer) -> int {
    match l {
        Layer::Top => 0,
        Layer::Inner(n) => 1 + n,
        Layer::Bottom => 257,
    }
}

impl Layer {
    /// Position in the stack, top first.
    pub fn depth(self) -> (r: i32)
        ensures
            r == depth_of(self),
    {
        match self {
            Layer::Top => 0,
            Layer::Inner(n) => 1 + n as i32,
            Layer::Bottom => 1 + 256,
        }
    }
}

/// Layers are ordered by depth, and no two share one.
pub proof fn depth_is_injective(a: Layer, b: Layer)
    ensures
        depth_of(a) == depth_of(b) ==> a == b,
        depth_of(Layer::Top) <= depth_of(a) <= depth_of(Layer::Bottom),
{
}

/// A routed polyline on one copper slab.
#[derive(Debug, PartialEq, Eq)]
pub struct Trace {
    pub net: NetId,
    pub layer: String,
    pub path: Vec<Point>,
    pub width: Nm,
    pub prov: Provenance,
}

/// A trace as a value.
#[verifier::ext_equal]
pub struct TraceV {
    pub net: Seq<char>,
    pub layer: Seq<char>,
    pub path: Seq<Point>,
    pub width: Nm,
    pub prov: Provenance,
}

impl View for Trace {
    type V = TraceV;

    open spec fn view(&self) -> TraceV {
        TraceV {
            net: self.net@,
            layer: self.layer@,
            path: self.path@,
            width: self.width,
            prov: self.prov,
        }
    }
}

impl Duplicate for Trace {
    fn duplicate(&self) -> (r: Trace) {
        Trace {
            net: self.net.duplicate(),
            layer: self.layer.clone(),
            path: clone_points(&self.path),
            width: self.width,
            prov: self.prov,
        }
    }
}

/// A plated via. Without a span it connects every copper slab; with one, every copper
/// slab between the two it names.
#[derive(Debug, PartialEq, Eq)]
pub struct Via {
    pub net: NetId,
    pub at: Point,
    pub span: Option<(String, String)>,
    pub drill: Nm,
    pub pad: Nm,
    pub prov: Provenance,
}

/// A via as a value.
#[verifier::ext_equal]
pub struct ViaV {
    pub net: Seq<char>,
    pub at: Point,
    pub span: Option<(Seq<char>, Seq<char>)>,
    pub drill: Nm,
    pub pad: Nm,
    pub prov: Provenance,
}

impl View for Via {
    type V = ViaV;

    open spec fn view(&self) -> ViaV {
        ViaV {
            net: self.net@,
            at: self.at,
            span: match self.span {
                Some((a, b)) => Some((a@, b@)),
                None => None,
            },
            drill: self.drill,
            pad: self.pad,
            prov: self.prov,
        }
    }
}

impl Duplicate for Via {
    fn duplicate(&self) -> (r: Via) {
        let span = match &self.span {
            Some((a, b)) => Some((a.clone(), b.clone())),
            None => None,
        };
        Via {
            net: self.net.duplicate(),
            at: self.at,
            span,
            drill: self.drill,
            pad: self.pad,
            prov: self.prov,
        }
    }
}

/// The position of the first slab with z-range `z`, or the length.
pub open spec fn z_index(cu: Seq<SlabV>, z: ZRange) -> int
    decreases cu.len(),
{
    if cu.len() == 0 {
        0
    } else if cu[0].z == z {
        0
    } else {
        1 + z_index(cu.skip(1), z)
    }
}

/// `z_index` is the first slab with that z-range, or the length.
pub proof fn z_index_is_first(cu: Seq<SlabV>, z: ZRange)
    ensures
        0 <= z_index(cu, z) <= cu.len(),
        z_index(cu, z) < cu.len() ==> cu[z_index(cu, z)].z == z,
        forall|i: int| 0 <= i < z_index(cu, z) ==> (#[trigger] cu[i]).z != z,
    decreases cu.len(),
{
    if cu.len() > 0 && cu[0].z != z {
        z_index_is_first(cu.skip(1), z);
        assert forall|i: int| 0 <= i < z_index(cu, z) implies (#[trigger] cu[i]).z != z by {
            if i > 0 {
                assert(cu.skip(1)[i - 1] == cu[i]);
            }
        }
    }
}

/// The range of copper slabs a via connects, as indices into the copper top-down; `None`
/// when a named end is unknown, or there is no copper.
pub open spec fn via_range(v: ViaV, cu: Seq<SlabV>) -> Option<(int, int)> {
    match v.span {
        None => if cu.len() == 0 {
            None
        } else {
            Some((0, cu.len() - 1))
        },
        Some((from, to)) => {
            let a = stackup::slab_index(cu, from);
            let b = stackup::slab_index(cu, to);
            if a < cu.len() && b < cu.len() {
                Some(
                    if a <= b {
                        (a, b)
                    } else {
                        (b, a)
                    },
                )
            } else {
                None
            }
        },
    }
}

/// Does a via connect copper at height `z`?
pub open spec fn via_spans_z(v: ViaV, cu: Seq<SlabV>, z: ZRange) -> bool {
    let i = z_index(cu, z);
    i < cu.len() && match via_range(v, cu) {
        Some((lo, hi)) => lo <= i <= hi,
        None => false,
    }
}

/// The first `k` copper slabs, those a via connects.
pub open spec fn spanned_prefix(v: ViaV, cu: Seq<SlabV>, k: nat) -> Seq<SlabV>
    decreases k,
{
    if k == 0 {
        Seq::empty()
    } else if via_spans_z(v, cu, cu[k - 1].z) {
        spanned_prefix(v, cu, (k - 1) as nat).push(cu[k - 1])
    } else {
        spanned_prefix(v, cu, (k - 1) as nat)
    }
}

/// The copper slabs a via connects, top-down.
pub open spec fn spanned_of(v: ViaV, cu: Seq<SlabV>) -> Seq<SlabV> {
    spanned_prefix(v, cu, cu.len())
}

/// A via connects copper slabs of the board and no others.
pub proof fn spanned_are_copper(v: ViaV, cu: Seq<SlabV>)
    ensures
        forall|i: int|
            0 <= i < spanned_of(v, cu).len() ==> exists|j: int|
                0 <= j < cu.len() && #[trigger] cu[j] == #[trigger] spanned_of(v, cu)[i],
{
    spanned_from_copper(v, cu, cu.len());
}

proof fn spanned_from_copper(v: ViaV, cu: Seq<SlabV>, k: nat)
    requires
        k <= cu.len(),
    ensures
        forall|i: int|
            0 <= i < spanned_prefix(v, cu, k).len() ==> exists|j: int|
                0 <= j < k && #[trigger] cu[j] == #[trigger] spanned_prefix(v, cu, k)[i],
    decreases k,
{
    if k > 0 {
        spanned_from_copper(v, cu, (k - 1) as nat);
        let done = spanned_prefix(v, cu, (k - 1) as nat);
        let all = spanned_prefix(v, cu, k);
        assert forall|i: int| 0 <= i < all.len() implies exists|j: int|
            0 <= j < k && #[trigger] cu[j] == #[trigger] all[i] by {
            if i < done.len() {
                assert(all[i] == done[i]);
            } else {
                assert(all[i] == cu[k - 1]);
            }
        }
    }
}

/// The position of the slab called `name`, or the length.
pub fn index_of_name(cu: &Vec<&Slab>, name: &str) -> (r: usize)
    ensures
        r == stackup::slab_index(stackup::slab_refs(cu@), name@),
        r <= cu.len(),
{
    let ghost s = stackup::slab_refs(cu@);
    let mut i: usize = 0;
    proof {
        stackup::slab_index_is_first(s, name@);
    }
    while i < cu.len()
        invariant
            s == stackup::slab_refs(cu@),
            i <= stackup::slab_index(s, name@) <= s.len(),
            stackup::slab_index(s, name@) < s.len() ==> s[stackup::slab_index(s, name@)].name
                == name@,
            forall|j: int|
                0 <= j < stackup::slab_index(s, name@) ==> (#[trigger] s[j]).name != name@,
        decreases cu.len() - i,
    {
        assert(s[i as int] == cu@[i as int]@);
        if str_eq(cu[i].name.as_str(), name) {
            return i;
        }
        i += 1;
    }
    i
}

/// The position of the first slab with z-range `z`, or the length.
pub fn index_of_z(cu: &Vec<&Slab>, z: ZRange) -> (r: usize)
    ensures
        r == z_index(stackup::slab_refs(cu@), z),
        r <= cu.len(),
{
    let ghost s = stackup::slab_refs(cu@);
    let mut i: usize = 0;
    proof {
        z_index_is_first(s, z);
    }
    while i < cu.len()
        invariant
            s == stackup::slab_refs(cu@),
            i <= z_index(s, z) <= s.len(),
            z_index(s, z) < s.len() ==> s[z_index(s, z)].z == z,
            forall|j: int| 0 <= j < z_index(s, z) ==> (#[trigger] s[j]).z != z,
        decreases cu.len() - i,
    {
        assert(s[i as int] == cu@[i as int]@);
        if cu[i].z == z {
            return i;
        }
        i += 1;
    }
    i
}

impl Via {
    /// The range of copper slabs this via connects.
    pub fn span_range(&self, cu: &Vec<&Slab>) -> (r: Option<(usize, usize)>)
        ensures
            match r {
                Some((lo, hi)) => via_range(self@, stackup::slab_refs(cu@)) == Some(
                    (lo as int, hi as int),
                ) && lo <= hi < cu.len(),
                None => via_range(self@, stackup::slab_refs(cu@)) is None,
            },
    {
        match &self.span {
            None => {
                if cu.len() == 0 {
                    None
                } else {
                    Some((0, cu.len() - 1))
                }
            },
            Some((from, to)) => {
                let a = index_of_name(cu, from.as_str());
                let b = index_of_name(cu, to.as_str());
                if a < cu.len() && b < cu.len() {
                    if a <= b {
                        Some((a, b))
                    } else {
                        Some((b, a))
                    }
                } else {
                    None
                }
            },
        }
    }

    /// Does this via connect copper on the slab with z-range `z`, among the copper slabs
    /// `cu` top-down? A span with an unknown end connects nothing.
    pub fn spans_z(&self, cu: &Vec<&Slab>, z: &ZRange) -> (r: bool)
        ensures
            r == via_spans_z(self@, stackup::slab_refs(cu@), *z),
    {
        let idx = index_of_z(cu, *z);
        if idx >= cu.len() {
            return false;
        }
        match self.span_range(cu) {
            Some((lo, hi)) => lo <= idx && idx <= hi,
            None => false,
        }
    }

    /// The copper slabs this via's barrel connects, top-down.
    pub fn spanned_slabs<'a>(&self, cu: &Vec<&'a Slab>) -> (r: Vec<&'a Slab>)
        ensures
            stackup::slab_refs(r@) == spanned_of(self@, stackup::slab_refs(cu@)),
    {
        let ghost s = stackup::slab_refs(cu@);
        let mut out: Vec<&'a Slab> = Vec::new();
        let mut i: usize = 0;
        assert(stackup::slab_refs(out@) =~= spanned_prefix(self@, s, 0));
        while i < cu.len()
            invariant
                i <= cu.len(),
                s == stackup::slab_refs(cu@),
                stackup::slab_refs(out@) == spanned_prefix(self@, s, i as nat),
            decreases cu.len() - i,
        {
            assert(s[i as int] == cu@[i as int]@);
            let ghost before = out@;
            if self.spans_z(cu, &cu[i].z) {
                out.push(cu[i]);
                assert(stackup::slab_refs(out@) =~= stackup::slab_refs(before).push(s[i as int]));
            }
            i += 1;
        }
        out
    }
}

// ---------------------------------------------------------------------------
// The bridge between ordinals and slab names.
// ---------------------------------------------------------------------------

/// The ordinal of copper layer `i` of `n`. Inner layers beyond the ordinals' range wrap.
pub open spec fn ordinal(i: int, n: int) -> Layer {
    if i == 0 {
        Layer::Top
    } else if i + 1 == n {
        Layer::Bottom
    } else {
        Layer::Inner(((i - 1) % 256) as u8)
    }
}

/// The index among `n` copper layers an ordinal stands for.
pub open spec fn layer_index(l: Layer, n: int) -> Option<int> {
    match l {
        Layer::Top => if n > 0 {
            Some(0)
        } else {
            None
        },
        Layer::Bottom => if n > 0 {
            Some(n - 1)
        } else {
            None
        },
        Layer::Inner(k) => if k + 2 < n {
            Some(k + 1)
        } else {
            None
        },
    }
}

/// Ordinals and copper layers correspond one to one, on any stackup whose inner layers
/// the ordinals can count.
pub proof fn ordinals_round_trip(i: int, n: int)
    requires
        0 <= i < n <= 258,
    ensures
        layer_index(ordinal(i, n), n) == Some(i),
{
}

/// The copper layers with their z, top-down.
pub fn copper_layers_z(stackup: &Stackup) -> (r: Vec<(Layer, ZRange)>)
    ensures
        r.len() == stackup::copper_of(stackup@).len(),
        forall|i: int|
            0 <= i < r.len() ==> #[trigger] r@[i] == (
                ordinal(i, r.len() as int),
                stackup::copper_of(stackup@)[i].z,
            ),
{
    let slabs = stackup.copper_slabs();
    let n = slabs.len();
    let ghost s = stackup::slab_refs(slabs@);
    let mut out: Vec<(Layer, ZRange)> = Vec::new();
    let mut i: usize = 0;
    while i < n
        invariant
            n == slabs.len(),
            s == stackup::slab_refs(slabs@),
            i <= n,
            out.len() == i,
            forall|j: int| 0 <= j < i ==> #[trigger] out@[j] == (ordinal(j, n as int), s[j].z),
        decreases n - i,
    {
        assert(s[i as int] == slabs@[i as int]@);
        let layer = if i == 0 {
            Layer::Top
        } else if i + 1 == n {
            Layer::Bottom
        } else {
            Layer::Inner(((i - 1) % 256) as u8)
        };
        out.push((layer, slabs[i].z));
        i += 1;
    }
    out
}

/// The slab name of an ordinal; `None` when the stackup has no such copper layer.
pub fn layer_slab_name(stackup: &Stackup, l: Layer) -> (r: Option<String>)
    ensures
        match (r, layer_index(l, stackup::copper_of(stackup@).len() as int)) {
            (Some(name), Some(i)) => name@ == stackup::copper_of(stackup@)[i].name,
            (None, None) => true,
            _ => false,
        },
{
    let cu = stackup.copper_slabs();
    let n = cu.len();
    let ghost s = stackup::slab_refs(cu@);
    assert(s.len() == n);
    let idx: usize = match l {
        Layer::Top => {
            if n == 0 {
                return None;
            }
            0
        },
        Layer::Bottom => {
            if n == 0 {
                return None;
            }
            n - 1
        },
        Layer::Inner(k) => {
            let i: usize = 1 + k as usize;
            if n <= i || n - i <= 1 {
                return None;
            }
            i
        },
    };
    assert(s[idx as int] == cu@[idx as int]@);
    Some(cu[idx].name.clone())
}

/// The ordinal a copper slab name stands for; `None` for a name that is no copper slab.
pub fn slab_layer(stackup: &Stackup, name: &str) -> (r: Option<Layer>)
    ensures
        ({
            let cu = stackup::copper_of(stackup@);
            let i = stackup::slab_index(cu, name@);
            r == (if i < cu.len() {
                Some(ordinal(i, cu.len() as int))
            } else {
                None
            })
        }),
{
    let cu = stackup.copper_slabs();
    let layers = copper_layers_z(stackup);
    let i = index_of_name(&cu, name);
    assert(stackup::slab_refs(cu@).len() == cu.len());
    if i < cu.len() {
        assert(layers@[i as int].0 == ordinal(i as int, layers.len() as int));
        Some(layers[i].0)
    } else {
        None
    }
}

} // verus!
