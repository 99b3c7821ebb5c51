//! Features: a role and a material over a prism of space, and the net one carries.

use super::clearance;
use super::clearance::clearance_violated;
use super::interior;
use super::interior::intrudes_on;
use super::limits;
use super::path::MAX_TOL;
use super::shape;
use super::shape::{Shape2D, ShapeV};
use super::stackup;
use super::stackup::{clone_material, Material, Role, ZRange};
use crate::coord::Nm;
use crate::id::NetId;
use crate::names::Duplicate;
use vstd::prelude::*;

verus! {

/// Where a feature is in space: a 2D shape over a z-range.
#[derive(Debug, PartialEq, Eq)]
pub enum Extent {
    Prism { shape: Shape2D, z: ZRange },
}

/// A purposed region of space.
#[derive(Debug, PartialEq, Eq)]
pub struct Feature {
    pub role: Role,
    pub material: Option<Material>,
    pub extent: Extent,
}

/// A feature as a value.
#[verifier::ext_equal]
pub struct FeatureV {
    pub role: Role,
    pub material: Option<Seq<char>>,
    pub shape: ShapeV,
    pub z: ZRange,
}

impl View for Feature {
    type V = FeatureV;

    open spec fn view(&self) -> FeatureV {
        match &self.extent {
            Extent::Prism { shape, z } => FeatureV {
                role: self.role,
                material: stackup::opt_material(self.material),
                shape: shape@,
                z: *z,
            },
        }
    }
}

/// The values of a list of features.
pub open spec fn feature_views(v: Seq<Feature>) -> Seq<FeatureV> {
    Seq::new(v.len(), |i: int| v[i]@)
}

/// A prism with no material.
pub open spec fn prism_of(role: Role, shape: ShapeV, z: ZRange) -> FeatureV {
    FeatureV { role, material: None, shape, z }
}

/// Can two features be measured against each other at this rule?
pub open spec fn comparable(a: FeatureV, b: FeatureV, min_clr: int) -> bool {
    &&& shape::measurable(a.shape)
    &&& shape::measurable(b.shape)
    &&& limits::in_kernel(min_clr)
    &&& min_clr + shape::radius_of(a.shape) + shape::radius_of(b.shape) <= MAX_TOL
}

/// Do two features keep `min_clr` from each other: either they share no height, or their
/// shapes are far enough apart?
pub open spec fn clear_of(a: FeatureV, b: FeatureV, min_clr: int) -> bool {
    !(a.z.meets(b.z) && clearance::violates(a.shape, b.shape, min_clr))
}

/// Does a feature keep out of a region by `clr`: either they share no height, or the gap
/// between their shapes is at least `clr`? At zero it may touch the region, and not overlap
/// it.
pub open spec fn outside_of(a: FeatureV, region: FeatureV, clr: int) -> bool {
    !(a.z.meets(region.z) && interior::intrudes(a.shape, region.shape, clr))
}

/// What clears a region keeps out of it.
pub proof fn clear_is_outside(a: FeatureV, region: FeatureV, clr: int)
    requires
        clear_of(a, region, clr),
    ensures
        outside_of(a, region, clr),
{
}

/// Clearance between features does not depend on which is named first.
pub proof fn clear_of_symmetric(a: FeatureV, b: FeatureV, min_clr: int)
    ensures
        clear_of(a, b, min_clr) == clear_of(b, a, min_clr),
{
    clearance::violates_symmetric(a.shape, b.shape, min_clr);
}

/// Features that share no height keep every clearance.
pub proof fn apart_in_height_is_clear(a: FeatureV, b: FeatureV, min_clr: int)
    requires
        !a.z.meets(b.z),
    ensures
        clear_of(a, b, min_clr),
{
}

/// What keeps a large clearance keeps every smaller one.
pub proof fn clear_of_monotone(a: FeatureV, b: FeatureV, small: int, large: int)
    requires
        small <= large,
        clear_of(a, b, large),
    ensures
        clear_of(a, b, small),
{
    if clearance::violates(a.shape, b.shape, small) {
        clearance::violates_monotone(a.shape, b.shape, small, large);
    }
}

impl Clone for Feature {
    fn clone(&self) -> (r: Feature)
        ensures
            r@ == self@,
    {
        match &self.extent {
            Extent::Prism { shape, z } => Feature {
                role: self.role,
                material: clone_material(&self.material),
                extent: Extent::Prism { shape: shape.clone(), z: *z },
            },
        }
    }
}

impl Feature {
    /// A prism of `shape` over `z`, with no material.
    pub fn prism(role: Role, shape: Shape2D, z: ZRange) -> (r: Feature)
        ensures
            r@ == prism_of(role, shape@, z),
    {
        Feature { role, material: None, extent: Extent::Prism { shape, z } }
    }

    /// This feature, made of `m`.
    pub fn with_material(self, m: Material) -> (r: Feature)
        ensures
            r@ == (FeatureV { material: Some(m@), ..self@ }),
    {
        Feature { role: self.role, material: Some(m), extent: self.extent }
    }

    /// The shape and the z-range.
    pub fn prism_parts(&self) -> (r: (&Shape2D, &ZRange))
        ensures
            r.0@ == self@.shape,
            *r.1 == self@.z,
    {
        match &self.extent {
            Extent::Prism { shape, z } => (shape, z),
        }
    }

    /// Does this feature keep `min_clr` from `other`? Features that share no height
    /// always do.
    pub fn clears(&self, other: &Feature, min_clr: Nm) -> (r: bool)
        requires
            self@.z.meets(other@.z) ==> comparable(self@, other@, min_clr as int),
        ensures
            r == clear_of(self@, other@, min_clr as int),
    {
        let (sa, za) = self.prism_parts();
        let (sb, zb) = other.prism_parts();
        !(za.overlaps(zb) && clearance_violated(sa, sb, min_clr))
    }

    /// Does this feature keep out of `region` by `clr`? Unlike a clearance between two
    /// conductors, at zero it may touch the region.
    pub fn keeps_out_of(&self, region: &Feature, clr: Nm) -> (r: bool)
        requires
            self@.z.meets(region@.z) ==> comparable(self@, region@, clr as int),
        ensures
            r == outside_of(self@, region@, clr as int),
    {
        let (sa, za) = self.prism_parts();
        let (sb, zb) = region.prism_parts();
        !(za.overlaps(zb) && intrudes_on(sa, sb, clr))
    }
}

/// A feature with the net it carries, if any.
#[derive(Debug, PartialEq, Eq)]
pub struct NetFeature {
    pub net: Option<NetId>,
    pub feature: Feature,
}

/// A net feature as a value.
#[verifier::ext_equal]
pub struct NetFeatureV {
    pub net: Option<Seq<char>>,
    pub feature: FeatureV,
}

/// An optional net, by name.
pub open spec fn opt_net(o: Option<NetId>) -> Option<Seq<char>> {
    match o {
        Some(n) => Some(n@),
        None => None,
    }
}

impl View for NetFeature {
    type V = NetFeatureV;

    open spec fn view(&self) -> NetFeatureV {
        NetFeatureV { net: opt_net(self.net), feature: self.feature@ }
    }
}

/// The values of a list of net features.
pub open spec fn net_feature_views(v: Seq<NetFeature>) -> Seq<NetFeatureV> {
    Seq::new(v.len(), |i: int| v[i]@)
}

/// A feature on a net.
pub open spec fn on_net(net: Seq<char>, f: FeatureV) -> NetFeatureV {
    NetFeatureV { net: Some(net), feature: f }
}

/// A feature on no net.
pub open spec fn on_no_net(f: FeatureV) -> NetFeatureV {
    NetFeatureV { net: None, feature: f }
}

impl Clone for NetFeature {
    fn clone(&self) -> (r: NetFeature)
        ensures
            r@ == self@,
    {
        NetFeature {
            net: match &self.net {
                Some(n) => Some(n.duplicate()),
                None => None,
            },
            feature: self.feature.clone(),
        }
    }
}

impl NetFeature {
    /// A feature with the net it carries.
    pub fn new(net: Option<NetId>, feature: Feature) -> (r: NetFeature)
        ensures
            r@ == (NetFeatureV { net: opt_net(net), feature: feature@ }),
    {
        NetFeature { net, feature }
    }

    /// A feature with no electrical identity.
    pub fn netless(feature: Feature) -> (r: NetFeature)
        ensures
            r@ == on_no_net(feature@),
    {
        NetFeature { net: None, feature }
    }

    /// Do two features belong to the same net? One without a net belongs to none, so it
    /// shares a net with nothing.
    pub fn same_net(&self, other: &NetFeature) -> (r: bool)
        ensures
            r == (self@.net is Some && self@.net == other@.net),
    {
        match (&self.net, &other.net) {
            (Some(a), Some(b)) => a.same(b),
            _ => false,
        }
    }
}

} // verus!
