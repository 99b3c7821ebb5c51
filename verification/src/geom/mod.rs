//! Purposed regions: shapes, the exact clearance kernel, the z-stackup and features.

pub mod clearance;
pub mod closest;
pub mod entry;
pub mod feature;
pub mod flatness;
pub mod gap;
pub mod halfplane;
pub mod halving;
pub mod hull;
pub mod inside;
pub mod interior;
pub mod limits;
pub mod nearness;
pub mod path;
pub mod polygon;
pub mod seg;
pub mod separation;
pub mod shape;
pub mod stackup;

pub use clearance::{clearance_violated, closer_than, regions_touch, skeletons_overlap};
pub use closest::closest_on_segment;
pub use feature::{Extent, Feature, NetFeature};
pub use hull::convex_hull;
pub use interior::{insides_overlap, intrudes_on};
pub use limits::{
    coord_kernel_safe, coord_ok, point_kernel_safe, point_ok, BOARD_THICKNESS, COPPER_THICKNESS,
    DEFAULT_CHORD_TOL, KERNEL_SAFE_COORD, MASK_EXPANSION, MASK_THICKNESS, MAX_COORD,
    SILK_THICKNESS,
};
pub use path::{circumcenter, Path, Seg};
pub use polygon::{point_in_polygon, signed_area2, Region};
pub use seg::{orient, pt_seg_d2};
pub use shape::Shape2D;
pub use stackup::{KeepoutKind, Material, Role, Slab, Stackup, ZRange};
