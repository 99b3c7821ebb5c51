//! Coordinate ceilings: the ingest range, the range in which the integer kernel is
//! exact, and the process constants every part of the crate shares.

use crate::coord::{Nm, Point};
use vstd::prelude::*;

verus! {

/// Default board thickness: 1.6 mm.
pub const BOARD_THICKNESS: Nm = 1_600_000;

/// Default finished copper thickness: 35 µm (about 1 oz).
pub const COPPER_THICKNESS: Nm = 35_000;

/// Default solder-mask thickness: 25 µm.
pub const MASK_THICKNESS: Nm = 25_000;

/// Default silkscreen thickness: 10 µm.
pub const SILK_THICKNESS: Nm = 10_000;

/// How much larger a mask opening is than its pad copper, per side.
pub const MASK_EXPANSION: Nm = 50_000;

/// Default chord tolerance for curve tessellation: the largest sagitta, 1 µm.
pub const DEFAULT_CHORD_TOL: Nm = 1_000;

/// The largest coordinate magnitude accepted from outside: 1 m.
pub const MAX_COORD: Nm = 1_000_000_000;

/// The largest coordinate magnitude for which the widest kernel product, `64·C⁴`, still
/// fits in `i128`. It lies above [`MAX_COORD`] so that composed coordinates (a placement
/// plus a local extent plus a clearance) stay exact.
pub const KERNEL_SAFE_COORD: Nm = 1_276_000_000;

/// Strictly below this magnitude two coordinates differ by an `i64`, and a product of
/// two such differences fits in `i128`.
pub const EXACT_COORD: Nm = 4_611_686_018_427_387_904;

/// The largest coordinate magnitude of an arc's points: the products of a circumcentre,
/// `12·C³`, fit in `i128`.
pub const ARC_COORD: Nm = 1_000_000_000_000;

/// Within the ingest range.
pub open spec fn in_ingest(n: int) -> bool {
    -MAX_COORD <= n <= MAX_COORD
}

/// Within the kernel-safe range.
pub open spec fn in_kernel(n: int) -> bool {
    -KERNEL_SAFE_COORD <= n <= KERNEL_SAFE_COORD
}

/// Both components within the ingest range.
pub open spec fn pt_in_ingest(p: Point) -> bool {
    in_ingest(p.x as int) && in_ingest(p.y as int)
}

/// Both components within the kernel-safe range.
pub open spec fn pt_safe(p: Point) -> bool {
    in_kernel(p.x as int) && in_kernel(p.y as int)
}

/// Both components within the range of arcs.
pub open spec fn pt_round(p: Point) -> bool {
    -ARC_COORD <= p.x <= ARC_COORD && -ARC_COORD <= p.y <= ARC_COORD
}

/// Both components small enough for exact orientation tests.
pub open spec fn pt_exact(p: Point) -> bool {
    -EXACT_COORD < p.x < EXACT_COORD && -EXACT_COORD < p.y < EXACT_COORD
}

/// Every point kernel-safe.
pub open spec fn all_safe(s: Seq<Point>) -> bool {
    forall|i: int| 0 <= i < s.len() ==> pt_safe(#[trigger] s[i])
}

/// Every point small enough for exact orientation tests.
pub open spec fn all_exact(s: Seq<Point>) -> bool {
    forall|i: int| 0 <= i < s.len() ==> pt_exact(#[trigger] s[i])
}

/// Is a single coordinate within the ingest range?
pub fn coord_ok(n: Nm) -> (r: bool)
    ensures
        r == in_ingest(n as int),
{
    -MAX_COORD <= n && n <= MAX_COORD
}

/// Are both components of a point within the ingest range?
pub fn point_ok(p: Point) -> (r: bool)
    ensures
        r == pt_in_ingest(p),
{
    coord_ok(p.x) && coord_ok(p.y)
}

/// Is a single coordinate within the kernel-safe range?
pub fn coord_kernel_safe(n: Nm) -> (r: bool)
    ensures
        r == in_kernel(n as int),
{
    -KERNEL_SAFE_COORD <= n && n <= KERNEL_SAFE_COORD
}

/// Are both components of a point within the kernel-safe range?
pub fn point_kernel_safe(p: Point) -> (r: bool)
    ensures
        r == pt_safe(p),
{
    coord_kernel_safe(p.x) && coord_kernel_safe(p.y)
}

/// Are both components of a point within the range of arcs?
pub fn point_round(p: Point) -> (r: bool)
    ensures
        r == pt_round(p),
{
    -ARC_COORD <= p.x && p.x <= ARC_COORD && -ARC_COORD <= p.y && p.y <= ARC_COORD
}

/// The ingest range lies strictly inside the kernel-safe range, and the widest kernel
/// product at the kernel ceiling fits in `i128`.
pub proof fn ceilings_are_consistent()
    ensures
        MAX_COORD < KERNEL_SAFE_COORD,
        64 * (KERNEL_SAFE_COORD * KERNEL_SAFE_COORD) * (KERNEL_SAFE_COORD * KERNEL_SAFE_COORD)
            <= i128::MAX,
{
    assert(64 * (1_276_000_000int * 1_276_000_000) * (1_276_000_000int * 1_276_000_000)
        <= 0x7fff_ffff_ffff_ffff_ffff_ffff_ffff_ffff) by (nonlinear_arith);
}

} // verus!
