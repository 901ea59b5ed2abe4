//! Integer 2D geometry: points, axis-aligned boxes and the projection of a
//! local box into world space.
//!
//! Coordinates are fixed-point integers in a unit of the caller's choosing.
use vstd::prelude::*;

verus! {

/// One of the two coordinate axes.
#[derive(Clone, Copy, Debug, PartialEq, Eq, Structural)]
pub enum Axis {
    X,
    Y,
}

/// A 2D point or vector.
#[derive(Clone, Copy, Debug, PartialEq, Eq, Structural)]
pub struct Vec2 {
    pub x: i32,
    pub y: i32,
}

/// The component of `v` along `axis`.
pub open spec fn coord(v: Vec2, axis: Axis) -> int {
    match axis {
        Axis::X => v.x as int,
        Axis::Y => v.y as int,
    }
}

impl Vec2 {
    pub fn new(x: i32, y: i32) -> (r: Vec2)
        ensures
            r.x == x,
            r.y == y,
    {
        Vec2 { x, y }
    }

    /// The component along `axis`.
    pub fn get(&self, axis: Axis) -> (r: i32)
        ensures
            r as int == coord(*self, axis),
    {
        match axis {
            Axis::X => self.x,
            Axis::Y => self.y,
        }
    }
}

/// An axis-aligned box, well formed when `min` is at most `max` on both
/// axes. A malformed box is not rejected; it goes through the same overlap
/// test as any other, and in particular never overlaps itself.
#[derive(Clone, Copy, Debug, PartialEq, Eq, Structural)]
pub struct AABB {
    pub min: Vec2,
    pub max: Vec2,
}

/// Two boxes overlap when their closed intervals meet on both axes.
pub open spec fn overlaps(a: AABB, b: AABB) -> bool {
    &&& a.max.x >= b.min.x
    &&& b.max.x >= a.min.x
    &&& a.max.y >= b.min.y
    &&& b.max.y >= a.min.y
}

/// Half of `v`, rounded toward zero.
pub open spec fn half_toward_zero(v: i32) -> int {
    if v >= 0 {
        v as int / 2
    } else {
        -((-(v as int)) / 2)
    }
}

impl AABB {
    pub fn new(min: Vec2, max: Vec2) -> (r: AABB)
        ensures
            r.min == min,
            r.max == max,
    {
        AABB { min, max }
    }

    /// A box of the given size centred on the origin. Each half-extent is
    /// half the size, rounded toward zero.
    pub fn around_origin(size: Vec2) -> (r: AABB)
        ensures
            r.max.x as int == half_toward_zero(size.x),
            r.max.y as int == half_toward_zero(size.y),
            r.min.x == -r.max.x,
            r.min.y == -r.max.y,
    {
        let ex = size.x / 2;
        let ey = size.y / 2;
        AABB { min: Vec2 { x: -ex, y: -ey }, max: Vec2 { x: ex, y: ey } }
    }
}

/// Whether two boxes overlap (touching edges count).
pub fn test_aabb_aabb(a: &AABB, b: &AABB) -> (r: bool)
    ensures
        r == overlaps(*a, *b),
{
    let axes = [Axis::X, Axis::Y];
    let mut i: usize = 0;
    while i < 2
        invariant
            0 <= i <= 2,
            axes@ == seq![Axis::X, Axis::Y],
            i >= 1 ==> a.max.x >= b.min.x && b.max.x >= a.min.x,
            i >= 2 ==> a.max.y >= b.min.y && b.max.y >= a.min.y,
        decreases 2 - i,
    {
        let axis = axes[i];
        if a.max.get(axis) < b.min.get(axis) || b.max.get(axis) < a.min.get(axis) {
            return false;
        }
        i += 1;
    }
    true
}

/// The part of a world transform that bounding boxes follow: translation
/// and a per-axis scale factor. Rotation is deliberately left out.
#[derive(Clone, Copy, Debug, PartialEq, Eq, Structural)]
pub struct Transform {
    pub pos: Vec2,
    pub scale: Vec2,
}

/// One projected coordinate: `c * s + t`.
pub open spec fn project_coord(c: i32, s: i32, t: i32) -> int {
    c as int * s as int + t as int
}

/// `v` is representable as an `i32`.
pub open spec fn fits_i32(v: int) -> bool {
    i32::MIN <= v <= i32::MAX
}

/// The world box of `local` under `tr`. Its centre is the local centre
/// times the scale plus the translation, and its half-extents are the local
/// half-extents times the scale; so each corner is the local corner times the
/// scale plus the translation.
pub open spec fn projection_fits(local: AABB, tr: Transform) -> bool {
    &&& fits_i32(project_coord(local.min.x, tr.scale.x, tr.pos.x))
    &&& fits_i32(project_coord(local.min.y, tr.scale.y, tr.pos.y))
    &&& fits_i32(project_coord(local.max.x, tr.scale.x, tr.pos.x))
    &&& fits_i32(project_coord(local.max.y, tr.scale.y, tr.pos.y))
}

pub open spec fn projected(local: AABB, tr: Transform) -> AABB {
    AABB {
        min: Vec2 {
            x: project_coord(local.min.x, tr.scale.x, tr.pos.x) as i32,
            y: project_coord(local.min.y, tr.scale.y, tr.pos.y) as i32,
        },
        max: Vec2 {
            x: project_coord(local.max.x, tr.scale.x, tr.pos.x) as i32,
            y: project_coord(local.max.y, tr.scale.y, tr.pos.y) as i32,
        },
    }
}

/// `c * s + t`, computed without overflow.
fn scale_and_shift(c: i32, s: i32, t: i32) -> (r: i64)
    ensures
        r as int == project_coord(c, s, t),
{
    let c64 = c as i64;
    let s64 = s as i64;
    proof {
        assert(-0x8000_0000 <= c64 <= 0x7fff_ffff);
        assert(-0x8000_0000 <= s64 <= 0x7fff_ffff);
        assert(-0x4000_0000_0000_0000 <= c64 * s64 <= 0x4000_0000_0000_0000) by (nonlinear_arith)
            requires
                -0x8000_0000 <= c64 <= 0x7fff_ffff,
                -0x8000_0000 <= s64 <= 0x7fff_ffff,
        ;
    }
    c64 * s64 + t as i64
}

fn narrow(v: i64) -> (r: Option<i32>)
    ensures
        r is Some <==> fits_i32(v as int),
        r is Some ==> r->0 as int == v as int,
{
    if v < i32::MIN as i64 || v > i32::MAX as i64 {
        None
    } else {
        Some(v as i32)
    }
}

/// Projects a local box into world space. Returns `None` exactly when a
/// projected corner does not fit the coordinate type.
pub fn world_aabb(local: &AABB, tr: &Transform) -> (r: Option<AABB>)
    ensures
        r is Some <==> projection_fits(*local, *tr),
        r is Some ==> r->0 == projected(*local, *tr),
{
    let min_x = narrow(scale_and_shift(local.min.x, tr.scale.x, tr.pos.x));
    let min_y = narrow(scale_and_shift(local.min.y, tr.scale.y, tr.pos.y));
    let max_x = narrow(scale_and_shift(local.max.x, tr.scale.x, tr.pos.x));
    let max_y = narrow(scale_and_shift(local.max.y, tr.scale.y, tr.pos.y));
    match (min_x, min_y, max_x, max_y) {
        (Some(x0), Some(y0), Some(x1), Some(y1)) => Some(
            AABB { min: Vec2 { x: x0, y: y0 }, max: Vec2 { x: x1, y: y1 } },
        ),
        _ => None,
    }
}

} // verus!
