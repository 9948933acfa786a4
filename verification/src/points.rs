use vstd::prelude::*;

verus! {

/// A position, as `(longitude, latitude)` in microdegrees
/// (one microdegree is 1/1_000_000 of a degree).
#[derive(Clone, Copy, PartialEq, Eq, Structural, Debug)]
pub struct Point {
    pub x: i64,
    pub y: i64,
}

/// An axis-aligned bounding box `[west, south, east, north]`,
/// in microdegrees.
#[derive(Clone, Copy, PartialEq, Eq, Structural, Debug)]
pub struct BBox {
    pub west: i64,
    pub south: i64,
    pub east: i64,
    pub north: i64,
}

/// The nearest point of a line to a query point: the point itself, the
/// index of the segment it lies on, and the fractional position along
/// that segment, scaled so that `t == T_SCALE` means the segment's end.
#[derive(Clone, Copy, PartialEq, Eq, Structural, Debug)]
pub struct PointOnLine {
    pub point: Point,
    pub index: usize,
    pub t: u64,
}

/// Both coordinates of `p` are at most `m` in magnitude.
pub open spec fn pt_bounded(p: Point, m: int) -> bool {
    -m <= p.x <= m && -m <= p.y <= m
}

} // verus!
