use vstd::prelude::*;
use crate::math::{div_trunc_i128, lemma_tdiv_bounds, tdiv, COORD_LIMIT};
use crate::points::{pt_bounded, BBox, Point};
use crate::ruler::CheapRuler;

verus! {

/// `p` lies inside `b`, borders included.
pub open spec fn inside_bbox_spec(p: Point, b: BBox) -> bool {
    b.west <= p.x <= b.east && b.south <= p.y <= b.north
}

/// Inclusive point-in-bounding-box test; independent of any ruler.
#[allow(non_snake_case)]
pub fn insideBBox(p: Point, bbox: BBox) -> (r: bool)
    ensures
        r == inside_bbox_spec(p, bbox),
{
    p.x >= bbox.west && p.x <= bbox.east && p.y >= bbox.south && p.y <= bbox.north
}

/// Both corners of a well-formed bounding box lie inside it.
pub proof fn lemma_bbox_corners_inside(b: BBox)
    requires
        b.west <= b.east,
        b.south <= b.north,
    ensures
        inside_bbox_spec(Point { x: b.west, y: b.south }, b),
        inside_bbox_spec(Point { x: b.east, y: b.north }, b),
{
}

impl CheapRuler {
    /// The box around `p` whose edges lie `buffer` ruler units away.
    pub open spec fn buffer_point_spec(self, p: Point, buffer: int) -> BBox {
        let h = tdiv(buffer, self.kx as int);
        let v = tdiv(buffer, self.ky as int);
        BBox {
            west: (p.x - h) as i64,
            south: (p.y - v) as i64,
            east: (p.x + h) as i64,
            north: (p.y + v) as i64,
        }
    }

    /// A bounding box made from `p` buffered by the given distance (in
    /// ruler units at scale `1_000_000 * 1_000_000`); a zero buffer
    /// gives the degenerate box of `p` itself.
    #[allow(non_snake_case)]
    pub fn bufferPoint(&self, p: Point, buffer: i64) -> (r: BBox)
        requires
            self.wf(),
            pt_bounded(p, COORD_LIMIT as int),
            -COORD_LIMIT <= buffer <= COORD_LIMIT,
        ensures
            r == self.buffer_point_spec(p, buffer as int),
            buffer == 0 ==> r == (BBox { west: p.x, south: p.y, east: p.x, north: p.y }),
    {
        proof {
            lemma_tdiv_bounds(buffer as int, self.kx as int);
            lemma_tdiv_bounds(buffer as int, self.ky as int);
        }
        let h = div_trunc_i128(buffer as i128, self.kx as i128) as i64;
        let v = div_trunc_i128(buffer as i128, self.ky as i128) as i64;
        BBox { west: p.x - h, south: p.y - v, east: p.x + h, north: p.y + v }
    }

    /// The box `b` with every edge pushed outward by `buffer` units.
    pub open spec fn buffer_bbox_spec(self, b: BBox, buffer: int) -> BBox {
        let h = tdiv(buffer, self.kx as int);
        let v = tdiv(buffer, self.ky as int);
        BBox {
            west: (b.west - h) as i64,
            south: (b.south - v) as i64,
            east: (b.east + h) as i64,
            north: (b.north + v) as i64,
        }
    }

    /// A bounding box buffered outward by the given distance (in ruler
    /// units at scale `1_000_000 * 1_000_000`).
    #[allow(non_snake_case)]
    pub fn bufferBBox(&self, bbox: BBox, buffer: i64) -> (r: BBox)
        requires
            self.wf(),
            -COORD_LIMIT <= bbox.west <= COORD_LIMIT,
            -COORD_LIMIT <= bbox.south <= COORD_LIMIT,
            -COORD_LIMIT <= bbox.east <= COORD_LIMIT,
            -COORD_LIMIT <= bbox.north <= COORD_LIMIT,
            -COORD_LIMIT <= buffer <= COORD_LIMIT,
        ensures
            r == self.buffer_bbox_spec(bbox, buffer as int),
    {
        proof {
            lemma_tdiv_bounds(buffer as int, self.kx as int);
            lemma_tdiv_bounds(buffer as int, self.ky as int);
        }
        let h = div_trunc_i128(buffer as i128, self.kx as i128) as i64;
        let v = div_trunc_i128(buffer as i128, self.ky as i128) as i64;
        BBox {
            west: bbox.west - h,
            south: bbox.south - v,
            east: bbox.east + h,
            north: bbox.north + v,
        }
    }
}

} // verus!
