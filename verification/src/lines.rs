use vstd::prelude::*;
use crate::math::{
    interp_spec, interpolate, lemma_div_le, lemma_isqrt_exists, COORD_LIMIT, T_SCALE,
};
use crate::points::{pt_bounded, Point};
use crate::ruler::CheapRuler;

verus! {

/// Every pair of consecutive vertices satisfies the span bound of the
/// ruler, so each segment's scaled length can be computed exactly.
pub open spec fn segs_fit(r: CheapRuler, line: Seq<Point>) -> bool {
    forall|i: int| 0 <= i < line.len() - 1 ==> r.fits(#[trigger] line[i], line[i + 1])
}

/// All coordinates of the line stay within the interpolation limit.
pub open spec fn coords_ok(line: Seq<Point>) -> bool {
    forall|i: int| 0 <= i < line.len() ==> pt_bounded(#[trigger] line[i], COORD_LIMIT as int)
}

/// Total scaled length of the first `n` segments of the line.
pub open spec fn line_dist_to(r: CheapRuler, line: Seq<Point>, n: int) -> int
    decreases n,
{
    if n <= 0 {
        0
    } else {
        line_dist_to(r, line, n - 1) + r.dist_spec(line[n - 1], line[n])
    }
}

/// Total scaled length of the line.
pub open spec fn line_dist_spec(r: CheapRuler, line: Seq<Point>) -> int {
    line_dist_to(r, line, line.len() - 1)
}

/// A scaled distance is never negative.
pub proof fn lemma_dist_nonneg(r: CheapRuler, a: Point, b: Point)
    ensures
        0 <= r.dist_spec(a, b),
{
    assert(0 <= r.sq_dist(a, b)) by (nonlinear_arith);
    lemma_isqrt_exists(r.sq_dist(a, b));
}

/// Prefix lengths grow with the prefix.
pub proof fn lemma_line_dist_to_mono(r: CheapRuler, line: Seq<Point>, m: int, n: int)
    requires
        0 <= m <= n,
    ensures
        line_dist_to(r, line, m) <= line_dist_to(r, line, n),
    decreases n - m,
{
    if m < n {
        lemma_line_dist_to_mono(r, line, m, n - 1);
        lemma_dist_nonneg(r, line[n - 1], line[n]);
    }
}

/// The length of a two-point line is the distance of its endpoints.
pub proof fn lemma_line_distance_two_points(r: CheapRuler, a: Point, b: Point)
    ensures
        line_dist_spec(r, seq![a, b]) == r.dist_spec(a, b),
{
    let s = seq![a, b];
    assert(line_dist_to(r, s, 1) == line_dist_to(r, s, 0) + r.dist_spec(s[0], s[1]));
}

/// The point reached after walking `dist` along the line from segment
/// `i`, having already walked `sum`: the interpolated position inside
/// the first segment whose accumulated length passes `dist`, or the
/// last vertex if the line is shorter than `dist`.
pub open spec fn along_rec(r: CheapRuler, line: Seq<Point>, dist: int, i: int, sum: int) -> Point
    decreases line.len() - i,
{
    if i >= line.len() - 1 {
        line[line.len() - 1]
    } else {
        let d = r.dist_spec(line[i], line[i + 1]);
        if sum + d > dist {
            interp_spec(line[i], line[i + 1], ((dist - sum) * T_SCALE) / d)
        } else {
            along_rec(r, line, dist, i + 1, sum + d)
        }
    }
}

/// The point at distance `dist` along the line (the first vertex for
/// `dist <= 0`, the last vertex past the line's total length).
pub open spec fn along_spec(r: CheapRuler, line: Seq<Point>, dist: int) -> Point {
    if dist <= 0 {
        line[0]
    } else {
        along_rec(r, line, dist, 0, 0)
    }
}

/// The slice of the line between the walked distances `start` and
/// `stop`, from segment `i` with `sum` already walked; `begun` records
/// whether the slice's first point was already emitted.
pub open spec fn slice_along_rec(
    r: CheapRuler,
    line: Seq<Point>,
    start: int,
    stop: int,
    i: int,
    sum: int,
    begun: bool,
) -> Seq<Point>
    decreases line.len() - i,
{
    if i >= line.len() - 1 {
        Seq::empty()
    } else {
        let a = line[i];
        let b = line[i + 1];
        let d = r.dist_spec(a, b);
        let sum2 = sum + d;
        let head: Seq<Point> = if !begun && sum2 > start {
            seq![interp_spec(a, b, ((start - sum) * T_SCALE) / d)]
        } else {
            Seq::empty()
        };
        if sum2 >= stop {
            head + seq![interp_spec(a, b, ((stop - sum) * T_SCALE) / d)]
        } else if sum2 > start {
            head + seq![b] + slice_along_rec(r, line, start, stop, i + 1, sum2, true)
        } else {
            slice_along_rec(r, line, start, stop, i + 1, sum2, begun)
        }
    }
}

/// The part of the line between distances `start` and `stop` along it.
pub open spec fn slice_along_spec(r: CheapRuler, line: Seq<Point>, start: int, stop: int) -> Seq<
    Point,
> {
    slice_along_rec(r, line, start, stop, 0, 0, false)
}

impl CheapRuler {
    /// Total length of the line: the sum of the scaled distances of its
    /// consecutive vertex pairs.
    #[allow(non_snake_case)]
    pub fn lineDistance(&self, line: &Vec<Point>) -> (total: u128)
        requires
            line@.len() >= 2,
            self.wf(),
            segs_fit(*self, line@),
        ensures
            total as int == line_dist_spec(*self, line@),
    {
        let n = line.len();
        let mut total: u128 = 0;
        let mut i: usize = 0;
        while i < n - 1
            invariant
                0 <= i <= n - 1,
                n == line@.len() >= 2,
                self.wf(),
                segs_fit(*self, line@),
                total as int == line_dist_to(*self, line@, i as int),
                total as int <= (i as int) * 3_000_000_000_000_000,
            decreases n - 1 - i,
        {
            let d = self.distance(line[i], line[i + 1]);
            proof {
                assert((i as int + 1) * 3_000_000_000_000_000 <= 100_000_000_000_000_000_000
                    * 3_000_000_000_000_000) by (nonlinear_arith)
                    requires 0 <= i as int <= 100_000_000_000_000_000_000;
                assert((i as int + 1) * 3_000_000_000_000_000 == (i as int) * 3_000_000_000_000_000
                    + 3_000_000_000_000_000) by (nonlinear_arith);
            }
            total = total + d as u128;
            i = i + 1;
        }
        total
    }

    /// The point at distance `dist` along the line: the first vertex for
    /// `dist <= 0`, the last vertex when `dist` is at least the line's
    /// length, and otherwise the interpolated point inside the first
    /// segment whose accumulated length passes `dist`.
    pub fn along(&self, line: &Vec<Point>, dist: i64) -> (p: Point)
        requires
            line@.len() >= 2,
            self.wf(),
            segs_fit(*self, line@),
            coords_ok(line@),
        ensures
            p == along_spec(*self, line@, dist as int),
            dist <= 0 ==> p == line@[0],
            0 < dist && dist as int >= line_dist_spec(*self, line@) ==> p == line@[line@.len()
                - 1],
    {
        if dist <= 0 {
            return line[0];
        }
        let n = line.len();
        let mut sum: u128 = 0;
        let mut i: usize = 0;
        while i < n - 1
            invariant
                0 <= i <= n - 1,
                n == line@.len() >= 2,
                self.wf(),
                segs_fit(*self, line@),
                coords_ok(line@),
                0 < dist,
                sum as int == line_dist_to(*self, line@, i as int),
                sum as int <= dist as int,
                along_rec(*self, line@, dist as int, 0, 0) == along_rec(
                    *self,
                    line@,
                    dist as int,
                    i as int,
                    sum as int,
                ),
            decreases n - 1 - i,
        {
            let a = line[i];
            let b = line[i + 1];
            let d = self.distance(a, b);
            if sum + d as u128 > dist as u128 {
                let tnum: u128 = dist as u128 - sum;
                proof {
                    lemma_div_le(tnum as int * 1_000_000, d as int, 1_000_000);
                }
                let t = ((tnum * 1_000_000) / d as u128) as u64;
                let p = interpolate(a, b, t);
                proof {
                    if dist as int >= line_dist_spec(*self, line@) {
                        lemma_line_dist_to_mono(*self, line@, i as int + 1, line@.len() - 1);
                    }
                }
                return p;
            }
            sum = sum + d as u128;
            i = i + 1;
        }
        line[n - 1]
    }

    /// The part of the line between the distances `start` and `stop`
    /// along it: interpolated endpoints, full vertices in between, and
    /// the empty sequence when `stop` is passed before `start`.
    #[allow(non_snake_case)]
    pub fn lineSliceAlong(&self, start: i64, stop: i64, line: &Vec<Point>) -> (res: Vec<Point>)
        requires
            line@.len() >= 2,
            self.wf(),
            segs_fit(*self, line@),
            coords_ok(line@),
            0 <= start,
            0 <= stop,
            stop == 0 ==> self.dist_spec(line@[0], line@[1]) != 0,
        ensures
            res@ == slice_along_spec(*self, line@, start as int, stop as int),
    {
        let n = line.len();
        let mut slice: Vec<Point> = Vec::new();
        let mut sum: u128 = 0;
        let mut i: usize = 0;
        while i < n - 1
            invariant
                0 <= i <= n - 1,
                n == line@.len() >= 2,
                self.wf(),
                segs_fit(*self, line@),
                coords_ok(line@),
                0 <= start,
                0 <= stop,
                stop == 0 ==> self.dist_spec(line@[0], line@[1]) != 0,
                sum as int == line_dist_to(*self, line@, i as int),
                slice@.len() == 0 ==> sum as int <= start as int,
                sum as int <= stop as int,
                i > 0 ==> (sum as int) < (stop as int),
                slice_along_spec(*self, line@, start as int, stop as int) == slice@
                    + slice_along_rec(
                    *self,
                    line@,
                    start as int,
                    stop as int,
                    i as int,
                    sum as int,
                    slice@.len() > 0,
                ),
            decreases n - 1 - i,
        {
            let ghost prev_slice = slice@;
            let ghost prev_sum = sum as int;
            let ghost begun = slice@.len() > 0;
            let a = line[i];
            let b = line[i + 1];
            let d = self.distance(a, b);
            let sum2: u128 = sum + d as u128;

            if slice.len() == 0 && sum2 > start as u128 {
                let tnum: u128 = start as u128 - sum;
                proof {
                    lemma_div_le(tnum as int * 1_000_000, d as int, 1_000_000);
                }
                let t = ((tnum * 1_000_000) / d as u128) as u64;
                let p = interpolate(a, b, t);
                slice.push(p);
            }

            if sum2 >= stop as u128 {
                proof {
                    if d == 0 {
                        assert(sum as int == stop as int);
                        assert(i == 0);
                    }
                }
                let tnum2: u128 = stop as u128 - sum;
                proof {
                    lemma_div_le(tnum2 as int * 1_000_000, d as int, 1_000_000);
                }
                let t2 = ((tnum2 * 1_000_000) / d as u128) as u64;
                let p2 = interpolate(a, b, t2);
                slice.push(p2);
                proof {
                    assert(slice_along_spec(*self, line@, start as int, stop as int) =~= slice@);
                }
                return slice;
            }

            if sum2 > start as u128 {
                slice.push(b);
            }

            proof {
                assert(slice_along_spec(*self, line@, start as int, stop as int) =~= slice@
                    + slice_along_rec(
                    *self,
                    line@,
                    start as int,
                    stop as int,
                    i as int + 1,
                    sum2 as int,
                    slice@.len() > 0,
                ));
            }
            sum = sum2;
            i = i + 1;
        }
        proof {
            assert(slice_along_spec(*self, line@, start as int, stop as int) =~= slice@);
        }
        slice
    }
}

} // verus!
