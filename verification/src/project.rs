use vstd::prelude::*;
use crate::math::{
    interp_spec, interpolate, lemma_div_le, lemma_scale_frac_bounds, COORD_LIMIT, T_SCALE,
};
use vstd::arithmetic::div_mod::lemma_div_multiples_vanish;
use crate::points::{pt_bounded, Point, PointOnLine};
use crate::ruler::CheapRuler;

verus! {

/// The fractional position (scale `T_SCALE`) of the projection of `p`
/// onto the segment `a`-`b`, clamped into `[0, T_SCALE]`; zero for a
/// degenerate segment.
pub open spec fn seg_t(r: CheapRuler, a: Point, b: Point, p: Point) -> int {
    let dx = (b.x - a.x) * r.kx;
    let dy = (b.y - a.y) * r.ky;
    let q = dx * dx + dy * dy;
    let dot = ((p.x - a.x) * r.kx) * dx + ((p.y - a.y) * r.ky) * dy;
    if q == 0 {
        0
    } else if dot > q {
        T_SCALE as int
    } else if dot > 0 {
        (dot * T_SCALE) / q
    } else {
        0
    }
}

/// The candidate nearest point of the segment `a`-`b` to `p`: the start
/// for a projection at or before the start, the end vertex past the
/// end, and the interpolated projection in between.
pub open spec fn seg_cand(r: CheapRuler, a: Point, b: Point, p: Point) -> Point {
    let dx = (b.x - a.x) * r.kx;
    let dy = (b.y - a.y) * r.ky;
    let q = dx * dx + dy * dy;
    let dot = ((p.x - a.x) * r.kx) * dx + ((p.y - a.y) * r.ky) * dy;
    if q == 0 {
        a
    } else if dot > q {
        b
    } else if dot > 0 {
        interp_spec(a, b, (dot * T_SCALE) / q)
    } else {
        a
    }
}

/// The squared scaled distance from `p` to the segment's candidate.
pub open spec fn seg_d2(r: CheapRuler, a: Point, b: Point, p: Point) -> int {
    r.sq_dist(p, seg_cand(r, a, b, p))
}

/// `seg_d2` of segment `i` of the line.
pub open spec fn seg_d2_at(r: CheapRuler, line: Seq<Point>, p: Point, i: int) -> int {
    seg_d2(r, line[i], line[i + 1], p)
}

/// The index of the segment of `line` (among the first `n`) whose
/// candidate is nearest to `p`; ties keep the earliest index.
pub open spec fn pol_min_idx(r: CheapRuler, line: Seq<Point>, p: Point, n: int) -> int
    decreases n,
{
    if n <= 1 {
        0
    } else {
        let prev = pol_min_idx(r, line, p, n - 1);
        if seg_d2_at(r, line, p, n - 1) < seg_d2_at(r, line, p, prev) {
            n - 1
        } else {
            prev
        }
    }
}

/// The nearest segment index over the whole line.
pub open spec fn pol_idx(r: CheapRuler, line: Seq<Point>, p: Point) -> int {
    pol_min_idx(r, line, p, line.len() - 1)
}

/// The nearest point of the line to `p`.
pub open spec fn pol_point(r: CheapRuler, line: Seq<Point>, p: Point) -> Point {
    seg_cand(r, line[pol_idx(r, line, p)], line[pol_idx(r, line, p) + 1], p)
}

/// The fractional position of the nearest point on its segment.
pub open spec fn pol_t(r: CheapRuler, line: Seq<Point>, p: Point) -> int {
    seg_t(r, line[pol_idx(r, line, p)], line[pol_idx(r, line, p) + 1], p)
}

/// All the bounds `pointOnLine` needs: each segment and each
/// vertex-to-query pair fits the span limit, and all coordinates are
/// small enough to interpolate.
pub open spec fn pol_fits(r: CheapRuler, line: Seq<Point>, p: Point) -> bool {
    &&& crate::lines::segs_fit(r, line)
    &&& forall|i: int| 0 <= i < line.len() ==> r.fits(#[trigger] line[i], p)
    &&& crate::lines::coords_ok(line)
    &&& pt_bounded(p, COORD_LIMIT as int)
}

/// A squared distance is never negative.
pub proof fn lemma_seg_d2_nonneg(r: CheapRuler, a: Point, b: Point, p: Point)
    ensures
        0 <= seg_d2(r, a, b, p),
{
    let c = seg_cand(r, a, b, p);
    assert(0 <= r.sq_dist(p, c)) by (nonlinear_arith);
}

/// The argmin index stays in range.
pub proof fn lemma_pol_min_idx_range(r: CheapRuler, line: Seq<Point>, p: Point, n: int)
    requires
        1 <= n,
    ensures
        0 <= pol_min_idx(r, line, p, n) < n,
    decreases n,
{
    if n > 1 {
        lemma_pol_min_idx_range(r, line, p, n - 1);
    }
}

/// A segment at distance zero, preceded only by segments at positive
/// distance, is the argmin.
pub proof fn lemma_pol_min_idx_hits_zero(
    r: CheapRuler,
    line: Seq<Point>,
    p: Point,
    k: int,
    n: int,
)
    requires
        0 <= k < n,
        seg_d2_at(r, line, p, k) == 0,
        forall|j: int| 0 <= j < k ==> 0 < seg_d2_at(r, line, p, j),
    ensures
        pol_min_idx(r, line, p, n) == k,
    decreases n,
{
    if n == k + 1 {
        if k > 0 {
            lemma_pol_min_idx_range(r, line, p, k);
        }
    } else {
        lemma_pol_min_idx_hits_zero(r, line, p, k, n - 1);
        lemma_seg_d2_nonneg(r, line[n - 1], line[n], p);
    }
}

/// Projecting a segment's start onto the segment gives the start, at
/// fraction zero and distance zero.
pub proof fn lemma_seg_at_start(r: CheapRuler, a: Point, b: Point)
    ensures
        seg_cand(r, a, b, a) == a,
        seg_t(r, a, b, a) == 0,
        seg_d2(r, a, b, a) == 0,
{
    let dx = (b.x - a.x) * r.kx;
    let dy = (b.y - a.y) * r.ky;
    assert(0 <= dx * dx && 0 <= dy * dy) by (nonlinear_arith);
    assert(((a.x - a.x) * r.kx) * dx == 0) by (nonlinear_arith);
    assert(((a.y - a.y) * r.ky) * dy == 0) by (nonlinear_arith);
    assert((a.x - a.x) * r.kx == 0) by (nonlinear_arith);
    assert((a.y - a.y) * r.ky == 0) by (nonlinear_arith);
    assert(r.sq_dist(a, a) == 0);
}

/// Projecting a segment's end onto a non-degenerate segment gives the
/// end, at fraction `T_SCALE` and distance zero.
pub proof fn lemma_seg_at_end(r: CheapRuler, a: Point, b: Point)
    requires
        r.wf(),
        a != b,
    ensures
        seg_cand(r, a, b, b) == b,
        seg_t(r, a, b, b) == T_SCALE,
        seg_d2(r, a, b, b) == 0,
{
    let dx = (b.x - a.x) * r.kx;
    let dy = (b.y - a.y) * r.ky;
    let q = dx * dx + dy * dy;
    assert(0 <= dx * dx && 0 <= dy * dy) by (nonlinear_arith);
    if b.x != a.x {
        assert(0 < dx * dx) by (nonlinear_arith)
            requires dx == (b.x - a.x) * r.kx, b.x != a.x, 0 < r.kx;
    } else {
        assert(0 < dy * dy) by (nonlinear_arith)
            requires dy == (b.y - a.y) * r.ky, b.y != a.y, 0 < r.ky;
    }
    let dot = ((b.x - a.x) * r.kx) * dx + ((b.y - a.y) * r.ky) * dy;
    assert(dot == q);
    assert((dot * T_SCALE) / q == T_SCALE) by {
        lemma_div_multiples_vanish(T_SCALE as int, q);
        assert(dot * T_SCALE == q * (T_SCALE as int)) by (nonlinear_arith)
            requires dot == q;
    }
    lemma_scale_frac_bounds(b.x - a.x, T_SCALE as int);
    lemma_scale_frac_bounds(b.y - a.y, T_SCALE as int);
    assert(seg_cand(r, a, b, b) == b);
    assert(((b.x - b.x) * r.kx) * ((b.x - b.x) * r.kx) == 0) by (nonlinear_arith);
    assert(((b.y - b.y) * r.ky) * ((b.y - b.y) * r.ky) == 0) by (nonlinear_arith);
}

/// The scaled difference from `p` to any point `c` lying between `a`
/// and `b` stays within twice the span limit.
proof fn lemma_scaled_diff_bound(k: int, ax: int, bx: int, px: int, cx: int)
    requires
        0 < k,
        -2_000_000_000_000_000 <= (ax - bx) * k <= 2_000_000_000_000_000,
        -2_000_000_000_000_000 <= (ax - px) * k <= 2_000_000_000_000_000,
        (ax <= cx <= bx) || (bx <= cx <= ax),
    ensures
        -4_000_000_000_000_000 <= (px - cx) * k <= 4_000_000_000_000_000,
{
    assert(-4_000_000_000_000_000 <= (px - cx) * k <= 4_000_000_000_000_000) by (nonlinear_arith)
        requires
            0 < k,
            -2_000_000_000_000_000 <= (ax - bx) * k <= 2_000_000_000_000_000,
            -2_000_000_000_000_000 <= (ax - px) * k <= 2_000_000_000_000_000,
            (ax <= cx <= bx) || (bx <= cx <= ax);
}

impl CheapRuler {
    /// Evaluates one segment for `pointOnLine`: the candidate nearest
    /// point, its fraction, and the squared scaled distance to `p`.
    fn seg_eval(&self, a: Point, b: Point, p: Point) -> (res: (Point, u64, u128))
        requires
            self.wf(),
            self.fits(a, b),
            self.fits(a, p),
            pt_bounded(a, COORD_LIMIT as int),
            pt_bounded(b, COORD_LIMIT as int),
            pt_bounded(p, COORD_LIMIT as int),
        ensures
            res.0 == seg_cand(*self, a, b, p),
            res.1 as int == seg_t(*self, a, b, p),
            res.2 as int == seg_d2(*self, a, b, p),
            res.1 <= T_SCALE,
    {
        let kx = self.kx as i128;
        let ky = self.ky as i128;
        proof {
            assert((b.x - a.x) * self.kx == -((a.x - b.x) * self.kx)) by (nonlinear_arith);
            assert((b.y - a.y) * self.ky == -((a.y - b.y) * self.ky)) by (nonlinear_arith);
            assert((p.x - a.x) * self.kx == -((a.x - p.x) * self.kx)) by (nonlinear_arith);
            assert((p.y - a.y) * self.ky == -((a.y - p.y) * self.ky)) by (nonlinear_arith);
        }
        let dx: i128 = (b.x as i128 - a.x as i128) * kx;
        let dy: i128 = (b.y as i128 - a.y as i128) * ky;
        let cand_t: (Point, u64) = if dx == 0 && dy == 0 {
            proof {
                assert(dx * dx + dy * dy == 0);
            }
            (a, 0u64)
        } else {
            proof {
                assert(dx * dx + dy * dy > 0) by (nonlinear_arith)
                    requires !(dx == 0 && dy == 0);
                assert(0 <= dx * dx <= 4_000_000_000_000_000_000_000_000_000_000)
                    by (nonlinear_arith)
                    requires -2_000_000_000_000_000 <= dx <= 2_000_000_000_000_000;
                assert(0 <= dy * dy <= 4_000_000_000_000_000_000_000_000_000_000)
                    by (nonlinear_arith)
                    requires -2_000_000_000_000_000 <= dy <= 2_000_000_000_000_000;
            }
            let q: i128 = dx * dx + dy * dy;
            let ex: i128 = (p.x as i128 - a.x as i128) * kx;
            let ey: i128 = (p.y as i128 - a.y as i128) * ky;
            proof {
                assert(-4_000_000_000_000_000_000_000_000_000_000 <= ex * dx
                    <= 4_000_000_000_000_000_000_000_000_000_000) by (nonlinear_arith)
                    requires
                        -2_000_000_000_000_000 <= ex <= 2_000_000_000_000_000,
                        -2_000_000_000_000_000 <= dx <= 2_000_000_000_000_000;
                assert(-4_000_000_000_000_000_000_000_000_000_000 <= ey * dy
                    <= 4_000_000_000_000_000_000_000_000_000_000) by (nonlinear_arith)
                    requires
                        -2_000_000_000_000_000 <= ey <= 2_000_000_000_000_000,
                        -2_000_000_000_000_000 <= dy <= 2_000_000_000_000_000;
            }
            let dot: i128 = ex * dx + ey * dy;
            if dot > q {
                (b, T_SCALE)
            } else if dot > 0 {
                proof {
                    lemma_div_le(dot as int * 1_000_000, q as int, 1_000_000);
                }
                let tt = (((dot as u128) * 1_000_000) / (q as u128)) as u64;
                (interpolate(a, b, tt), tt)
            } else {
                (a, 0u64)
            }
        };
        let cand = cand_t.0;
        let t = cand_t.1;
        proof {
            assert(cand == seg_cand(*self, a, b, p));
            assert(t as int == seg_t(*self, a, b, p));
            lemma_scaled_diff_bound(self.kx as int, a.x as int, b.x as int, p.x as int,
                cand.x as int);
            lemma_scaled_diff_bound(self.ky as int, a.y as int, b.y as int, p.y as int,
                cand.y as int);
        }
        let ddx: i128 = (p.x as i128 - cand.x as i128) * kx;
        let ddy: i128 = (p.y as i128 - cand.y as i128) * ky;
        proof {
            assert(0 <= ddx * ddx <= 16_000_000_000_000_000_000_000_000_000_000)
                by (nonlinear_arith)
                requires -4_000_000_000_000_000 <= ddx <= 4_000_000_000_000_000;
            assert(0 <= ddy * ddy <= 16_000_000_000_000_000_000_000_000_000_000)
                by (nonlinear_arith)
                requires -4_000_000_000_000_000 <= ddy <= 4_000_000_000_000_000;
        }
        let d2 = (ddx * ddx + ddy * ddy) as u128;
        (cand, t, d2)
    }

    /// The nearest point of the line to `p`: among all segments, the
    /// candidate with the smallest squared scaled distance, ties going
    /// to the lowest segment index; the reported fraction is clamped
    /// into `[0, T_SCALE]`.
    #[allow(non_snake_case)]
    pub fn pointOnLine(&self, line: &Vec<Point>, p: Point) -> (res: PointOnLine)
        requires
            line@.len() >= 2,
            self.wf(),
            pol_fits(*self, line@, p),
        ensures
            res.index as int == pol_idx(*self, line@, p),
            res.index < line@.len() - 1,
            res.point == pol_point(*self, line@, p),
            res.t as int == pol_t(*self, line@, p),
            res.t <= T_SCALE,
            forall|j: int|
                0 <= j < line@.len() - 1 ==> seg_d2_at(*self, line@, p, res.index as int)
                    <= #[trigger] seg_d2_at(*self, line@, p, j),
            forall|j: int|
                0 <= j < res.index ==> seg_d2_at(*self, line@, p, res.index as int)
                    < #[trigger] seg_d2_at(*self, line@, p, j),
    {
        let n = line.len();
        let e0 = self.seg_eval(line[0], line[1], p);
        let mut min_pt = e0.0;
        let mut min_t = e0.1;
        let mut min_d2 = e0.2;
        let mut min_i: usize = 0;
        let mut i: usize = 1;
        while i < n - 1
            invariant
                1 <= i <= n - 1,
                n == line@.len() >= 2,
                self.wf(),
                pol_fits(*self, line@, p),
                min_i < i,
                min_i as int == pol_min_idx(*self, line@, p, i as int),
                min_pt == seg_cand(*self, line@[min_i as int], line@[min_i as int + 1], p),
                min_t as int == seg_t(*self, line@[min_i as int], line@[min_i as int + 1], p),
                min_d2 as int == seg_d2_at(*self, line@, p, min_i as int),
                min_t <= T_SCALE,
                forall|j: int|
                    0 <= j < i ==> seg_d2_at(*self, line@, p, min_i as int) <= #[trigger] seg_d2_at(
                        *self,
                        line@,
                        p,
                        j,
                    ),
                forall|j: int|
                    0 <= j < min_i ==> seg_d2_at(*self, line@, p, min_i as int)
                        < #[trigger] seg_d2_at(*self, line@, p, j),
            decreases n - 1 - i,
        {
            let e = self.seg_eval(line[i], line[i + 1], p);
            if e.2 < min_d2 {
                min_pt = e.0;
                min_t = e.1;
                min_d2 = e.2;
                min_i = i;
            }
            i = i + 1;
        }
        PointOnLine { point: min_pt, index: min_i, t: min_t }
    }
}

/// The vertices a slice takes from the line once both projected
/// endpoints are known: the first projected point, then the line's
/// vertices strictly inside the index range, then the second projected
/// point; vertices equal to a neighboring projected point are skipped.
pub open spec fn slice_build(line: Seq<Point>, ia: int, pa: Point, ib: int, pb: Point) -> Seq<
    Point,
> {
    let l = ia + 1;
    let s0 = seq![pa];
    let s1: Seq<Point> = if l <= ib && line[l] != pa {
        seq![line[l]]
    } else {
        Seq::empty()
    };
    let s2: Seq<Point> = if l + 1 <= ib {
        line.subrange(l + 1, ib + 1)
    } else {
        Seq::empty()
    };
    let s3: Seq<Point> = if line[ib] != pb {
        seq![pb]
    } else {
        Seq::empty()
    };
    s0 + s1 + s2 + s3
}

/// The part of the line between the nearest points of `start` and
/// `stop`, ordered forward along the line.
pub open spec fn line_slice_spec(r: CheapRuler, line: Seq<Point>, start: Point, stop: Point) -> Seq<
    Point,
> {
    let i1 = pol_idx(r, line, start);
    let t1 = pol_t(r, line, start);
    let p1 = pol_point(r, line, start);
    let i2 = pol_idx(r, line, stop);
    let t2 = pol_t(r, line, stop);
    let p2 = pol_point(r, line, stop);
    if i1 > i2 || (i1 == i2 && t1 > t2) {
        slice_build(line, i2, p2, i1, p1)
    } else {
        slice_build(line, i1, p1, i2, p2)
    }
}

impl CheapRuler {
    /// The part of the line between `start` and `stop` (or their
    /// nearest points on the line), traversed forward along the line.
    #[allow(non_snake_case)]
    pub fn lineSlice(&self, start: Point, stop: Point, line: &Vec<Point>) -> (res: Vec<Point>)
        requires
            line@.len() >= 2,
            self.wf(),
            pol_fits(*self, line@, start),
            pol_fits(*self, line@, stop),
        ensures
            res@ == line_slice_spec(*self, line@, start, stop),
    {
        let n = line.len();
        let r1 = self.pointOnLine(line, start);
        let r2 = self.pointOnLine(line, stop);
        let swap = r1.index > r2.index || (r1.index == r2.index && r1.t > r2.t);
        let ia = if swap { r2.index } else { r1.index };
        let pa = if swap { r2.point } else { r1.point };
        let ib = if swap { r1.index } else { r2.index };
        let pb = if swap { r1.point } else { r2.point };

        let mut res: Vec<Point> = Vec::new();
        res.push(pa);
        let l = ia + 1;
        if line[l] != pa && l <= ib {
            res.push(line[l]);
        }
        let ghost pre = res@;
        let mut k = l + 1;
        while k <= ib
            invariant
                l + 1 <= k <= ib + 1 || k == l + 1,
                n == line@.len(),
                ib < n - 1,
                res@ == pre + line@.subrange(l + 1, k as int),
                k >= l + 1,
            decreases ib + 1 - k,
        {
            res.push(line[k]);
            proof {
                assert(res@ =~= pre + line@.subrange(l + 1, k + 1));
            }
            k = k + 1;
        }
        if line[ib] != pb {
            res.push(pb);
        }
        proof {
            if l + 1 <= ib {
                assert(line@.subrange(l + 1, l as int + 1) =~= Seq::<Point>::empty());
            }
            assert(res@ =~= line_slice_spec(*self, line@, start, stop));
        }
        res
    }
}

/// Slicing a line from its first to its last vertex reproduces the
/// whole line, provided consecutive vertices are distinct and no
/// earlier segment passes through the last vertex.
pub proof fn lemma_line_slice_whole_line(r: CheapRuler, line: Seq<Point>)
    requires
        r.wf(),
        line.len() >= 2,
        forall|j: int| 0 <= j < line.len() - 1 ==> line[j] != #[trigger] line[j + 1],
        forall|j: int|
            0 <= j < line.len() - 2 ==> 0 < #[trigger] seg_d2_at(r, line, line[line.len() - 1], j),
    ensures
        line_slice_spec(r, line, line[0], line[line.len() - 1]) == line,
{
    let ln = line.len() as int;
    let first = line[0];
    let last = line[ln - 1];

    lemma_seg_at_start(r, line[0], line[1]);
    assert(seg_d2_at(r, line, first, 0) == 0);
    lemma_pol_min_idx_hits_zero(r, line, first, 0, ln - 1);
    assert(pol_idx(r, line, first) == 0);

    assert(line[ln - 2] != line[ln - 1]);
    lemma_seg_at_end(r, line[ln - 2], line[ln - 1]);
    assert(seg_d2_at(r, line, last, ln - 2) == 0);
    lemma_pol_min_idx_hits_zero(r, line, last, ln - 2, ln - 1);
    assert(pol_idx(r, line, last) == ln - 2);

    assert(pol_t(r, line, first) == 0);
    assert(pol_t(r, line, last) == T_SCALE);
    assert(pol_point(r, line, first) == first);
    assert(pol_point(r, line, last) == last);

    let built = slice_build(line, 0, first, ln - 2, last);
    if ln == 2 {
        assert(built =~= line);
    } else {
        assert(line[1] != first);
        assert(line[ln - 2] != last);
        assert(built =~= line);
    }
}

} // verus!
