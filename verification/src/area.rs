use vstd::prelude::*;
use vstd::arithmetic::div_mod::{lemma_div_multiples_vanish, lemma_fundamental_div_mod};
use vstd::math::abs;
use crate::points::{pt_bounded, Point};
use crate::ruler::CheapRuler;

verus! {

/// The shoelace contribution of vertex `j` of the ring, paired with its
/// predecessor (wrapping around to the last vertex for `j == 0`).
pub open spec fn ring_term(ring: Seq<Point>, j: int) -> int {
    let k = if j == 0 {
        ring.len() - 1
    } else {
        j - 1
    };
    (ring[j].x - ring[k].x) * (ring[j].y + ring[k].y)
}

/// The shoelace sum of the first `n` vertices of the ring.
pub open spec fn ring_sum_to(ring: Seq<Point>, n: int) -> int
    decreases n,
{
    if n <= 0 {
        0
    } else {
        ring_sum_to(ring, n - 1) + ring_term(ring, n - 1)
    }
}

/// The shoelace sum of the whole ring.
pub open spec fn ring_sum(ring: Seq<Point>) -> int {
    ring_sum_to(ring, ring.len() as int)
}

/// The combined signed sum of the first `n` rings: ring 0 (the outer
/// boundary) counts positively, later rings (holes) negatively.
pub open spec fn rings_sum_to(rings: Seq<Seq<Point>>, n: int) -> int
    decreases n,
{
    if n <= 0 {
        0
    } else {
        rings_sum_to(rings, n - 1) + if n - 1 > 0 {
            -ring_sum(rings[n - 1])
        } else {
            ring_sum(rings[n - 1])
        }
    }
}

/// The combined signed shoelace sum of the polygon.
pub open spec fn shoelace_sum(rings: Seq<Seq<Point>>) -> int {
    rings_sum_to(rings, rings.len() as int)
}

/// The sequence of rings of a polygon held as vectors.
pub open spec fn poly_view(polygon: Seq<Vec<Point>>) -> Seq<Seq<Point>> {
    polygon.map_values(|v: Vec<Point>| v@)
}

/// The polygon's area in squared ruler units (at squared coordinate
/// scale): half the absolute combined shoelace sum, scaled by `kx` and
/// `ky` with the fixed-point divisions applied in this exact order.
pub open spec fn area_spec(r: CheapRuler, rings: Seq<Seq<Point>>) -> int {
    let s = abs(shoelace_sum(rings));
    ((((s * r.kx) / 1_000_000) * r.ky) / 1_000_000) / 2
}

impl CheapRuler {
    /// The area of the polygon: ring 0 is the outer boundary, later
    /// rings are holes that subtract.  Rings are implicitly closed; the
    /// absolute value is taken once over the combined signed sum.
    pub fn area(&self, polygon: &Vec<Vec<Point>>) -> (a: u128)
        requires
            self.wf(),
            polygon@.len() <= 128,
            forall|i: int| 0 <= i < polygon@.len() ==> 1 <= (#[trigger] polygon@[i])@.len()
                <= 65_536,
            forall|i: int, j: int|
                0 <= i < polygon@.len() && 0 <= j < polygon@[i]@.len() ==> pt_bounded(
                    #[trigger] polygon@[i]@[j],
                    200_000_000,
                ),
            abs(shoelace_sum(poly_view(polygon@))) * self.kx * self.ky
                <= 200_000_000_000_000_000_000_000_000_000_000_000_000_000_000,
        ensures
            a as int == area_spec(*self, poly_view(polygon@)),
    {
        let ghost pv = poly_view(polygon@);
        let nr = polygon.len();
        let mut total: i128 = 0;
        let mut i: usize = 0;
        while i < nr
            invariant
                0 <= i <= nr,
                nr == polygon@.len() <= 128,
                forall|m: int| 0 <= m < polygon@.len() ==> 1 <= (#[trigger] polygon@[m])@.len()
                    <= 65_536,
                forall|m: int, j: int|
                    0 <= m < polygon@.len() && 0 <= j < polygon@[m]@.len() ==> pt_bounded(
                        #[trigger] polygon@[m]@[j],
                        200_000_000,
                    ),
                pv == poly_view(polygon@),
                total as int == rings_sum_to(pv, i as int),
                -(i as int) * 11_000_000_000_000_000_000_000 <= total as int <= (i as int)
                    * 11_000_000_000_000_000_000_000,
            decreases nr - i,
        {
            let ring = &polygon[i];
            let rl = ring.len();
            let mut rsum: i128 = 0;
            let mut j: usize = 0;
            proof {
                assert(pv[i as int] == ring@);
            }
            while j < rl
                invariant
                    0 <= j <= rl,
                    rl == ring@.len(),
                    1 <= rl <= 65_536,
                    forall|m: int| 0 <= m < ring@.len() ==> pt_bounded(
                        #[trigger] ring@[m],
                        200_000_000,
                    ),
                    rsum as int == ring_sum_to(ring@, j as int),
                    -(j as int) * 160_000_000_000_000_000 <= rsum as int <= (j as int)
                        * 160_000_000_000_000_000,
                decreases rl - j,
            {
                let k = if j == 0 {
                    rl - 1
                } else {
                    j - 1
                };
                let fx: i128 = ring[j].x as i128 - ring[k].x as i128;
                let fy: i128 = ring[j].y as i128 + ring[k].y as i128;
                proof {
                    assert(-160_000_000_000_000_000 <= fx * fy <= 160_000_000_000_000_000)
                        by (nonlinear_arith)
                        requires
                            -400_000_000 <= fx <= 400_000_000,
                            -400_000_000 <= fy <= 400_000_000;
                }
                let term: i128 = fx * fy;
                proof {
                    assert((j as int + 1) * 160_000_000_000_000_000 == (j as int)
                        * 160_000_000_000_000_000 + 160_000_000_000_000_000) by (nonlinear_arith);
                    assert((j as int) * 160_000_000_000_000_000 <= 65_536
                        * 160_000_000_000_000_000) by (nonlinear_arith)
                        requires 0 <= j as int <= 65_536;
                }
                rsum = rsum + term;
                j = j + 1;
            }
            proof {
                assert(rsum as int == ring_sum(pv[i as int]));
                assert((j as int) * 160_000_000_000_000_000 <= 11_000_000_000_000_000_000_000)
                    by (nonlinear_arith)
                    requires 0 <= j as int <= 65_536;
                assert((i as int + 1) * 11_000_000_000_000_000_000_000 == (i as int)
                    * 11_000_000_000_000_000_000_000 + 11_000_000_000_000_000_000_000)
                    by (nonlinear_arith);
                assert((i as int) * 11_000_000_000_000_000_000_000 <= 128
                    * 11_000_000_000_000_000_000_000) by (nonlinear_arith)
                    requires 0 <= i as int <= 128;
            }
            if i > 0 {
                total = total - rsum;
            } else {
                total = total + rsum;
            }
            i = i + 1;
        }
        proof {
            assert((i as int) * 11_000_000_000_000_000_000_000 <= 128
                * 11_000_000_000_000_000_000_000) by (nonlinear_arith)
                requires 0 <= i as int <= 128;
        }
        let s: u128 = if total >= 0 {
            total as u128
        } else {
            (-total) as u128
        };
        proof {
            assert(s as int == abs(shoelace_sum(pv)));
            assert(s * self.kx <= 1_500_000_000_000_000_000_000_000
                * 5_000_000_000_000) by (nonlinear_arith)
                requires
                    0 <= s <= 1_500_000_000_000_000_000_000_000,
                    0 <= self.kx <= 5_000_000_000_000;
        }
        let m1: u128 = s * self.kx as u128;
        proof {
            lemma_fundamental_div_mod(m1 as int, 1_000_000);
        }
        let m2: u128 = m1 / 1_000_000;
        proof {
            assert(m2 * self.ky * 1_000_000 <= m1 * self.ky) by (nonlinear_arith)
                requires
                    1_000_000 * m2 <= m1,
                    0 <= self.ky;
            assert(m1 * self.ky
                <= 200_000_000_000_000_000_000_000_000_000_000_000_000_000_000) by {
                assert(m1 * self.ky == s * self.kx * self.ky) by (nonlinear_arith)
                    requires m1 == s * self.kx;
            }
        }
        let m3: u128 = m2 * self.ky as u128;
        let m4: u128 = m3 / 1_000_000;
        m4 / 2
    }
}

/// The area of the unit-degree square at the origin is exactly
/// `kx * ky`: one squared degree scaled by both factors.
pub proof fn lemma_area_unit_square(r: CheapRuler)
    requires
        r.wf(),
    ensures
        area_spec(
            r,
            seq![
                seq![
                    Point { x: 0, y: 0 },
                    Point { x: 1_000_000, y: 0 },
                    Point { x: 1_000_000, y: 1_000_000 },
                    Point { x: 0, y: 1_000_000 },
                ]
            ],
        ) == r.kx * r.ky,
{
    let ring = seq![
        Point { x: 0, y: 0 },
        Point { x: 1_000_000, y: 0 },
        Point { x: 1_000_000, y: 1_000_000 },
        Point { x: 0, y: 1_000_000 },
    ];
    let rings = seq![ring];
    assert(ring.len() == 4);
    assert(ring[0] == Point { x: 0, y: 0 });
    assert(ring[1] == Point { x: 1_000_000, y: 0 });
    assert(ring[2] == Point { x: 1_000_000, y: 1_000_000 });
    assert(ring[3] == Point { x: 0, y: 1_000_000 });
    assert(ring_term(ring, 0) == (0 - 0) * (0 + 1_000_000));
    assert((0 - 0) * (0 + 1_000_000) == 0) by (nonlinear_arith);
    assert(ring_term(ring, 1) == (1_000_000 - 0) * (0 + 0));
    assert((1_000_000 - 0) * (0 + 0) == 0) by (nonlinear_arith);
    assert(ring_term(ring, 2) == (1_000_000 - 1_000_000) * (1_000_000 + 0));
    assert((1_000_000 - 1_000_000) * (1_000_000 + 0) == 0) by (nonlinear_arith);
    assert(ring_term(ring, 3) == (0 - 1_000_000) * (1_000_000 + 1_000_000));
    assert((0 - 1_000_000) * (1_000_000 + 1_000_000) == -2_000_000_000_000) by (nonlinear_arith);
    assert(ring_sum_to(ring, 0) == 0);
    assert(ring_sum_to(ring, 1) == ring_sum_to(ring, 0) + ring_term(ring, 0));
    assert(ring_sum_to(ring, 2) == ring_sum_to(ring, 1) + ring_term(ring, 1));
    assert(ring_sum_to(ring, 3) == ring_sum_to(ring, 2) + ring_term(ring, 2));
    assert(ring_sum_to(ring, 4) == ring_sum_to(ring, 3) + ring_term(ring, 3));
    assert(ring_sum(ring) == -2_000_000_000_000);
    assert(rings[0] == ring);
    assert(rings_sum_to(rings, 0) == 0);
    assert(rings_sum_to(rings, 1) == rings_sum_to(rings, 0) + ring_sum(rings[0]));
    assert(shoelace_sum(rings) == -2_000_000_000_000);
    let sv = abs(shoelace_sum(rings)) as int;
    assert(sv == 2_000_000_000_000);

    let kx = r.kx as int;
    let ky = r.ky as int;
    assert(sv * kx == 1_000_000 * (2_000_000 * kx)) by (nonlinear_arith)
        requires sv == 2_000_000_000_000;
    lemma_div_multiples_vanish(2_000_000 * kx, 1_000_000);
    assert((sv * kx) / 1_000_000 == 2_000_000 * kx);
    assert((2_000_000 * kx) * ky == 1_000_000 * (2 * (kx * ky))) by (nonlinear_arith);
    lemma_div_multiples_vanish(2 * (kx * ky), 1_000_000);
    assert(((2_000_000 * kx) * ky) / 1_000_000 == 2 * (kx * ky));
    lemma_div_multiples_vanish(kx * ky, 2);
    assert((2 * (kx * ky)) / 2 == kx * ky);
}

} // verus!
