use vstd::prelude::*;
use crate::math::{
    is_isqrt, isqrt, isqrt_spec, lemma_div_ge, lemma_div_le, lemma_isqrt_is, lemma_tdiv_bounds,
    tdiv, COORD_LIMIT,
};
use crate::points::{pt_bounded, Point};
use crate::units::{mult_den, mult_num, unit_from_name, Unit, RulerError};

verus! {

/// The largest fixed-point scale factor a ruler can hold (reached near
/// the equator with the inches unit).
pub const K_MAX: i64 = 5_000_000_000_000;

/// Scaled per-axis differences handed to `distance` stay within this
/// magnitude, so squares and sums of squares fit the machine integers.
pub const SPAN_LIMIT: i64 = 2_000_000_000_000_000;

/// The degree-to-distance polynomial for longitude, on the fixed-point
/// cosine `c` (scale 1_000_000), over the common denominator
/// `100_000 * 1_000_000^5`.  It is `111.41513*cos - 0.09455*cos3 +
/// 0.00012*cos5` (`cosN` the cosine of N times the angle) with the
/// multiple angles expanded into powers: `111.69938*c - 0.3806*c^3 +
/// 0.00192*c^5`.
pub open spec fn poly_x(c: int) -> int {
    let c2 = c * c;
    let c3 = c2 * c;
    let c5 = c3 * c2;
    11_169_938 * c * 1_000_000_000_000_000_000_000_000 - 38_060 * c3 * 1_000_000_000_000 + 192
        * c5
}

/// The latitude analog of `poly_x`: `111.13209 - 0.56605*cos2 +
/// 0.0012*cos4` expanded into `111.69934 - 1.1417*c^2 + 0.0096*c^4`,
/// over denominator `100_000 * 1_000_000^4`.
pub open spec fn poly_y(c: int) -> int {
    let c2 = c * c;
    let c4 = c2 * c2;
    11_169_934 * 1_000_000_000_000_000_000_000_000 - 114_170 * c2 * 1_000_000_000_000 + 960 * c4
}

/// The longitude scale factor, fixed-point at scale 1_000_000.
pub open spec fn kx_spec(c: int, u: Unit) -> int {
    ((poly_x(c) / 100_000_000_000_000_000_000_000) * mult_num(u)) / (mult_den(u) * 1_000_000)
}

/// The latitude scale factor, fixed-point at scale 1_000_000.
pub open spec fn ky_spec(c: int, u: Unit) -> int {
    ((poly_y(c) / 100_000_000_000_000_000) * mult_num(u)) / (mult_den(u) * 1_000_000)
}

/// A local linear scale transform: multiplying a longitude difference in
/// microdegrees by `kx` (and a latitude difference by `ky`) gives a
/// distance in fixed-point units at scale `1_000_000 * 1_000_000`.
#[derive(Clone, Copy, PartialEq, Eq, Structural, Debug)]
pub struct CheapRuler {
    pub kx: i64,
    pub ky: i64,
}

/// Dividing a quotient in `[111_318_780, 111_701_000_000_000]` of either
/// polynomial by the unit denominator keeps the scale factor positive
/// and below `K_MAX`, for every recognized unit.
proof fn lemma_scale_in_range(t: int, mn: int, md: int)
    requires
        111_318_780 <= t <= 111_701_000_000_000,
        (mn == 1 && md == 1) || (mn == 1_000_000 && md == 1_609_344) || (mn == 1_000 && md
            == 1_852) || (mn == 1_000 && md == 1) || (mn == 10_000_000 && md == 9_144) || (mn
            == 10_000_000 && md == 3_048) || (mn == 10_000_000 && md == 254),
    ensures
        1 <= (t * mn) / (md * 1_000_000) <= K_MAX,
{
    let d = md * 1_000_000;
    lemma_div_ge(t * mn, d, 1);
    lemma_div_le(t * mn, d, K_MAX as int);
}

impl CheapRuler {
    /// The scale factors are strictly positive and bounded.
    pub open spec fn wf(self) -> bool {
        0 < self.kx <= K_MAX && 0 < self.ky <= K_MAX
    }

    /// Builds the ruler for a reference latitude whose cosine is given in
    /// fixed point at scale 1_000_000 (so `(-90, 90)` degrees maps to
    /// `1 ..= 1_000_000`), reporting distances in `unit`.
    pub fn new(cos_fixed: i64, unit: Unit) -> (r: CheapRuler)
        requires
            1 <= cos_fixed <= 1_000_000,
        ensures
            r.kx as int == kx_spec(cos_fixed as int, unit),
            r.ky as int == ky_spec(cos_fixed as int, unit),
            r.wf(),
    {
        let c: u128 = cos_fixed as u128;
        let m = unit.multiplier();
        let mn: u128 = m.0 as u128;
        let md: u128 = m.1 as u128;
        proof {
            assert(c * c <= 1_000_000_000_000) by (nonlinear_arith)
                requires 0 <= c <= 1_000_000;
        }
        let c2: u128 = c * c;
        proof {
            assert(c2 * c <= 1_000_000_000_000_000_000) by (nonlinear_arith)
                requires 0 <= c <= 1_000_000, 0 <= c2 <= 1_000_000_000_000;
            assert(c2 * c2 <= 1_000_000_000_000_000_000_000_000) by (nonlinear_arith)
                requires 0 <= c2 <= 1_000_000_000_000;
        }
        let c3: u128 = c2 * c;
        let c4: u128 = c2 * c2;
        proof {
            assert(c3 * c2 <= 1_000_000_000_000_000_000_000_000_000_000) by (nonlinear_arith)
                requires
                    0 <= c3 <= 1_000_000_000_000_000_000,
                    0 <= c2 <= 1_000_000_000_000;
        }
        let c5: u128 = c3 * c2;

        let ax: u128 = 11_169_938 * c * 1_000_000_000_000_000_000_000_000;
        let bx: u128 = 38_060 * c3 * 1_000_000_000_000;
        let ex: u128 = 192 * c5;
        proof {
            assert(c3 * 1_000_000_000_000 <= c * 1_000_000_000_000_000_000_000_000)
                by (nonlinear_arith)
                requires
                    1 <= c <= 1_000_000,
                    c2 == c * c,
                    c3 == c2 * c;
        }
        let px: u128 = ax - bx + ex;
        proof {
            assert(px == poly_x(c as int));
            assert(111_318_780 * 100_000_000_000_000_000_000_000 <= px <= 111_701_000_000_000
                * 100_000_000_000_000_000_000_000) by (nonlinear_arith)
                requires
                    1 <= c <= 1_000_000,
                    c2 == c * c,
                    c3 == c2 * c,
                    c5 == c3 * c2,
                    px == 11_169_938 * c * 1_000_000_000_000_000_000_000_000 - 38_060 * c3
                        * 1_000_000_000_000 + 192 * c5;
            lemma_div_ge(px as int, 100_000_000_000_000_000_000_000, 111_318_780);
            lemma_div_le(px as int, 100_000_000_000_000_000_000_000, 111_701_000_000_000);
        }
        let tx: u128 = px / 100_000_000_000_000_000_000_000;

        let ay: u128 = 11_169_934 * 1_000_000_000_000_000_000_000_000;
        let by: u128 = 114_170 * c2 * 1_000_000_000_000;
        let ey: u128 = 960 * c4;
        let py: u128 = ay - by + ey;
        proof {
            assert(py == poly_y(c as int));
            assert(110_557_000_000_000 * 100_000_000_000_000_000 <= py <= 111_701_000_000_000
                * 100_000_000_000_000_000) by (nonlinear_arith)
                requires
                    1 <= c <= 1_000_000,
                    c2 == c * c,
                    c4 == c2 * c2,
                    py == 11_169_934 * 1_000_000_000_000_000_000_000_000 - 114_170 * c2
                        * 1_000_000_000_000 + 960 * c4;
            lemma_div_ge(py as int, 100_000_000_000_000_000, 110_557_000_000_000);
            lemma_div_le(py as int, 100_000_000_000_000_000, 111_701_000_000_000);
        }
        let ty: u128 = py / 100_000_000_000_000_000;

        proof {
            assert(tx * mn <= 111_701_000_000_000 * 10_000_000) by (nonlinear_arith)
                requires
                    0 <= tx <= 111_701_000_000_000,
                    0 <= mn <= 10_000_000;
            assert(ty * mn <= 111_701_000_000_000 * 10_000_000) by (nonlinear_arith)
                requires
                    0 <= ty <= 111_701_000_000_000,
                    0 <= mn <= 10_000_000;
            lemma_scale_in_range(tx as int, mn as int, md as int);
            lemma_scale_in_range(ty as int, mn as int, md as int);
        }
        let kxv: u128 = (tx * mn) / (md * 1_000_000);
        let kyv: u128 = (ty * mn) / (md * 1_000_000);
        CheapRuler { kx: kxv as i64, ky: kyv as i64 }
    }

    /// Builds the ruler from a unit name, rejecting unrecognized names
    /// with `InvalidArgument` before any construction happens.
    pub fn from_unit_name(name: &str, cos_fixed: i64) -> (r: Result<CheapRuler, RulerError>)
        requires
            1 <= cos_fixed <= 1_000_000,
        ensures
            r matches Ok(cr) ==> exists|u: Unit|
                {
                    &&& #[trigger] name_of_unit_ok(name@, u)
                    &&& cr.kx as int == kx_spec(cos_fixed as int, u)
                    &&& cr.ky as int == ky_spec(cos_fixed as int, u)
                    &&& cr.wf()
                },
            r is Err <==> !(name@ == "kilometers"@ || name@ == "miles"@ || name@
                == "nauticalmiles"@ || name@ == "meters"@ || name@ == "metres"@ || name@
                == "yards"@ || name@ == "feet"@ || name@ == "inches"@),
    {
        match unit_from_name(name) {
            Ok(u) => {
                let r = CheapRuler::new(cos_fixed, u);
                proof {
                    assert(name_of_unit_ok(name@, u));
                }
                Ok(r)
            },
            Err(e) => Err(e),
        }
    }

    /// Scaled differences of each pair stay small enough for exact
    /// squared-distance arithmetic.
    pub open spec fn fits(self, a: Point, b: Point) -> bool {
        -(SPAN_LIMIT as int) <= (a.x - b.x) * self.kx <= SPAN_LIMIT as int && -(SPAN_LIMIT as int)
            <= (a.y - b.y) * self.ky <= SPAN_LIMIT as int
    }

    /// The squared scaled distance between `a` and `b`.
    pub open spec fn sq_dist(self, a: Point, b: Point) -> int {
        ((a.x - b.x) * self.kx) * ((a.x - b.x) * self.kx) + ((a.y - b.y) * self.ky) * ((a.y - b.y)
            * self.ky)
    }

    /// The scaled distance between `a` and `b`: the integer square root
    /// of the squared scaled distance.
    pub open spec fn dist_spec(self, a: Point, b: Point) -> int {
        isqrt_spec(self.sq_dist(a, b))
    }

    /// The distance between two points, in fixed-point units of the
    /// ruler's unit at scale `1_000_000 * 1_000_000`.
    pub fn distance(&self, a: Point, b: Point) -> (d: u64)
        requires
            self.wf(),
            self.fits(a, b),
        ensures
            d as int == self.dist_spec(a, b),
            d <= 3_000_000_000_000_000,
    {
        let dx: i128 = (a.x as i128 - b.x as i128) * self.kx as i128;
        let dy: i128 = (a.y as i128 - b.y as i128) * self.ky as i128;
        proof {
            assert(0 <= dx * dx <= 4_000_000_000_000_000_000_000_000_000_000) by (nonlinear_arith)
                requires -2_000_000_000_000_000 <= dx <= 2_000_000_000_000_000;
            assert(0 <= dy * dy <= 4_000_000_000_000_000_000_000_000_000_000) by (nonlinear_arith)
                requires -2_000_000_000_000_000 <= dy <= 2_000_000_000_000_000;
        }
        let sq: u128 = (dx * dx + dy * dy) as u128;
        let d = isqrt(sq);
        proof {
            assert(d <= 3_000_000_000_000_000) by (nonlinear_arith)
                requires
                    0 <= d,
                    (d as int) * (d as int) <= 8_000_000_000_000_000_000_000_000_000_000;
        }
        d
    }

    /// A point moved by `dx` eastward and `dy` northward, both in the
    /// ruler's distance unit at scale `1_000_000 * 1_000_000`.
    pub open spec fn offset_spec(self, p: Point, dx: int, dy: int) -> Point {
        Point {
            x: (p.x + tdiv(dx, self.kx as int)) as i64,
            y: (p.y + tdiv(dy, self.ky as int)) as i64,
        }
    }

    /// Cartesian offset in ruler units.
    pub fn offset(&self, p: Point, dx: i64, dy: i64) -> (q: Point)
        requires
            self.wf(),
            pt_bounded(p, COORD_LIMIT as int),
            -COORD_LIMIT <= dx <= COORD_LIMIT,
            -COORD_LIMIT <= dy <= COORD_LIMIT,
        ensures
            q == self.offset_spec(p, dx as int, dy as int),
    {
        proof {
            lemma_tdiv_bounds(dx as int, self.kx as int);
            lemma_tdiv_bounds(dy as int, self.ky as int);
        }
        let ox = crate::math::div_trunc_i128(dx as i128, self.kx as i128);
        let oy = crate::math::div_trunc_i128(dy as i128, self.ky as i128);
        Point { x: p.x + ox as i64, y: p.y + oy as i64 }
    }
}

/// `u` is the unit that `s` names.
pub open spec fn name_of_unit_ok(s: Seq<char>, u: Unit) -> bool {
    match u {
        Unit::Kilometers => s == "kilometers"@,
        Unit::Miles => s == "miles"@,
        Unit::NauticalMiles => s == "nauticalmiles"@,
        Unit::Meters => s == "meters"@ || s == "metres"@,
        Unit::Yards => s == "yards"@,
        Unit::Feet => s == "feet"@,
        Unit::Inches => s == "inches"@,
    }
}

/// The distance from a point to itself is zero.
pub proof fn lemma_distance_self(r: CheapRuler, a: Point)
    ensures
        r.dist_spec(a, a) == 0,
{
    assert((a.x - a.x) * r.kx == 0) by (nonlinear_arith);
    assert((a.y - a.y) * r.ky == 0) by (nonlinear_arith);
    assert(r.sq_dist(a, a) == 0);
    assert(is_isqrt(0, 0));
    lemma_isqrt_is(0, 0);
}

/// Distance is symmetric.
pub proof fn lemma_distance_symmetric(r: CheapRuler, a: Point, b: Point)
    ensures
        r.dist_spec(a, b) == r.dist_spec(b, a),
{
    assert(((a.x - b.x) * r.kx) * ((a.x - b.x) * r.kx) == ((b.x - a.x) * r.kx) * ((b.x - a.x)
        * r.kx)) by (nonlinear_arith);
    assert(((a.y - b.y) * r.ky) * ((a.y - b.y) * r.ky) == ((b.y - a.y) * r.ky) * ((b.y - a.y)
        * r.ky)) by (nonlinear_arith);
    assert(r.sq_dist(a, b) == r.sq_dist(b, a));
}

} // verus!
