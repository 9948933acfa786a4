use vstd::prelude::*;

verus! {

/// The distance unit a ruler reports in.  The multiplier of each unit is
/// the exact rational "units per 1000 meters", normalized to kilometers.
#[derive(Clone, Copy, PartialEq, Eq, Structural, Debug)]
pub enum Unit {
    Kilometers,
    Miles,
    NauticalMiles,
    Meters,
    Yards,
    Feet,
    Inches,
}

/// Why a construction attempt was rejected.
#[derive(Clone, Copy, PartialEq, Eq, Structural, Debug)]
pub enum RulerError {
    /// The unit name is not one of the recognized tags.
    InvalidArgument,
}

/// Numerator of the unit's multiplier.
pub open spec fn mult_num(u: Unit) -> int {
    match u {
        Unit::Kilometers => 1,
        Unit::Miles => 1_000_000,
        Unit::NauticalMiles => 1_000,
        Unit::Meters => 1_000,
        Unit::Yards => 10_000_000,
        Unit::Feet => 10_000_000,
        Unit::Inches => 10_000_000,
    }
}

/// Denominator of the unit's multiplier.
pub open spec fn mult_den(u: Unit) -> int {
    match u {
        Unit::Kilometers => 1,
        Unit::Miles => 1_609_344,
        Unit::NauticalMiles => 1_852,
        Unit::Meters => 1,
        Unit::Yards => 9_144,
        Unit::Feet => 3_048,
        Unit::Inches => 254,
    }
}

impl Unit {
    /// The unit's multiplier as an exact fraction `numerator / denominator`:
    /// 1 for kilometers, 1000 for meters, 1000/1609.344 for miles,
    /// 1000/1852 for nautical miles, 1000/0.9144 for yards,
    /// 1000/0.3048 for feet and 1000/0.0254 for inches.
    pub fn multiplier(&self) -> (r: (u64, u64))
        ensures
            r.0 == mult_num(*self),
            r.1 == mult_den(*self),
            0 < r.0 <= 10_000_000,
            0 < r.1 <= 1_609_344,
    {
        match self {
            Unit::Kilometers => (1, 1),
            Unit::Miles => (1_000_000, 1_609_344),
            Unit::NauticalMiles => (1_000, 1_852),
            Unit::Meters => (1_000, 1),
            Unit::Yards => (10_000_000, 9_144),
            Unit::Feet => (10_000_000, 3_048),
            Unit::Inches => (10_000_000, 254),
        }
    }
}

/// Character-by-character string equality.
fn str_eq(a: &str, b: &str) -> (r: bool)
    ensures
        r == (a@ == b@),
{
    let n = a.unicode_len();
    let m = b.unicode_len();
    if n != m {
        proof {
            assert(a@ != b@) by {
                if a@ == b@ {
                    assert(a@.len() == b@.len());
                }
            }
        }
        return false;
    }
    let mut i: usize = 0;
    while i < n
        invariant
            i <= n,
            n == a@.len(),
            n == b@.len(),
            forall|j: int| 0 <= j < i ==> a@[j] == b@[j],
        decreases n - i,
    {
        if a.get_char(i) != b.get_char(i) {
            return false;
        }
        i = i + 1;
    }
    proof {
        assert(a@ =~= b@);
    }
    true
}

/// The name of each recognized unit: "kilometers", "miles",
/// "nauticalmiles", "meters" (or "metres"), "yards", "feet", "inches".
/// Any other name is rejected with `InvalidArgument`.
pub fn unit_from_name(name: &str) -> (r: Result<Unit, RulerError>)
    ensures
        r == Ok::<Unit, RulerError>(Unit::Kilometers) <==> name@ == "kilometers"@,
        r == Ok::<Unit, RulerError>(Unit::Miles) <==> name@ == "miles"@,
        r == Ok::<Unit, RulerError>(Unit::NauticalMiles) <==> name@ == "nauticalmiles"@,
        r == Ok::<Unit, RulerError>(Unit::Meters) <==> (name@ == "meters"@ || name@
            == "metres"@),
        r == Ok::<Unit, RulerError>(Unit::Yards) <==> name@ == "yards"@,
        r == Ok::<Unit, RulerError>(Unit::Feet) <==> name@ == "feet"@,
        r == Ok::<Unit, RulerError>(Unit::Inches) <==> name@ == "inches"@,
        r == Err::<Unit, RulerError>(RulerError::InvalidArgument) <==> !(name@ == "kilometers"@
            || name@ == "miles"@ || name@ == "nauticalmiles"@ || name@ == "meters"@ || name@
            == "metres"@ || name@ == "yards"@ || name@ == "feet"@ || name@ == "inches"@),
{
    proof {
        reveal_strlit("kilometers");
        reveal_strlit("miles");
        reveal_strlit("nauticalmiles");
        reveal_strlit("meters");
        reveal_strlit("metres");
        reveal_strlit("yards");
        reveal_strlit("feet");
        reveal_strlit("inches");
        assert("kilometers"@.len() == 10);
        assert("miles"@.len() == 5);
        assert("nauticalmiles"@.len() == 13);
        assert("meters"@.len() == 6);
        assert("metres"@.len() == 6);
        assert("yards"@.len() == 5);
        assert("feet"@.len() == 4);
        assert("inches"@.len() == 6);
        assert("miles"@[0] == 'm');
        assert("yards"@[0] == 'y');
        assert("meters"@[0] == 'm');
        assert("metres"@[0] == 'm');
        assert("inches"@[0] == 'i');
        assert("meters"@[3] == 'e');
        assert("metres"@[3] == 'r');
    }
    if str_eq(name, "kilometers") {
        Ok(Unit::Kilometers)
    } else if str_eq(name, "miles") {
        Ok(Unit::Miles)
    } else if str_eq(name, "nauticalmiles") {
        Ok(Unit::NauticalMiles)
    } else if str_eq(name, "meters") {
        Ok(Unit::Meters)
    } else if str_eq(name, "metres") {
        Ok(Unit::Meters)
    } else if str_eq(name, "yards") {
        Ok(Unit::Yards)
    } else if str_eq(name, "feet") {
        Ok(Unit::Feet)
    } else if str_eq(name, "inches") {
        Ok(Unit::Inches)
    } else {
        Err(RulerError::InvalidArgument)
    }
}

} // verus!
