use cheap_ruler::units::{unit_from_name, RulerError, Unit};

#[test]
fn recognizes_every_unit_name() {
    assert_eq!(unit_from_name("kilometers"), Ok(Unit::Kilometers));
    assert_eq!(unit_from_name("miles"), Ok(Unit::Miles));
    assert_eq!(unit_from_name("nauticalmiles"), Ok(Unit::NauticalMiles));
    assert_eq!(unit_from_name("meters"), Ok(Unit::Meters));
    assert_eq!(unit_from_name("metres"), Ok(Unit::Meters));
    assert_eq!(unit_from_name("yards"), Ok(Unit::Yards));
    assert_eq!(unit_from_name("feet"), Ok(Unit::Feet));
    assert_eq!(unit_from_name("inches"), Ok(Unit::Inches));
}

#[test]
fn rejects_unknown_unit_names() {
    assert_eq!(unit_from_name("parsecs"), Err(RulerError::InvalidArgument));
    assert_eq!(unit_from_name(""), Err(RulerError::InvalidArgument));
    assert_eq!(unit_from_name("Kilometers"), Err(RulerError::InvalidArgument));
    assert_eq!(unit_from_name("meter"), Err(RulerError::InvalidArgument));
}

#[test]
fn multipliers_are_the_exact_fractions() {
    assert_eq!(Unit::Kilometers.multiplier(), (1, 1));
    assert_eq!(Unit::Miles.multiplier(), (1_000_000, 1_609_344));
    assert_eq!(Unit::NauticalMiles.multiplier(), (1_000, 1_852));
    assert_eq!(Unit::Meters.multiplier(), (1_000, 1));
    assert_eq!(Unit::Yards.multiplier(), (10_000_000, 9_144));
    assert_eq!(Unit::Feet.multiplier(), (10_000_000, 3_048));
    assert_eq!(Unit::Inches.multiplier(), (10_000_000, 254));
}
