//! The unit in which coordinates are counted and the width of each tier.

use vstd::prelude::*;

verus! {

/// Units in one degree. A unit is one ten-thousandth of an arcsecond.
pub const UNITS_PER_DEGREE: i64 = 36_000_000;

/// Half the way round the globe, 180 degrees: locators count longitude east
/// from the antimeridian.
pub const LONG_OFFSET: i64 = 6_480_000_000;

/// From the equator to a pole, 90 degrees: locators count latitude north
/// from the south pole.
pub const LAT_OFFSET: i64 = 3_240_000_000;

/// Number of tiers: field, square, subsquare, extended square and
/// superextended square.
pub const TIERS: usize = 5;

/// Width in longitude of one step of each tier: 20 degrees, 2 degrees,
/// 5 minutes, 30 seconds and 1.25 seconds.
pub const LONG_MULT: [i64; 5] = [720_000_000, 72_000_000, 3_000_000, 300_000, 12_500];

/// Width in latitude of one step of each tier: 10 degrees, 1 degree,
/// 2.5 minutes, 15 seconds and 0.625 seconds.
pub const LAT_MULT: [i64; 5] = [360_000_000, 36_000_000, 1_500_000, 150_000, 6_250];

/// Width in longitude of one step of `tier`.
pub open spec fn long_width(tier: int) -> int {
    LONG_MULT[tier] as int
}

/// Width in latitude of one step of `tier`.
pub open spec fn lat_width(tier: int) -> int {
    LAT_MULT[tier] as int
}

/// Number of steps of `tier` that fill one step of the tier above it; for the
/// field, the number of fields that go round the globe.
pub open spec fn tier_steps(tier: int) -> int {
    if tier == 0 {
        18
    } else if tier == 1 || tier == 3 {
        10
    } else {
        24
    }
}

/// A precision or locator length that the encoding defines.
pub open spec fn valid_length(len: int) -> bool {
    len == 4 || len == 6 || len == 8 || len == 10
}

/// A coordinate pair on the globe, both bounds included.
pub open spec fn on_globe(long: int, lat: int) -> bool {
    -LONG_OFFSET <= long <= LONG_OFFSET && -LAT_OFFSET <= lat <= LAT_OFFSET
}

/// Each tier divides the one above it, and the field goes round the globe:
/// the table is consistent with the number of steps of each tier.
pub proof fn lemma_widths(tier: int)
    requires
        0 <= tier < TIERS,
    ensures
        long_width(tier) == 2 * lat_width(tier),
        lat_width(tier) > 0,
        lat_width(tier) % 2 == 0,
        tier > 0 ==> long_width(tier - 1) == tier_steps(tier) * long_width(tier),
        tier > 0 ==> lat_width(tier - 1) == tier_steps(tier) * lat_width(tier),
        tier == 0 ==> tier_steps(0) * long_width(0) == 2 * LONG_OFFSET,
        tier == 0 ==> tier_steps(0) * lat_width(0) == 2 * LAT_OFFSET,
{
}

/// The globe is a whole number of steps of every tier.
pub proof fn lemma_globe_is_whole_steps(tier: int)
    requires
        0 <= tier < TIERS,
    ensures
        (2 * LONG_OFFSET) % long_width(tier) == 0,
        (2 * LAT_OFFSET) % lat_width(tier) == 0,
{
    if tier == 0 {
        assert(12_960_000_000int % 720_000_000 == 0 && 6_480_000_000int % 360_000_000 == 0);
    } else if tier == 1 {
        assert(12_960_000_000int % 72_000_000 == 0 && 6_480_000_000int % 36_000_000 == 0);
    } else if tier == 2 {
        assert(12_960_000_000int % 3_000_000 == 0 && 6_480_000_000int % 1_500_000 == 0);
    } else if tier == 3 {
        assert(12_960_000_000int % 300_000 == 0 && 6_480_000_000int % 150_000 == 0);
    } else {
        assert(12_960_000_000int % 12_500 == 0 && 6_480_000_000int % 6_250 == 0);
    }
}

} // verus!
