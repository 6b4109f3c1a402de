//! From a point to the locator of the cell in which it lies.

use vstd::prelude::*;
use vstd::string::*;

use crate::alphabet::{grid_symbol, symbol};
use crate::error::{MHError, MHErrorView};
use crate::resolution::{
    lat_width, long_width, on_globe, tier_steps, valid_length, LAT_MULT, LAT_OFFSET, LONG_MULT,
    LONG_OFFSET, TIERS,
};

verus! {

/// The step of `tier` in which a longitude lies, counted within the step of
/// the tier above; `east` is the longitude counted east from the antimeridian.
pub open spec fn long_digit(tier: int, east: int) -> int {
    if tier == 0 {
        east / long_width(0)
    } else {
        east % long_width(tier - 1) / long_width(tier)
    }
}

/// The step of `tier` in which a latitude lies, counted within the step of
/// the tier above; `north` is the latitude counted north from the south pole.
pub open spec fn lat_digit(tier: int, north: int) -> int {
    if tier == 0 {
        north / lat_width(0)
    } else {
        north % lat_width(tier - 1) / lat_width(tier)
    }
}

/// The number written at position `i` of the locator of a point: each pair
/// holds the longitude step of its tier, then the latitude step.
pub open spec fn position_value(i: int, long: int, lat: int) -> int {
    if i % 2 == 0 {
        long_digit(i / 2, long + LONG_OFFSET)
    } else {
        lat_digit(i / 2, lat + LAT_OFFSET)
    }
}

/// The first `precision` characters of the locator of a point.
pub open spec fn encoded(long: int, lat: int, precision: int) -> Seq<char> {
    Seq::new(precision as nat, |i: int| grid_symbol(i, position_value(i, long, lat)))
}

/// What encoding a point gives. The precision is judged before the point.
pub open spec fn encode(long: int, lat: int, precision: int) -> Result<Seq<char>, MHErrorView> {
    if !valid_length(precision) {
        Err(MHErrorView::InvalidGridLength(precision))
    } else if !on_globe(long, lat) {
        Err(MHErrorView::InvalidLongLat(long, lat))
    } else {
        Ok(encoded(long, lat, precision))
    }
}

/// The steps of a point on the globe are numbers that have a symbol. Below
/// the field every step is less than the number of steps of its tier; the
/// field reaches that number on the eastern and northern edge of the globe,
/// where the point is the antimeridian or the pole itself.
pub proof fn lemma_digit_bounds(tier: int, long: int, lat: int)
    requires
        0 <= tier < TIERS,
        on_globe(long, lat),
    ensures
        0 <= long_digit(tier, long + LONG_OFFSET) <= tier_steps(tier),
        0 <= lat_digit(tier, lat + LAT_OFFSET) <= tier_steps(tier),
        tier > 0 ==> long_digit(tier, long + LONG_OFFSET) < tier_steps(tier),
        tier > 0 ==> lat_digit(tier, lat + LAT_OFFSET) < tier_steps(tier),
        long < LONG_OFFSET ==> long_digit(tier, long + LONG_OFFSET) < tier_steps(tier),
        lat < LAT_OFFSET ==> lat_digit(tier, lat + LAT_OFFSET) < tier_steps(tier),
{
    let east = long + LONG_OFFSET;
    let north = lat + LAT_OFFSET;
    if tier == 0 {
        assert(long_digit(0, east) == east / 720_000_000);
        assert(lat_digit(0, north) == north / 360_000_000);
    } else if tier == 1 {
        assert(long_digit(1, east) == east % 720_000_000 / 72_000_000);
        assert(lat_digit(1, north) == north % 360_000_000 / 36_000_000);
    } else if tier == 2 {
        assert(long_digit(2, east) == east % 72_000_000 / 3_000_000);
        assert(lat_digit(2, north) == north % 36_000_000 / 1_500_000);
    } else if tier == 3 {
        assert(long_digit(3, east) == east % 3_000_000 / 300_000);
        assert(lat_digit(3, north) == north % 1_500_000 / 150_000);
    } else {
        assert(long_digit(4, east) == east % 300_000 / 12_500);
        assert(lat_digit(4, north) == north % 150_000 / 6_250);
    }
}

/// Converts a longitude and a latitude, in units, to the Maidenhead locator
/// of `precision` characters of the cell in which the point lies.
///
/// The precision must be 4, 6, 8 or 10, or the call is refused as
/// `InvalidGridLength`. The longitude must lie within 180 degrees of the
/// prime meridian and the latitude within 90 degrees of the equator, both
/// bounds included, or the call is refused as `InvalidLongLat`. The field and
/// the superextended square are written in upper case, the subsquare in lower
/// case.
pub fn longlat_to_grid(long: i64, lat: i64, precision: usize) -> (result: Result<String, MHError>)
    ensures
        result is Ok <==> valid_length(precision as int) && on_globe(long as int, lat as int),
        match result {
            Ok(grid) => encode(long as int, lat as int, precision as int) == Ok::<
                Seq<char>,
                MHErrorView,
            >(grid@),
            Err(e) => encode(long as int, lat as int, precision as int) == Err::<
                Seq<char>,
                MHErrorView,
            >(e@),
        },
{
    match precision {
        4 | 6 | 8 | 10 => {},
        p => {
            return Err(MHError::InvalidGridLength(p));
        },
    }
    if long < -LONG_OFFSET || long > LONG_OFFSET || lat < -LAT_OFFSET || lat > LAT_OFFSET {
        return Err(MHError::InvalidLongLat(long, lat));
    }
    let east: i64 = long + LONG_OFFSET;
    let north: i64 = lat + LAT_OFFSET;
    let mut grid = String::new();
    let mut i: usize = 0;
    while i < precision
        invariant
            i <= precision <= 2 * TIERS,
            on_globe(long as int, lat as int),
            east == long + LONG_OFFSET,
            north == lat + LAT_OFFSET,
            grid@ == encoded(long as int, lat as int, i as int),
        decreases precision - i,
    {
        let tier: usize = i / 2;
        proof {
            lemma_digit_bounds(tier as int, long as int, lat as int);
        }
        let value: i64 = if i % 2 == 0 {
            if tier == 0 {
                east / LONG_MULT[0]
            } else {
                east % LONG_MULT[tier - 1] / LONG_MULT[tier]
            }
        } else {
            if tier == 0 {
                north / LAT_MULT[0]
            } else {
                north % LAT_MULT[tier - 1] / LAT_MULT[tier]
            }
        };
        grid.append(symbol(i, value));
        i += 1;
    }
    Ok(grid)
}

} // verus!
