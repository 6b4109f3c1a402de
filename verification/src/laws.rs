//! What holds between decoding and encoding: the round trip, the cell that
//! holds a point, and what precision and case do.

use vstd::prelude::*;

use crate::alphabet::{
    fits_position, lemma_grid_symbol_of_symbol_value, lemma_symbol_value_of_grid_symbol,
    normalized, symbol_value, within_alphabet,
};
use crate::decoder::{
    decode, decoded_lat, decoded_long, is_locator, lemma_decode_succeeds_on_locators, raw_lat,
    raw_long,
};
use crate::encoder::{
    encode, encoded, lat_digit, lemma_digit_bounds, long_digit, position_value,
};
use crate::error::MHErrorView;
use crate::radix::{
    digit_of, lemma_digit_recovered, lemma_value_rebuilt, nested, positional, proper,
};
use crate::resolution::{
    lat_width, lemma_globe_is_whole_steps, lemma_widths, long_width, on_globe, tier_steps,
    valid_length, LAT_OFFSET, LONG_OFFSET, TIERS,
};

verus! {

/// The numbers that the locator gives for longitude, tier by tier.
spec fn long_values(s: Seq<char>) -> spec_fn(int) -> int {
    |k: int| symbol_value(2 * k, s[2 * k])
}

/// The numbers that the locator gives for latitude, tier by tier.
spec fn lat_values(s: Seq<char>) -> spec_fn(int) -> int {
    |k: int| symbol_value(2 * k + 1, s[2 * k + 1])
}

spec fn long_widths() -> spec_fn(int) -> int {
    |k: int| long_width(k)
}

spec fn lat_widths() -> spec_fn(int) -> int {
    |k: int| lat_width(k)
}

spec fn steps() -> spec_fn(int) -> int {
    |k: int| tier_steps(k)
}

/// The western edge of a cell is its longitude numbers read positionally.
proof fn lemma_raw_long_positional(s: Seq<char>, tiers: int)
    ensures
        raw_long(s, tiers) == positional(long_values(s), long_widths(), tiers),
    decreases tiers,
{
    if tiers > 0 {
        lemma_raw_long_positional(s, tiers - 1);
    }
}

/// The southern edge of a cell is its latitude numbers read positionally.
proof fn lemma_raw_lat_positional(s: Seq<char>, tiers: int)
    ensures
        raw_lat(s, tiers) == positional(lat_values(s), lat_widths(), tiers),
    decreases tiers,
{
    if tiers > 0 {
        lemma_raw_lat_positional(s, tiers - 1);
    }
}

/// Both width tables nest, each tier in the one above it.
proof fn lemma_tables_nest(tiers: int)
    requires
        0 <= tiers <= TIERS,
    ensures
        nested(long_widths(), steps(), tiers),
        nested(lat_widths(), steps(), tiers),
{
    assert forall|k: int| 0 <= k < tiers implies #[trigger] long_widths()(k) > 0
        && #[trigger] lat_widths()(k) > 0 by {
        lemma_widths(k);
    }
    assert forall|k: int| 0 < k < tiers implies long_widths()(k - 1) == steps()(k)
        * #[trigger] long_widths()(k) by {
        lemma_widths(k);
    }
    assert forall|k: int| 0 < k < tiers implies lat_widths()(k - 1) == steps()(k)
        * #[trigger] lat_widths()(k) by {
        lemma_widths(k);
    }
}

/// The numbers of a locator within the alphabet are steps of their tiers.
proof fn lemma_locator_is_positional(s: Seq<char>)
    requires
        is_locator(s),
        within_alphabet(s),
    ensures
        proper(long_values(s), steps(), s.len() as int / 2),
        proper(lat_values(s), steps(), s.len() as int / 2),
{
    let tiers = s.len() as int / 2;
    assert forall|k: int| 0 <= k < tiers implies 0 <= #[trigger] long_values(s)(k) < steps()(k) by {
        assert(fits_position(2 * k, s[2 * k]));
        assert(symbol_value(2 * k, s[2 * k]) < tier_steps((2 * k) / 2));
    }
    assert forall|k: int| 0 <= k < tiers implies 0 <= #[trigger] lat_values(s)(k) < steps()(k) by {
        assert(fits_position(2 * k + 1, s[2 * k + 1]));
        assert(symbol_value(2 * k + 1, s[2 * k + 1]) < tier_steps((2 * k + 1) / 2));
    }
}

/// The centre of the cell of a locator within the alphabet lies on the globe,
/// and each step of it is the number that the locator holds at that place.
proof fn lemma_centre_steps(s: Seq<char>, i: int)
    requires
        is_locator(s),
        within_alphabet(s),
        0 <= i < s.len(),
    ensures
        -LONG_OFFSET <= decoded_long(s) < LONG_OFFSET,
        -LAT_OFFSET <= decoded_lat(s) < LAT_OFFSET,
        position_value(i, decoded_long(s), decoded_lat(s)) == symbol_value(i, s[i]),
{
    let tiers = s.len() as int / 2;
    let tier = i / 2;
    lemma_tables_nest(tiers);
    lemma_locator_is_positional(s);
    lemma_widths(tiers - 1);
    lemma_widths(0);
    lemma_raw_long_positional(s, tiers);
    lemma_raw_lat_positional(s, tiers);
    lemma_digit_recovered(
        long_values(s),
        long_widths(),
        steps(),
        tiers,
        tier,
        long_width(tiers - 1) / 2,
    );
    lemma_digit_recovered(
        lat_values(s),
        lat_widths(),
        steps(),
        tiers,
        tier,
        lat_width(tiers - 1) / 2,
    );
    assert(long_digit(tier, decoded_long(s) + LONG_OFFSET) == long_values(s)(tier));
    assert(lat_digit(tier, decoded_lat(s) + LAT_OFFSET) == lat_values(s)(tier));
}

/// Decoding a locator and encoding the result at the locator's own length
/// gives the locator back, each letter in the case in which the encoder
/// writes it. This holds of every locator within the alphabet of the
/// encoding; a letter beyond it names a cell that lies off the globe or in
/// a neighbouring step, and the encoder names that cell in its own way.
pub proof fn lemma_round_trip(s: Seq<char>)
    requires
        is_locator(s),
        within_alphabet(s),
    ensures
        decode(s) == Ok::<(int, int), MHErrorView>((decoded_long(s), decoded_lat(s))),
        on_globe(decoded_long(s), decoded_lat(s)),
        encode(decoded_long(s), decoded_lat(s), s.len() as int) == Ok::<Seq<char>, MHErrorView>(
            normalized(s),
        ),
{
    lemma_decode_succeeds_on_locators(s);
    lemma_centre_steps(s, 0);
    let (long, lat) = (decoded_long(s), decoded_lat(s));
    assert forall|i: int| 0 <= i < s.len() implies encoded(long, lat, s.len() as int)[i]
        == normalized(s)[i] by {
        lemma_centre_steps(s, i);
        lemma_grid_symbol_of_symbol_value(i, s[i]);
    }
    assert(encoded(long, lat, s.len() as int) =~= normalized(s));
}

/// What the encoder writes is a locator whose numbers are the steps of the
/// point, and the centre of its cell is the point moved to the middle of the
/// step of the finest tier written in which it lies.
proof fn lemma_encoded_centre(long: int, lat: int, precision: int)
    requires
        valid_length(precision),
        on_globe(long, lat),
    ensures
        ({
            let grid = encoded(long, lat, precision);
            let finest = precision / 2 - 1;
            &&& is_locator(grid)
            &&& forall|i: int|
                0 <= i < precision ==> #[trigger] symbol_value(i, grid[i]) == position_value(
                    i,
                    long,
                    lat,
                )
            &&& decoded_long(grid) == long - (long + LONG_OFFSET) % long_width(finest)
                + long_width(finest) / 2
            &&& decoded_lat(grid) == lat - (lat + LAT_OFFSET) % lat_width(finest) + lat_width(
                finest,
            ) / 2
        }),
{
    let grid = encoded(long, lat, precision);
    let tiers = precision / 2;
    let (east, north) = (long + LONG_OFFSET, lat + LAT_OFFSET);
    assert forall|i: int| 0 <= i < precision implies fits_position(i, #[trigger] grid[i])
        && symbol_value(i, grid[i]) == position_value(i, long, lat) by {
        lemma_digit_bounds(i / 2, long, lat);
        lemma_symbol_value_of_grid_symbol(i, position_value(i, long, lat));
    }
    assert forall|k: int| 0 <= k < tiers implies #[trigger] long_values(grid)(k) == digit_of(
        long_widths(),
        k,
        east,
    ) by {
        assert(symbol_value(2 * k, grid[2 * k]) == position_value(2 * k, long, lat));
    }
    assert forall|k: int| 0 <= k < tiers implies #[trigger] lat_values(grid)(k) == digit_of(
        lat_widths(),
        k,
        north,
    ) by {
        assert(symbol_value(2 * k + 1, grid[2 * k + 1]) == position_value(2 * k + 1, long, lat));
    }
    lemma_tables_nest(tiers);
    lemma_raw_long_positional(grid, tiers);
    lemma_raw_lat_positional(grid, tiers);
    lemma_value_rebuilt(long_values(grid), long_widths(), steps(), tiers, east);
    lemma_value_rebuilt(lat_values(grid), lat_widths(), steps(), tiers, north);
}

/// The locator that the encoder writes names the cell in which the point
/// lies: it is a locator, and the point is no more than half a step of the
/// finest tier written west and south of the centre that the decoder gives
/// for it, and less than half a step east and north.
pub proof fn lemma_encoded_cell_holds_point(long: int, lat: int, precision: int)
    requires
        valid_length(precision),
        on_globe(long, lat),
    ensures
        ({
            let grid = encoded(long, lat, precision);
            let half_long = long_width(precision / 2 - 1) / 2;
            let half_lat = lat_width(precision / 2 - 1) / 2;
            &&& is_locator(grid)
            &&& decoded_long(grid) - half_long <= long < decoded_long(grid) + half_long
            &&& decoded_lat(grid) - half_lat <= lat < decoded_lat(grid) + half_lat
        }),
{
    lemma_encoded_centre(long, lat, precision);
    lemma_widths(precision / 2 - 1);
}

/// The edges of a cell do not depend on the case of the letters.
proof fn lemma_raw_of_normalized(s: Seq<char>, tiers: int)
    requires
        0 <= 2 * tiers <= s.len(),
        forall|i: int| 0 <= i < s.len() ==> fits_position(i, #[trigger] s[i]),
    ensures
        raw_long(normalized(s), tiers) == raw_long(s, tiers),
        raw_lat(normalized(s), tiers) == raw_lat(s, tiers),
    decreases tiers,
{
    if tiers > 0 {
        lemma_raw_of_normalized(s, tiers - 1);
        assert(fits_position(2 * tiers - 2, s[2 * tiers - 2]));
        assert(fits_position(2 * tiers - 1, s[2 * tiers - 1]));
    }
}

/// A locator names the same cell in whatever case its letters are written:
/// in the case in which the encoder writes them it is a locator still, and
/// decodes to the same centre.
pub proof fn lemma_case_does_not_matter(s: Seq<char>)
    requires
        is_locator(s),
    ensures
        is_locator(normalized(s)),
        within_alphabet(normalized(s)) <==> within_alphabet(s),
        decode(normalized(s)) == decode(s),
{
    let n = normalized(s);
    assert forall|i: int| 0 <= i < s.len() implies fits_position(i, #[trigger] n[i])
        && symbol_value(i, n[i]) == symbol_value(i, s[i]) by {
        assert(fits_position(i, s[i]));
    }
    assert(within_alphabet(n) <==> within_alphabet(s)) by {
        if within_alphabet(s) {
            assert forall|i: int| 0 <= i < n.len() implies #[trigger] symbol_value(i, n[i])
                < tier_steps(i / 2) by {
                assert(symbol_value(i, s[i]) < tier_steps(i / 2));
            }
        }
        if within_alphabet(n) {
            assert forall|i: int| 0 <= i < s.len() implies #[trigger] symbol_value(i, s[i])
                < tier_steps(i / 2) by {
                assert(symbol_value(i, n[i]) < tier_steps(i / 2));
            }
        }
    }
    lemma_raw_of_normalized(s, s.len() as int / 2);
    lemma_decode_succeeds_on_locators(s);
    lemma_decode_succeeds_on_locators(n);
}

/// The round trip holds of no other locator: where a symbol lies beyond the
/// alphabet, encoding the centre of the cell does not give the locator back
/// in any case of its letters.
pub proof fn lemma_round_trip_needs_alphabet(s: Seq<char>)
    requires
        is_locator(s),
        !within_alphabet(s),
    ensures
        encode(decoded_long(s), decoded_lat(s), s.len() as int) != Ok::<Seq<char>, MHErrorView>(
            normalized(s),
        ),
{
    let (long, lat) = (decoded_long(s), decoded_lat(s));
    let precision = s.len() as int;
    if encode(long, lat, precision) == Ok::<Seq<char>, MHErrorView>(normalized(s)) {
        let finest = precision / 2 - 1;
        // Then the centre is that of the cell written, so it lies in the
        // middle of a step of the finest tier ...
        lemma_encoded_centre(long, lat, precision);
        lemma_case_does_not_matter(s);
        lemma_decode_succeeds_on_locators(s);
        assert((long + LONG_OFFSET) % long_width(finest) == long_width(finest) / 2);
        assert((lat + LAT_OFFSET) % lat_width(finest) == lat_width(finest) / 2);
        // ... and the symbol beyond the alphabet is a step of the point,
        // which only the edge of the globe has, where no step is halved.
        let i = choose|i: int| 0 <= i < s.len() && symbol_value(i, s[i]) >= tier_steps(i / 2);
        assert(fits_position(i, s[i]));
        assert(symbol_value(i, normalized(s)[i]) == symbol_value(i, s[i]));
        lemma_digit_bounds(i / 2, long, lat);
        lemma_globe_is_whole_steps(finest);
        assert(false);
    }
}

/// A shorter locator of a point is the beginning of each longer one.
pub proof fn lemma_precision_truncates(long: int, lat: int, shorter: int, longer: int)
    requires
        0 <= shorter <= longer,
    ensures
        encoded(long, lat, shorter) == encoded(long, lat, longer).take(shorter),
{
    assert(encoded(long, lat, shorter) =~= encoded(long, lat, longer).take(shorter));
}

/// A precision other than 4, 6, 8 or 10 is refused whatever the point, on the
/// globe or off it.
pub proof fn lemma_precision_judged_first(long: int, lat: int, precision: int)
    requires
        !valid_length(precision),
    ensures
        encode(long, lat, precision) == Err::<Seq<char>, MHErrorView>(
            MHErrorView::InvalidGridLength(precision),
        ),
{
}

} // verus!
