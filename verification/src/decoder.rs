//! From a locator to the centre of its cell.

use vstd::prelude::*;
use vstd::utf8::{encode_utf8, is_ascii_chars, is_ascii_chars_encode_utf8};

use crate::alphabet::{byte_fits, byte_value, fits_position, symbol_value};
use crate::ascii::{lemma_ascii_prefix, lemma_bytes_outnumber_chars};
use crate::error::{MHError, MHErrorView};
use crate::resolution::{
    lat_width, long_width, valid_length, LAT_MULT, LAT_OFFSET, LONG_MULT, LONG_OFFSET, TIERS,
};

verus! {

/// Every character among the first ten belongs to the class of its position.
pub open spec fn well_formed_prefix(s: Seq<char>) -> bool {
    forall|i: int| 0 <= i < s.len() && i < 10 ==> fits_position(i, #[trigger] s[i])
}

/// A locator: 4, 6, 8 or 10 characters, each of the class of its position.
pub open spec fn is_locator(s: Seq<char>) -> bool {
    &&& valid_length(s.len() as int)
    &&& forall|i: int| 0 <= i < s.len() ==> fits_position(i, #[trigger] s[i])
}

/// Longitude of the western edge of the cell that the first `tiers` pairs of
/// `s` name, counted east from the antimeridian.
pub open spec fn raw_long(s: Seq<char>, tiers: int) -> int
    decreases tiers,
{
    if tiers <= 0 {
        0
    } else {
        raw_long(s, tiers - 1) + symbol_value(2 * tiers - 2, s[2 * tiers - 2]) * long_width(
            tiers - 1,
        )
    }
}

/// Latitude of the southern edge of the cell that the first `tiers` pairs of
/// `s` name, counted north from the south pole.
pub open spec fn raw_lat(s: Seq<char>, tiers: int) -> int
    decreases tiers,
{
    if tiers <= 0 {
        0
    } else {
        raw_lat(s, tiers - 1) + symbol_value(2 * tiers - 1, s[2 * tiers - 1]) * lat_width(
            tiers - 1,
        )
    }
}

/// Longitude of the centre of the cell that `s` names.
pub open spec fn decoded_long(s: Seq<char>) -> int {
    let tiers = s.len() as int / 2;
    raw_long(s, tiers) + long_width(tiers - 1) / 2 - LONG_OFFSET
}

/// Latitude of the centre of the cell that `s` names.
pub open spec fn decoded_lat(s: Seq<char>) -> int {
    let tiers = s.len() as int / 2;
    raw_lat(s, tiers) + lat_width(tiers - 1) / 2 - LAT_OFFSET
}

/// What decoding `s` gives. The classes of the characters are judged before
/// the length, and the length is that of the string in bytes.
pub open spec fn decode(s: Seq<char>) -> Result<(int, int), MHErrorView> {
    if !well_formed_prefix(s) {
        Err(MHErrorView::InvalidGrid(s))
    } else if !valid_length(encode_utf8(s).len() as int) {
        Err(MHErrorView::InvalidGridLength(encode_utf8(s).len() as int))
    } else {
        Ok((decoded_long(s), decoded_lat(s)))
    }
}

/// A string made of letters and digits in their places has one byte to the
/// character.
proof fn lemma_one_byte_each(s: Seq<char>)
    requires
        forall|i: int| 0 <= i < s.len() ==> fits_position(i, #[trigger] s[i]),
    ensures
        encode_utf8(s).len() == s.len(),
{
    assert(is_ascii_chars(s)) by {
        assert forall|i: int| 0 <= i < s.len() implies '\0' <= #[trigger] s[i] <= '\u{7f}' by {
            assert(fits_position(i, s[i]));
        }
    }
    is_ascii_chars_encode_utf8(s);
}

/// Decoding succeeds on the locators and on nothing else.
pub proof fn lemma_decode_succeeds_on_locators(s: Seq<char>)
    ensures
        decode(s) is Ok <==> is_locator(s),
{
    if is_locator(s) {
        lemma_one_byte_each(s);
    }
    if decode(s) is Ok {
        // No more than ten bytes, so no more than ten characters, each of
        // which was judged.
        lemma_bytes_outnumber_chars(s);
        lemma_one_byte_each(s);
    }
}

/// Each tier moves the edges of a cell by less than 26 steps of at most 20
/// degrees of longitude and 10 of latitude.
proof fn lemma_raw_bounds(s: Seq<char>, tiers: int)
    requires
        0 <= tiers <= TIERS,
        forall|i: int| 0 <= i < 2 * tiers ==> fits_position(i, #[trigger] s[i]),
    ensures
        0 <= raw_long(s, tiers) <= tiers * 18_000_000_000,
        0 <= raw_lat(s, tiers) <= tiers * 9_000_000_000,
    decreases tiers,
{
    if tiers > 0 {
        lemma_raw_bounds(s, tiers - 1);
        let v = symbol_value(2 * tiers - 2, s[2 * tiers - 2]);
        let w = symbol_value(2 * tiers - 1, s[2 * tiers - 1]);
        assert(fits_position(2 * tiers - 2, s[2 * tiers - 2]));
        assert(fits_position(2 * tiers - 1, s[2 * tiers - 1]));
        assert(0 <= v * long_width(tiers - 1) <= 18_000_000_000) by (nonlinear_arith)
            requires
                0 <= v < 26,
                0 < long_width(tiers - 1) <= 720_000_000,
        ;
        assert(0 <= w * lat_width(tiers - 1) <= 9_000_000_000) by (nonlinear_arith)
            requires
                0 <= w < 26,
                0 < lat_width(tiers - 1) <= 360_000_000,
        ;
    }
}

/// The centre of every cell that the decoder accepts lies in a range in which
/// sums and differences of coordinates are far from the limits of `i64`.
pub(crate) proof fn lemma_decoded_range(s: Seq<char>)
    requires
        decode(s) is Ok,
    ensures
        -LONG_OFFSET <= decoded_long(s) <= 100_000_000_000,
        -LAT_OFFSET <= decoded_lat(s) <= 50_000_000_000,
{
    lemma_decode_succeeds_on_locators(s);
    lemma_raw_bounds(s, s.len() as int / 2);
}

/// Converts a Maidenhead locator to the longitude and latitude of the centre
/// of its cell, in units.
///
/// The locator must have 4, 6, 8 or 10 characters: letters in the field, the
/// subsquare and the superextended square, in either case, and digits in the
/// square and the extended square. A string with a character of the wrong
/// class among its first ten is refused as `InvalidGrid`; a well-formed one of
/// another length as `InvalidGridLength`, with its length in bytes.
pub fn grid_to_longlat(grid: &str) -> (result: Result<(i64, i64), MHError>)
    ensures
        result is Ok <==> is_locator(grid@),
        match result {
            Ok(point) => decode(grid@) == Ok::<(int, int), MHErrorView>(
                (point.0 as int, point.1 as int),
            ),
            Err(e) => decode(grid@) == Err::<(int, int), MHErrorView>(e@),
        },
{
    proof {
        lemma_decode_succeeds_on_locators(grid@);
    }
    let bytes = grid.as_bytes();
    let len: usize = bytes.len();
    let checked: usize = if len < 10 {
        len
    } else {
        10
    };
    let mut i: usize = 0;
    while i < checked
        invariant
            i <= checked <= len,
            checked <= 10,
            len == bytes@.len(),
            bytes@ == encode_utf8(grid@),
            forall|j: int| 0 <= j < i ==> fits_position(j, #[trigger] bytes@[j] as char),
        decreases checked - i,
    {
        if !byte_fits(i, bytes[i]) {
            proof {
                assert forall|j: int| 0 <= j < i implies encode_utf8(grid@)[j] < 128 by {
                    assert(fits_position(j, bytes@[j] as char));
                }
                lemma_ascii_prefix(grid@, i as int);
                assert(!fits_position(i as int, grid@[i as int]));
            }
            return Err(MHError::InvalidGrid(grid.to_owned()));
        }
        i += 1;
    }
    proof {
        assert forall|j: int| 0 <= j < checked implies encode_utf8(grid@)[j] < 128 by {
            assert(fits_position(j, bytes@[j] as char));
        }
        lemma_ascii_prefix(grid@, checked as int);
        lemma_bytes_outnumber_chars(grid@);
        assert forall|j: int| 0 <= j < grid@.len() && j < 10 implies fits_position(
            j,
            #[trigger] grid@[j],
        ) by {
            assert(fits_position(j, bytes@[j] as char));
        }
    }
    match len {
        4 | 6 | 8 | 10 => {},
        l => {
            return Err(MHError::InvalidGridLength(l));
        },
    }
    let tiers: usize = len / 2;
    let mut long: i64 = 0;
    let mut lat: i64 = 0;
    let mut tier: usize = 0;
    while tier < tiers
        invariant
            tier <= tiers <= TIERS,
            len == 2 * tiers,
            len == bytes@.len(),
            len == grid@.len(),
            forall|j: int| 0 <= j < len ==> grid@[j] == #[trigger] bytes@[j] as char,
            forall|j: int| 0 <= j < len ==> fits_position(j, #[trigger] grid@[j]),
            long == raw_long(grid@, tier as int),
            lat == raw_lat(grid@, tier as int),
        decreases tiers - tier,
    {
        proof {
            lemma_raw_bounds(grid@, tier + 1);
        }
        let long_value: i64 = byte_value(2 * tier, bytes[2 * tier]);
        let lat_value: i64 = byte_value(2 * tier + 1, bytes[2 * tier + 1]);
        assert(0 <= long_value * LONG_MULT[tier as int] <= 18_000_000_000) by (nonlinear_arith)
            requires
                0 <= long_value < 26,
                0 < LONG_MULT[tier as int] <= 720_000_000,
        ;
        assert(0 <= lat_value * LAT_MULT[tier as int] <= 9_000_000_000) by (nonlinear_arith)
            requires
                0 <= lat_value < 26,
                0 < LAT_MULT[tier as int] <= 360_000_000,
        ;
        long = long + long_value * LONG_MULT[tier];
        lat = lat + lat_value * LAT_MULT[tier];
        tier += 1;
    }
    proof {
        lemma_raw_bounds(grid@, tiers as int);
    }
    // Move from the corner of the cell to its centre, then to signed degrees.
    let long: i64 = long + LONG_MULT[tiers - 1] / 2 - LONG_OFFSET;
    let lat: i64 = lat + LAT_MULT[tiers - 1] / 2 - LAT_OFFSET;
    Ok((long, lat))
}

} // verus!
