//! The displacement between two cells, from which distance and bearing are
//! computed.

use vstd::prelude::*;

use crate::decoder::{
    decode, decoded_lat, grid_to_longlat, is_locator, lemma_decode_succeeds_on_locators,
    lemma_decoded_range,
};
use crate::error::{MHError, MHErrorView};

verus! {

/// What the great-circle formulas take from a path between two points: the
/// latitudes of its ends and the differences of longitude and latitude from
/// the start to the end, all in units.
#[derive(Debug, PartialEq, Eq)]
pub struct Displacement {
    /// Latitude of the start.
    pub from_lat: i64,
    /// Latitude of the end.
    pub to_lat: i64,
    /// Longitude of the end less that of the start.
    pub delta_long: i64,
    /// Latitude of the end less that of the start.
    pub delta_lat: i64,
}

/// The mathematical content of a [`Displacement`].
pub struct DisplacementView {
    pub from_lat: int,
    pub to_lat: int,
    pub delta_long: int,
    pub delta_lat: int,
}

impl View for Displacement {
    type V = DisplacementView;

    open spec fn view(&self) -> DisplacementView {
        DisplacementView {
            from_lat: self.from_lat as int,
            to_lat: self.to_lat as int,
            delta_long: self.delta_long as int,
            delta_lat: self.delta_lat as int,
        }
    }
}

/// The displacement between the centres of two cells. Where a locator is
/// refused, the error is that of the decoder, unchanged; where both are, it
/// is that of the start.
pub open spec fn displacement(from: Seq<char>, to: Seq<char>) -> Result<
    DisplacementView,
    MHErrorView,
> {
    match (decode(from), decode(to)) {
        (Err(e), _) => Err(e),
        (Ok(_), Err(e)) => Err(e),
        (Ok(start), Ok(end)) => Ok(
            DisplacementView {
                from_lat: start.1,
                to_lat: end.1,
                delta_long: end.0 - start.0,
                delta_lat: end.1 - start.1,
            },
        ),
    }
}

/// Decodes the two ends of a path and measures the displacement from the
/// centre of the first cell to the centre of the second. The locators need
/// not have the same length.
pub fn grid_displacement(from: &str, to: &str) -> (result: Result<Displacement, MHError>)
    ensures
        result is Ok <==> is_locator(from@) && is_locator(to@),
        match result {
            Ok(d) => displacement(from@, to@) == Ok::<DisplacementView, MHErrorView>(d@),
            Err(e) => displacement(from@, to@) == Err::<DisplacementView, MHErrorView>(e@),
        },
{
    let start = match grid_to_longlat(from) {
        Ok(point) => point,
        Err(e) => {
            return Err(e);
        },
    };
    let end = match grid_to_longlat(to) {
        Ok(point) => point,
        Err(e) => {
            return Err(e);
        },
    };
    proof {
        lemma_decoded_range(from@);
        lemma_decoded_range(to@);
    }
    Ok(
        Displacement {
            from_lat: start.1,
            to_lat: end.1,
            delta_long: end.0 - start.0,
            delta_lat: end.1 - start.1,
        },
    )
}

/// From a cell to itself there is no displacement: whatever the locator,
/// both differences are zero and the two latitudes are one, so that the
/// great-circle distance is that of a point from itself.
pub proof fn lemma_no_displacement_to_itself(grid: Seq<char>)
    requires
        is_locator(grid),
    ensures
        displacement(grid, grid) == Ok::<DisplacementView, MHErrorView>(
            DisplacementView {
                from_lat: decoded_lat(grid),
                to_lat: decoded_lat(grid),
                delta_long: 0,
                delta_lat: 0,
            },
        ),
{
    lemma_decode_succeeds_on_locators(grid);
}

} // verus!
