//! The errors of the crate.

use vstd::prelude::*;

verus! {

/// Why a locator or a coordinate pair was rejected.
#[derive(Debug, PartialEq, Eq)]
pub enum MHError {
    /// A character of the locator does not belong to the class of its
    /// position. Holds the locator as it was given.
    InvalidGrid(String),
    /// The length is not 4, 6, 8 or 10. Holds the length that was given: for a
    /// locator its length in bytes, for an encoding the precision asked for.
    InvalidGridLength(usize),
    /// Longitude or latitude lies outside the globe. Holds both, in units.
    InvalidLongLat(i64, i64),
    /// A symbol of a locator could not be formed. No function of this crate
    /// returns it: the encoder proves that every symbol it forms exists.
    Unknown,
}

/// The mathematical content of an [`MHError`].
pub enum MHErrorView {
    InvalidGrid(Seq<char>),
    InvalidGridLength(int),
    InvalidLongLat(int, int),
    Unknown,
}

impl View for MHError {
    type V = MHErrorView;

    open spec fn view(&self) -> MHErrorView {
        match self {
            MHError::InvalidGrid(grid) => MHErrorView::InvalidGrid(grid@),
            MHError::InvalidGridLength(len) => MHErrorView::InvalidGridLength(*len as int),
            MHError::InvalidLongLat(long, lat) => MHErrorView::InvalidLongLat(
                *long as int,
                *lat as int,
            ),
            MHError::Unknown => MHErrorView::Unknown,
        }
    }
}

} // verus!
