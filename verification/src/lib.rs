//! Maidenhead grid-square locators in exact fixed-point arithmetic.
//!
//! A locator such as `FM18lv53SL` names a rectangular cell of the Earth's
//! surface by up to five pairs of characters, each pair refining the cell of
//! the pair before it. This crate decodes locators to coordinates, encodes
//! coordinates as locators, and measures the displacement between two
//! locators, with every function verified against a mathematical model of the
//! encoding.
//!
//! Coordinates are signed integers counted in units of 1/36 000 000 of a
//! degree (one ten-thousandth of an arcsecond). In that unit every tier width
//! and every half width of the encoding is a whole number, and so is every
//! coordinate given in decimal degrees to six places, so decoding and
//! encoding are exact and the round trip between them can be proved.

pub mod alphabet;
pub mod ascii;
pub mod decoder;
pub mod encoder;
pub mod error;
pub mod geodesy;
pub mod laws;
pub mod radix;
pub mod resolution;

pub use decoder::grid_to_longlat;
pub use encoder::longlat_to_grid;
pub use error::{MHError, MHErrorView};
pub use geodesy::{grid_displacement, Displacement, DisplacementView};
pub use resolution::{
    LAT_MULT, LAT_OFFSET, LONG_MULT, LONG_OFFSET, TIERS, UNITS_PER_DEGREE,
};
