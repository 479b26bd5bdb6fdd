//! Conversion of gridded, track-based layout into raw geometry.
//!
//! A [`cell::Library`] describes cells on a regular grid: outlines in units of a primitive pitch,
//! instances of other cells, and cuts and net assignments on the tracks of a metal stack.
//! [`rawconv::RawConverter`] turns it into a [`raw::Library`] of rectangles and polygons.

pub mod abstrakt;
pub mod cell;
pub mod coords;
pub mod edits;
pub mod error;
pub mod failures;
pub mod laws;
pub mod model;
pub mod operations;
pub mod outline;
pub mod raw;
pub mod rawconv;
pub mod results;
pub mod slots;
pub mod stack;
pub mod temp;
pub mod tracks;
pub mod units;
pub mod validate;
mod vecs;
