//! Representative colors for rectangular regions of raster images: the
//! region grammar, the geometry of a region inside a pixel grid, and the
//! textual forms of the results.

pub mod color;
pub mod decoded;
pub mod output;
pub mod region;
pub mod text;
