//! Extraction of a geographic subset of map tiles from a tile archive.
//!
//! The archive holds a `metadata` table of name/value pairs and a `tiles`
//! table keyed by zoom level, column and row (rows counted from the south).
//! The core of the library is the conversion of a geographic bounding box,
//! given in degrees, into per-zoom tile index rectangles, together with the
//! policy that copies the matching rows into a freshly created archive.

pub mod errors;
pub mod mapper;
pub mod numtext;
pub mod parse;
pub mod store;
pub mod extract;
