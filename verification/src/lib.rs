//! A vector-glyph synthesis engine for CJK ideographs.
//!
//! A glyph is described by a compact textual record: a `$`-separated list of
//! lines, each line a `:`-separated list of numeric fields (one field holds a
//! component name).  The library parses such records, expands component
//! references recursively, analyses the strokes of a glyph, and maintains the
//! set of filled polygons that render it, together with their affine region
//! transforms and SVG/EPS serialization.
//!
//! All coordinates in this crate are integers.  Glyph descriptions use whole
//! design units (the design space is a 200 x 200 grid); every numeric field of
//! a record is floored to an integer when parsed.  Polygons store their
//! coordinates in tenths of a design unit, which gives the one decimal digit
//! of fixed-point resolution that the affine mutators preserve.

pub mod adjust;
pub mod component;
pub mod font;
pub mod geom;
pub mod kage;
pub mod line;
pub mod polygon;
pub mod polygons;
pub mod text;
