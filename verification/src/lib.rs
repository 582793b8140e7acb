//! A JSON-like document value model with a verified recursive builder.
//!
//! The heart of the crate is the tagged document tree [`json::Json`], its
//! mathematical model [`json::JsonVal`], the literal-description grammar
//! [`builder::JsonExpr`] with the builder [`builder::build`], the scalar
//! coercion layer [`coerce::ToJson`], and structural equality
//! [`eq::json_eq`]. Around it stand smaller verified utilities: integer to
//! double-bit encodings, decimal and phrase formatting, a character canvas,
//! regex-backed text replacement, and a handful of small algorithms.

pub mod adder;
pub mod arith;
pub mod builder;
pub mod canvas;
pub mod coerce;
pub mod eq;
pub mod json;
pub mod misc;
pub mod number;
pub mod replace;
pub mod text;
