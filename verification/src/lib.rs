//! Wambo: decodes a single integer token (optionally signed, in binary,
//! octal, decimal or hexadecimal, optionally carrying a byte-size unit
//! suffix) and renders the value under several interpretations: numeral
//! systems, bit patterns, integer truncations and byte-size ladders.
//!
//! [`parse`] is the full decoder: it keeps sign, numeral system, digit
//! string and unit as separate fields of the record. [`decode`] is a
//! compact one-shot decoder over a smaller grammar that folds the unit
//! into the stored value. [`print`] builds the interpretation groups and
//! aligns their lines; [`text`] holds the shared normalization and
//! digit-rendering helpers.

pub mod decode;
pub mod parse;
pub mod print;
pub mod text;
