//! Histograms of byte values.
//!
//! A stream of bytes is counted into a table of 256 buckets, one per byte
//! value, and the table is rendered as text: a summary line with the range of
//! the relative frequencies, then one line per byte value with a bar whose
//! length is proportional to the value's share of the stream.
//!
//! Every function here is verified: the counting against the number of
//! occurrences of each value in the bytes consumed, the bars and percentages
//! against exact rational arithmetic, and the text against its layout.

pub mod accumulate;
pub mod cli;
pub mod render;
pub mod scale;
pub mod table;
pub mod text;
