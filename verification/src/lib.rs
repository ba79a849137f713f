//! Splitting a stream of concatenated documents into numbered output files.
//!
//! A line of three dashes starts a document and a line of three dots ends
//! one, each with nothing but spaces behind it; every other line is content
//! of the document that is open, and opens one where none is.
//!
//! - `names`: the base name and extension of the input, and the names of
//!   the output files.
//! - `input`: standard input or a file, and the names that follow from it.
//! - `markers`: the two patterns, compiled by the `regex` crate.
//! - `splitter`: the state machine that takes the stream line by line.
//! - `stream`: a whole stream split in memory, and what holds of every split.
pub mod input;
pub mod markers;
pub mod names;
pub mod splitter;
pub mod stream;
