//! Shift every timestamp in a subtitle file by a fixed millisecond offset.
//!
//! The library has four parts:
//! - `text`: spec-level and executable helpers for scanning characters,
//!   trimming whitespace and reading decimal digits;
//! - `timecode`: the `HH:MM:SS,mmm` timecode value, with parsing, exact
//!   millisecond conversion, shifting and formatting;
//! - `rewriter`: the line-classification state machine that walks a subtitle
//!   file one line at a time and rewrites exactly the timecode lines;
//! - `args`: validation of the command-line values that a caller hands in.

pub mod args;
pub mod rewriter;
pub mod text;
pub mod timecode;
