//! Verified core of an esports statistics harvester.
//!
//! The library holds the logic of the pipeline: score parsing, per-game URL
//! derivation, HTML table selection and roster attribution, the bracketed
//! roster text format with its parser, season grouping, and the assembly of
//! the delimited output files.  Network and file I/O live outside the
//! library and hand it plain values.

pub mod text;
pub mod score;
pub mod html;
pub mod codec;
pub mod rosters;
pub mod matches;
pub mod writer;
pub mod seasons;
