//! Font inspection and subsetting: how a subset's character set is built
//! from text and presets of Unicode blocks, where the subset is written, the
//! command line, and the font metadata report.
pub mod charset;
pub mod cli;
pub mod names;
pub mod path;
pub mod preset;
pub mod report;
