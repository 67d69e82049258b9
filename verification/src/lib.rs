//! A line-oriented diff library: it splits text into lines, computes a
//! minimal edit script between two line sequences, selects context-bounded
//! hunks around the changes, attaches syntax-highlight styling to the
//! surviving lines, and lays the result out as a unified patch or as a
//! padded side-by-side comparison.

pub mod colorize;
pub mod diffs;
pub mod hunks;
pub mod lines;
pub mod numbers;
pub mod render;
pub mod term;
