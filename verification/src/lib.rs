//! A line-based diff library.
//!
//! Two text files are compared line by line: a dynamic-programming table
//! ([`grid::Grid`]) is filled with longest-common-subsequence lengths
//! ([`lcs::lcs`]), and a diff is reconstructed from the table by walking it
//! backward from the bottom-right corner ([`diff::diff`]).

pub mod diff;
pub mod grid;
pub mod lcs;
