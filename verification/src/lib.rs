//! Line-oriented comparison of two token sequences.
//!
//! [`diff::diff`] aligns two sequences along a longest common subsequence and
//! labels every token as removed, added or unchanged; [`hunk::get_hunks`]
//! groups that script into hunks with their line numbers on both sides; and
//! [`printer`] turns the hunks into the lines of a normal or a unified
//! listing, painted as [`config::Config`] says.
//!
//! What an edit script and its hunks are is defined over `Seq` in [`diff`]
//! and [`hunk`]. [`diff_lemmas`] and [`hunk_lemmas`] prove what follows from
//! those definitions for every input.

pub mod color;
pub mod config;
pub mod diff;
pub mod diff_lemmas;
pub mod hunk;
pub mod hunk_lemmas;
pub mod printer;
