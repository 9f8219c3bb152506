//! Compact, unambiguous rendering of filesystem paths for a shell prompt.
//!
//! Intermediate directory names are cut down to their first grapheme cluster
//! (two for hidden directories) unless that would make them indistinguishable
//! from a sibling directory; the final directory is always shown in full.

pub mod compress;
pub mod config;
pub mod laws;
pub mod module;
pub mod probe;
pub mod segment;
pub mod shorten;
pub mod text;
