//! Finds `X.Y.Z` version numbers in text and increments one component of a
//! chosen occurrence, or of every occurrence.

pub mod numeral;
pub mod pattern;
pub mod rewrite;
pub mod laws;

pub use pattern::list_versions;
pub use rewrite::{inc, inc_with_notices, IncError, Position, Version};
