//! Grouping-and-decision engine for removing "target" files whose
//! required "source" files are missing.
//!
//! Files are grouped by directory and filename stem; each group's set of
//! observed extensions is compared against a caller-supplied set of source
//! extensions (OR or AND policy) to decide whether the group's matching
//! files become deletion candidates.

pub mod casefold;
pub mod extset;
pub mod paths;
pub mod index;
pub mod policy;
pub mod pipeline;
pub mod traverse;
pub mod laws;
pub mod confirm;
