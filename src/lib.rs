//! Decision logic of a triangle solver with lazily derived properties.
//!
//! `solver` decides, from which sides and angles are known, how the three
//! side lengths are to be obtained. `cache` holds the memo slots of the
//! derived quantities and the order in which they may be computed.
pub mod cache;
pub mod solver;
