//! Functionality for working with gaps/holes in ordered sequences of
//! values.
//!
//! Given an ascending sequence of discrete values and a query range, the
//! library produces, lazily, every maximal sub-range of the query range
//! that contains none of the sequence's values. The endpoints of ranges
//! are [`core::ops::Bound`] values, and the subtle part of the work is
//! the comparison algebra on such endpoints: an excluded endpoint at a
//! value touches an included endpoint at that value's successor, and the
//! comparators must account for it.

pub mod bounds;
pub mod gaps;
pub mod inc;
pub mod range;

pub use crate::gaps::GapIter;
pub use crate::gaps::Gappable;
pub use crate::gaps::RangeGappable;
pub use crate::inc::Inc;
