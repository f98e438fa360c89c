//! Utility functionality for working with ranges: canonicalization of
//! any range representation into an explicit pair of bounds.

use vstd::prelude::*;
use core::ops::Bound;
use core::ops::Bound::Excluded;
use core::ops::Bound::Included;
use core::ops::Bound::Unbounded;
use core::ops::Range;
use core::ops::RangeFrom;
use core::ops::RangeFull;
use core::ops::RangeInclusive;
use core::ops::RangeTo;
use core::ops::RangeToInclusive;

verus! {

/// Declares `core::ops::RangeFrom` (`a..`), whose public `start` field
/// holds its one endpoint.
#[verifier::external_type_specification]
#[verifier::reject_recursive_types(Idx)]
pub struct ExRangeFrom<Idx>(RangeFrom<Idx>);

/// Declares `core::ops::RangeTo` (`..b`), whose public `end` field
/// holds its one endpoint.
#[verifier::external_type_specification]
#[verifier::reject_recursive_types(Idx)]
pub struct ExRangeTo<Idx>(RangeTo<Idx>);

/// Declares `core::ops::RangeToInclusive` (`..=b`), whose public `end`
/// field holds its one endpoint.
#[verifier::external_type_specification]
#[verifier::reject_recursive_types(Idx)]
pub struct ExRangeToInclusive<Idx>(RangeToInclusive<Idx>);

/// Declares `core::ops::RangeFull` (`..`), the endpoint-less range.
#[verifier::external_type_specification]
pub struct ExRangeFull(RangeFull);

/// Relies on `RangeInclusive::start`: it returns the range's lower
/// endpoint, the one the range was built with.
pub assume_specification<Idx>[ RangeInclusive::<Idx>::start ](
    r: &RangeInclusive<Idx>,
) -> (s: &Idx)
    ensures
        *s == r@.start,
;

/// Relies on `RangeInclusive::end`: it returns the range's upper
/// endpoint, the one the range was built with.
pub assume_specification<Idx>[ RangeInclusive::<Idx>::end ](r: &RangeInclusive<Idx>) -> (e: &Idx)
    ensures
        *e == r@.end,
;

/// A range-like value: one exposing a start and an end endpoint, in
/// whatever representation, that can be copied out as an explicit pair
/// of bounds.
pub trait RangeLike<T> {
    /// The start endpoint, as an explicit bound.
    spec fn start_bound(&self) -> Bound<T>;

    /// The end endpoint, as an explicit bound.
    spec fn end_bound(&self) -> Bound<T>;

    /// Copy the two endpoints out as explicit bounds, preserving
    /// inclusivity, exclusivity and unboundedness exactly.
    fn get_bounds(&self) -> (r: (Bound<T>, Bound<T>))
        ensures
            r.0 == self.start_bound(),
            r.1 == self.end_bound(),
    ;
}

impl<T: Copy> RangeLike<T> for Range<T> {
    open spec fn start_bound(&self) -> Bound<T> {
        Included(self.start)
    }

    open spec fn end_bound(&self) -> Bound<T> {
        Excluded(self.end)
    }

    fn get_bounds(&self) -> (r: (Bound<T>, Bound<T>)) {
        (Included(self.start), Excluded(self.end))
    }
}

impl<T: Copy> RangeLike<T> for RangeInclusive<T> {
    open spec fn start_bound(&self) -> Bound<T> {
        Included(self@.start)
    }

    open spec fn end_bound(&self) -> Bound<T> {
        Included(self@.end)
    }

    fn get_bounds(&self) -> (r: (Bound<T>, Bound<T>)) {
        (Included(*self.start()), Included(*self.end()))
    }
}

impl<T: Copy> RangeLike<T> for RangeFrom<T> {
    open spec fn start_bound(&self) -> Bound<T> {
        Included(self.start)
    }

    open spec fn end_bound(&self) -> Bound<T> {
        Unbounded
    }

    fn get_bounds(&self) -> (r: (Bound<T>, Bound<T>)) {
        (Included(self.start), Unbounded)
    }
}

impl<T: Copy> RangeLike<T> for RangeTo<T> {
    open spec fn start_bound(&self) -> Bound<T> {
        Unbounded
    }

    open spec fn end_bound(&self) -> Bound<T> {
        Excluded(self.end)
    }

    fn get_bounds(&self) -> (r: (Bound<T>, Bound<T>)) {
        (Unbounded, Excluded(self.end))
    }
}

impl<T: Copy> RangeLike<T> for RangeToInclusive<T> {
    open spec fn start_bound(&self) -> Bound<T> {
        Unbounded
    }

    open spec fn end_bound(&self) -> Bound<T> {
        Included(self.end)
    }

    fn get_bounds(&self) -> (r: (Bound<T>, Bound<T>)) {
        (Unbounded, Included(self.end))
    }
}

impl<T: Copy> RangeLike<T> for RangeFull {
    open spec fn start_bound(&self) -> Bound<T> {
        Unbounded
    }

    open spec fn end_bound(&self) -> Bound<T> {
        Unbounded
    }

    fn get_bounds(&self) -> (r: (Bound<T>, Bound<T>)) {
        (Unbounded, Unbounded)
    }
}

impl<T: Copy> RangeLike<T> for (Bound<T>, Bound<T>) {
    open spec fn start_bound(&self) -> Bound<T> {
        self.0
    }

    open spec fn end_bound(&self) -> Bound<T> {
        self.1
    }

    fn get_bounds(&self) -> (r: (Bound<T>, Bound<T>)) {
        (self.0, self.1)
    }
}

/// Extract the bounds from a range, cloning the inner values.
pub fn bounds<R, T>(range: &R) -> (r: (Bound<T>, Bound<T>)) where R: RangeLike<T>
    ensures
        r.0 == range.start_bound(),
        r.1 == range.end_bound(),
{
    range.get_bounds()
}

} // verus!
