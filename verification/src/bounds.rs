//! The bound-comparison algebra: predicates comparing interval endpoints
//! of an ascending discrete type, with the adjacency correction for
//! excluded endpoints.

use vstd::prelude::*;
use core::ops::Bound;
use core::ops::Bound::Excluded;
use core::ops::Bound::Included;
use core::ops::Bound::Unbounded;

use crate::inc::Inc;

verus! {

/// Declares `core::ops::Bound` — the standard tagged union over
/// `Unbounded`, `Included` and `Excluded` — for use in signatures,
/// fields and patterns.
#[verifier::external_type_specification]
#[verifier::reject_recursive_types(T)]
pub struct ExBound<T>(Bound<T>);

/// Whether the point `x` lies at or after the start bound `b`.
///
/// A start bound denotes the upward-closed set of integer points at or
/// after it; `Unbounded` as a start reaches every point.
pub open spec fn start_sat<T: Inc>(b: Bound<T>, x: int) -> bool {
    match b {
        Unbounded => true,
        Included(a) => a.value() <= x,
        Excluded(a) => a.value() < x,
    }
}

/// Whether the point `x` lies at or before the end bound `b`.
///
/// An end bound denotes the downward-closed set of integer points at or
/// before it; `Unbounded` as an end reaches every point.
pub open spec fn end_sat<T: Inc>(b: Bound<T>, x: int) -> bool {
    match b {
        Unbounded => true,
        Included(a) => x <= a.value(),
        Excluded(a) => x < a.value(),
    }
}

/// Whether the point `x` lies within the range from `s` to `e`.
pub open spec fn in_range<T: Inc>(s: Bound<T>, e: Bound<T>, x: int) -> bool {
    start_sat(s, x) && end_sat(e, x)
}

/// The case table behind [`start_lt_start`].
pub open spec fn spec_start_lt_start<T: Inc>(b1: Bound<T>, b2: Bound<T>) -> bool {
    match (b1, b2) {
        (Unbounded, Unbounded) => false,
        (Unbounded, _) => true,
        (_, Unbounded) => false,
        (Included(a), Included(b)) => a.value() < b.value(),
        (Included(a), Excluded(b)) => a.value() <= b.value(),
        (Excluded(a), Included(b)) => a.value() + 1 < b.value(),
        (Excluded(a), Excluded(b)) => a.value() < b.value(),
    }
}

/// The case table behind [`start_le_start`].
pub open spec fn spec_start_le_start<T: Inc>(b1: Bound<T>, b2: Bound<T>) -> bool {
    match (b1, b2) {
        (Unbounded, _) => true,
        (_, Unbounded) => false,
        (Included(a), Included(b)) => a.value() <= b.value(),
        (Included(a), Excluded(b)) => a.value() <= b.value() + 1,
        (Excluded(a), Included(b)) => a.value() + 1 <= b.value(),
        (Excluded(a), Excluded(b)) => a.value() <= b.value(),
    }
}

/// The case table behind [`start_le_end`].
pub open spec fn spec_start_le_end<T: Inc>(b1: Bound<T>, b2: Bound<T>) -> bool {
    match (b1, b2) {
        (_, Unbounded) => true,
        (Unbounded, _) => true,
        (Included(a), Included(b)) => a.value() <= b.value(),
        (Included(a), Excluded(b)) => a.value() < b.value(),
        (Excluded(a), Included(b)) => a.value() < b.value(),
        (Excluded(a), Excluded(b)) => a.value() + 1 < b.value(),
    }
}

/// The case table behind [`end_lt_end`].
pub open spec fn spec_end_lt_end<T: Inc>(b1: Bound<T>, b2: Bound<T>) -> bool {
    match (b1, b2) {
        (Unbounded, _) => false,
        (_, Unbounded) => true,
        (Included(a), Included(b)) => a.value() < b.value(),
        (Included(a), Excluded(b)) => a.value() + 1 < b.value(),
        (Excluded(a), Included(b)) => a.value() <= b.value(),
        (Excluded(a), Excluded(b)) => a.value() < b.value(),
    }
}

/// A start bound reaches every point after any point it reaches.
pub proof fn lemma_start_sat_up_closed<T: Inc>(b: Bound<T>, x: int, y: int)
    requires
        start_sat(b, x),
        x <= y,
    ensures
        start_sat(b, y),
{
}

/// A start bound is less than or equal to another exactly when it
/// reaches every point the other reaches.
pub proof fn lemma_start_le_start_iff<T: Inc>(b1: Bound<T>, b2: Bound<T>)
    ensures
        spec_start_le_start(b1, b2) <==> (forall|x: int|
            start_sat(b2, x) ==> start_sat(b1, x)),
{
    if !spec_start_le_start(b1, b2) {
        let w: int = match (b1, b2) {
            (Included(a), Unbounded) => a.value() - 1,
            (Excluded(a), Unbounded) => a.value(),
            (_, Included(b)) => b.value(),
            (_, Excluded(b)) => b.value() + 1,
            _ => 0,
        };
        assert(start_sat(b2, w));
        assert(!start_sat(b1, w));
    }
}

/// Two start bounds always compare: one of them reaches every point the
/// other reaches.
pub proof fn lemma_start_le_start_total<T: Inc>(b1: Bound<T>, b2: Bound<T>)
    ensures
        spec_start_le_start(b1, b2) || spec_start_le_start(b2, b1),
{
}

/// The "less than or equal" comparison of start bounds is transitive.
pub proof fn lemma_start_le_start_trans<T: Inc>(b1: Bound<T>, b2: Bound<T>, b3: Bound<T>)
    requires
        spec_start_le_start(b1, b2),
        spec_start_le_start(b2, b3),
    ensures
        spec_start_le_start(b1, b3),
{
    lemma_start_le_start_iff(b1, b2);
    lemma_start_le_start_iff(b2, b3);
    lemma_start_le_start_iff(b1, b3);
}

/// A start bound is strictly less than another exactly when it reaches
/// every point the other reaches but not the other way round.
pub proof fn lemma_start_lt_start_iff<T: Inc>(b1: Bound<T>, b2: Bound<T>)
    ensures
        spec_start_lt_start(b1, b2) <==> (spec_start_le_start(b1, b2)
            && !spec_start_le_start(b2, b1)),
{
}

/// A start bound is less than or equal to an end bound exactly when
/// some point lies between the two: the range from `b1` to `b2` is not
/// empty.
pub proof fn lemma_start_le_end_iff<T: Inc>(b1: Bound<T>, b2: Bound<T>)
    ensures
        spec_start_le_end(b1, b2) <==> (exists|x: int| in_range(b1, b2, x)),
{
    if spec_start_le_end(b1, b2) {
        let w: int = match (b1, b2) {
            (Included(a), _) => a.value(),
            (Excluded(a), _) => a.value() + 1,
            (Unbounded, Included(b)) => b.value(),
            (Unbounded, Excluded(b)) => b.value() - 1,
            (Unbounded, Unbounded) => 0,
        };
        assert(in_range(b1, b2, w));
    }
}

/// What an "end" comparison says of the points reached: a strictly
/// smaller end reaches strictly fewer points, and an end that is not
/// strictly smaller reaches every point the other reaches.
pub proof fn lemma_end_lt_end_containment<T: Inc>(b1: Bound<T>, b2: Bound<T>)
    ensures
        spec_end_lt_end(b1, b2) ==> (forall|x: int| end_sat(b1, x) ==> end_sat(b2, x)),
        !spec_end_lt_end(b1, b2) ==> (forall|x: int| end_sat(b2, x) ==> end_sat(b1, x)),
{
}

/// Check whether a "start" bound is less than another one: whether it
/// reaches strictly more points.
pub fn start_lt_start<T: Inc>(b1: &Bound<T>, b2: &Bound<T>) -> (r: bool)
    ensures
        r == spec_start_lt_start(*b1, *b2),
{
    match (b1, b2) {
        (Unbounded, Unbounded) => false,
        (Unbounded, _) => true,
        (_, Unbounded) => false,
        (Included(a), Included(b)) => a.val_lt(b),
        (Included(a), Excluded(b)) => a.val_le(b),
        (Excluded(a), Included(b)) => {
            if a.val_lt(b) {
                proof {
                    T::lemma_discrete(*a, *b);
                }
                a.inc().val_lt(b)
            } else {
                false
            }
        },
        (Excluded(a), Excluded(b)) => a.val_lt(b),
    }
}

/// Check whether a "start" bound is less than or equal to another one:
/// whether it reaches at least the points the other reaches.
pub fn start_le_start<T: Inc>(b1: &Bound<T>, b2: &Bound<T>) -> (r: bool)
    ensures
        r == spec_start_le_start(*b1, *b2),
{
    match (b1, b2) {
        (Unbounded, _) => true,
        (_, Unbounded) => false,
        (Included(a), Included(b)) => a.val_le(b),
        (Included(a), Excluded(b)) => {
            if a.val_le(b) {
                true
            } else {
                proof {
                    T::lemma_discrete(*b, *a);
                }
                a.val_le(&b.inc())
            }
        },
        (Excluded(a), Included(b)) => {
            if a.val_lt(b) {
                proof {
                    T::lemma_discrete(*a, *b);
                }
                a.inc().val_le(b)
            } else {
                false
            }
        },
        (Excluded(a), Excluded(b)) => a.val_le(b),
    }
}

/// Check whether a "start" bound is less than or equal to an "end"
/// bound: whether some point lies at or after the start and at or
/// before the end, so that the range between the two is not empty.
pub fn start_le_end<T: Inc>(b1: &Bound<T>, b2: &Bound<T>) -> (r: bool)
    ensures
        r == spec_start_le_end(*b1, *b2),
{
    match (b1, b2) {
        (_, Unbounded) => true,
        (Unbounded, _) => true,
        (Included(a), Included(b)) => a.val_le(b),
        (Included(a), Excluded(b)) => a.val_lt(b),
        (Excluded(a), Included(b)) => a.val_lt(b),
        (Excluded(a), Excluded(b)) => {
            // A mere comparison of the two values would wrongly accept
            // bounds with nothing between them, such as those of `1..2`
            // taken exclusively on both sides: the start value must be
            // incremented to get the proper check.
            if a.val_lt(b) {
                proof {
                    T::lemma_discrete(*a, *b);
                }
                a.inc().val_lt(b)
            } else {
                false
            }
        },
    }
}

/// Check whether an "end" bound is less than another one: whether the
/// other reaches strictly more points.
pub fn end_lt_end<T: Inc>(b1: &Bound<T>, b2: &Bound<T>) -> (r: bool)
    ensures
        r == spec_end_lt_end(*b1, *b2),
{
    match (b1, b2) {
        (Unbounded, _) => false,
        (_, Unbounded) => true,
        (Included(a), Included(b)) => a.val_lt(b),
        (Included(a), Excluded(b)) => {
            if a.val_lt(b) {
                proof {
                    T::lemma_discrete(*a, *b);
                }
                a.inc().val_lt(b)
            } else {
                false
            }
        },
        (Excluded(a), Included(b)) => a.val_le(b),
        (Excluded(a), Excluded(b)) => a.val_lt(b),
    }
}

} // verus!
