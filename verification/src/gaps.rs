//! The gap iterator: a streaming state machine that consumes an
//! ascending sequence of discrete values and produces, lazily, the
//! ordered maximal uncovered sub-ranges of a query range.

use vstd::prelude::*;
use core::ops::Bound;
use core::ops::Bound::Excluded;
use core::ops::Bound::Included;
use core::ops::Bound::Unbounded;
use std::collections::BTreeMap;
use std::collections::BTreeSet;

use crate::bounds::end_lt_end;
use crate::bounds::end_sat;
use crate::bounds::in_range;
use crate::bounds::lemma_end_lt_end_containment;
use crate::bounds::lemma_start_le_end_iff;
use crate::bounds::lemma_start_le_start_iff;
use crate::bounds::lemma_start_sat_up_closed;
use crate::bounds::lemma_start_le_start_total;
use crate::bounds::lemma_start_le_start_trans;
use crate::bounds::lemma_start_lt_start_iff;
use crate::bounds::spec_end_lt_end;
use crate::bounds::spec_start_le_end;
use crate::bounds::spec_start_le_start;
use crate::bounds::spec_start_lt_start;
use crate::bounds::start_le_end;
use crate::bounds::start_le_start;
use crate::bounds::start_lt_start;
use crate::bounds::start_sat;
use crate::inc::Inc;
use crate::range::bounds;
use crate::range::RangeLike;

verus! {

/// Whether a sequence of values ascends: each value stands at or above
/// the one before it.
pub open spec fn ascending<T: Inc>(s: Seq<T>) -> bool {
    forall|i: int, j: int|
        #![trigger s[i], s[j]]
        0 <= i <= j < s.len() ==> s[i].value() <= s[j].value()
}

/// Whether a bound is the unbounded one.
pub open spec fn is_unbounded<T>(b: Bound<T>) -> bool {
    match b {
        Unbounded => true,
        _ => false,
    }
}

/// The gaps still to be produced from a live machine state: the
/// remaining elements, the advancing frontier `start`, and the fixed
/// query end `end`.
///
/// Each element in turn either falls at or behind the frontier (it is
/// skipped, or absorbed by advancing the frontier past it), reaches or
/// passes the query end (the machine stops, reporting the range up to
/// the query end if it is not empty), or lies properly inside the query
/// range (the range between the frontier and the element is reported if
/// it is not empty, and the frontier advances past the element). Once
/// the elements are out, what is left between the frontier and the
/// query end is the final gap, if it is not empty.
pub open spec fn spec_gaps<T: Inc>(elems: Seq<T>, start: Bound<T>, end: Bound<T>) -> Seq<
    (Bound<T>, Bound<T>),
>
    decreases elems.len(),
{
    if elems.len() == 0 {
        if spec_start_le_end(start, end) {
            seq![(start, end)]
        } else {
            Seq::empty()
        }
    } else {
        let this = elems[0];
        let rest = elems.drop_first();
        let ex = Excluded(this);
        if !is_unbounded(start) && spec_start_le_start(Included(this), start) {
            if spec_start_lt_start(Included(this), start) {
                spec_gaps(rest, start, end)
            } else {
                spec_gaps(rest, ex, end)
            }
        } else if !spec_end_lt_end(ex, end) {
            if spec_start_le_end(start, end) {
                seq![(start, end)]
            } else {
                Seq::empty()
            }
        } else if !spec_start_le_end(ex, end) {
            if spec_start_le_end(start, ex) {
                seq![(start, ex)]
            } else {
                Seq::empty()
            }
        } else {
            if spec_start_le_end(start, ex) {
                seq![(start, ex)] + spec_gaps(rest, ex, end)
            } else {
                spec_gaps(rest, ex, end)
            }
        }
    }
}

/// Whether a sequence of values holds the integer `x` among the values
/// stood for.
pub open spec fn has_value<T: Inc>(s: Seq<T>, x: int) -> bool {
    exists|i: int| 0 <= i < s.len() && (#[trigger] s[i]).value() == x
}

/// Whether the point `x` lies inside the gap `g`.
pub open spec fn gap_contains<T: Inc>(g: (Bound<T>, Bound<T>), x: int) -> bool {
    in_range(g.0, g.1, x)
}

/// Whether the point `x` lies inside some gap of `gs`.
pub open spec fn gaps_contain<T: Inc>(gs: Seq<(Bound<T>, Bound<T>)>, x: int) -> bool {
    exists|k: int| 0 <= k < gs.len() && gap_contains(#[trigger] gs[k], x)
}

/// Non-emptiness law: no gap the machine produces is empty or
/// descending — every gap's start is less than or equal to its end,
/// under the adjacency rule for excluded endpoints.
pub proof fn lemma_gaps_nonempty<T: Inc>(elems: Seq<T>, start: Bound<T>, end: Bound<T>)
    ensures
        forall|k: int|
            0 <= k < spec_gaps(elems, start, end).len() ==> spec_start_le_end(
                (#[trigger] spec_gaps(elems, start, end)[k]).0,
                spec_gaps(elems, start, end)[k].1,
            ),
    decreases elems.len(),
{
    let gs = spec_gaps(elems, start, end);
    if elems.len() > 0 {
        let this = elems[0];
        let rest = elems.drop_first();
        let ex = Excluded(this);
        if !is_unbounded(start) && spec_start_le_start(Included(this), start) {
            if spec_start_lt_start(Included(this), start) {
                lemma_gaps_nonempty(rest, start, end);
                assert(gs == spec_gaps(rest, start, end));
            } else {
                lemma_gaps_nonempty(rest, ex, end);
                assert(gs == spec_gaps(rest, ex, end));
            }
        } else if !spec_end_lt_end(ex, end) {
        } else if !spec_start_le_end(ex, end) {
        } else {
            lemma_gaps_nonempty(rest, ex, end);
            let t = spec_gaps(rest, ex, end);
            if spec_start_le_end(start, ex) {
                assert(gs =~= seq![(start, ex)] + t);
                assert forall|k: int| 0 < k < gs.len() implies spec_start_le_end(
                    gs[k].0,
                    gs[k].1,
                ) by {
                    assert(gs[k] == t[k - 1]);
                }
            } else {
                assert(gs == t);
            }
        }
    }
}

/// Every point of every gap the machine produces lies within the range
/// from `start` to `end`: nothing outside the query range is reported.
pub proof fn lemma_gaps_within<T: Inc>(elems: Seq<T>, start: Bound<T>, end: Bound<T>)
    ensures
        forall|k: int, x: int|
            0 <= k < spec_gaps(elems, start, end).len() && #[trigger] gap_contains(
                spec_gaps(elems, start, end)[k],
                x,
            ) ==> in_range(start, end, x),
    decreases elems.len(),
{
    let gs = spec_gaps(elems, start, end);
    if elems.len() > 0 {
        let this = elems[0];
        let rest = elems.drop_first();
        let ex = Excluded(this);
        if !is_unbounded(start) && spec_start_le_start(Included(this), start) {
            if spec_start_lt_start(Included(this), start) {
                lemma_gaps_within(rest, start, end);
                assert(gs == spec_gaps(rest, start, end));
                assert forall|k: int, x: int|
                    0 <= k < gs.len() && #[trigger] gap_contains(gs[k], x) implies in_range(
                    start,
                    end,
                    x,
                ) by {
                    assert(gap_contains(spec_gaps(rest, start, end)[k], x));
                }
            } else {
                // The element matches the frontier exactly: the frontier
                // advanced to just past it reaches no new points.
                lemma_gaps_within(rest, ex, end);
                lemma_start_lt_start_iff(Included(this), start);
                lemma_start_le_start_iff(Included(this), start);
                lemma_start_le_start_iff(start, Included(this));
                assert forall|x: int| start_sat(ex, x) implies start_sat(start, x) by {
                    assert(start_sat(Included(this), x));
                }
                assert(gs == spec_gaps(rest, ex, end));
                assert forall|k: int, x: int|
                    0 <= k < gs.len() && #[trigger] gap_contains(gs[k], x) implies in_range(
                    start,
                    end,
                    x,
                ) by {
                    assert(gap_contains(spec_gaps(rest, ex, end)[k], x));
                    assert(in_range(ex, end, x));
                }
            }
        } else if !spec_end_lt_end(ex, end) {
            assert forall|k: int, x: int|
                0 <= k < gs.len() && #[trigger] gap_contains(gs[k], x) implies in_range(
                start,
                end,
                x,
            ) by {
                assert(gs[k] == (start, end));
            }
        } else if !spec_start_le_end(ex, end) {
            lemma_end_lt_end_containment(ex, end);
            assert forall|k: int, x: int|
                0 <= k < gs.len() && #[trigger] gap_contains(gs[k], x) implies in_range(
                start,
                end,
                x,
            ) by {
                assert(gs[k] == (start, ex));
                assert(end_sat(ex, x));
            }
        } else {
            lemma_gaps_within(rest, ex, end);
            lemma_end_lt_end_containment(ex, end);
            // The element lies ahead of the frontier: the frontier
            // advanced to just past it reaches no point the old
            // frontier did not reach.
            lemma_start_le_start_total(start, Included(this));
            lemma_start_le_start_iff(Included(this), start);
            lemma_start_le_start_iff(start, Included(this));
            assert forall|x: int| start_sat(ex, x) implies start_sat(start, x) by {
                assert(start_sat(Included(this), x));
            }
            let g0 = (start, ex);
            let t = spec_gaps(rest, ex, end);
            if spec_start_le_end(start, ex) {
                assert(gs =~= seq![g0] + t);
                assert forall|k: int, x: int|
                    0 <= k < gs.len() && gap_contains(gs[k], x) implies in_range(
                    start,
                    end,
                    x,
                ) by {
                    if k > 0 {
                        assert(gs[k] == t[k - 1]);
                        assert(in_range(ex, end, x));
                    }
                }
            } else {
                assert forall|k: int, x: int|
                    0 <= k < gs.len() && gap_contains(gs[k], x) implies in_range(
                    start,
                    end,
                    x,
                ) by {
                    assert(gs[k] == t[k]);
                    assert(in_range(ex, end, x));
                }
            }
        }
    }
}

/// Ordering and non-overlap law: the machine produces its gaps in
/// strictly increasing start order, no two of them share a point, and
/// every gap's start lies at or after the query start.
pub proof fn lemma_gaps_ordered<T: Inc>(elems: Seq<T>, start: Bound<T>, end: Bound<T>)
    ensures
        forall|k: int, l: int|
            #![trigger spec_gaps(elems, start, end)[k], spec_gaps(elems, start, end)[l]]
            0 <= k < l < spec_gaps(elems, start, end).len() ==> spec_start_lt_start(
                spec_gaps(elems, start, end)[k].0,
                spec_gaps(elems, start, end)[l].0,
            ),
        forall|k: int, l: int, x: int|
            #![trigger gap_contains(spec_gaps(elems, start, end)[k], x), gap_contains(spec_gaps(elems, start, end)[l], x)]
            0 <= k < l < spec_gaps(elems, start, end).len() ==> !(gap_contains(
                spec_gaps(elems, start, end)[k],
                x,
            ) && gap_contains(spec_gaps(elems, start, end)[l], x)),
        forall|k: int|
            0 <= k < spec_gaps(elems, start, end).len() ==> spec_start_le_start(
                start,
                (#[trigger] spec_gaps(elems, start, end)[k]).0,
            ),
    decreases elems.len(),
{
    let gs = spec_gaps(elems, start, end);
    if elems.len() > 0 {
        let this = elems[0];
        let rest = elems.drop_first();
        let ex = Excluded(this);
        if !is_unbounded(start) && spec_start_le_start(Included(this), start) {
            if spec_start_lt_start(Included(this), start) {
                lemma_gaps_ordered(rest, start, end);
                assert(gs == spec_gaps(rest, start, end));
            } else {
                lemma_gaps_ordered(rest, ex, end);
                assert(gs == spec_gaps(rest, ex, end));
                // The frontier moved from `start` to just past the
                // element that matched it exactly.
                lemma_start_lt_start_iff(Included(this), start);
                lemma_start_le_start_iff(Included(this), start);
                lemma_start_le_start_iff(start, Included(this));
                lemma_start_le_start_iff(start, ex);
                assert forall|k: int| 0 <= k < gs.len() implies spec_start_le_start(
                    start,
                    (#[trigger] gs[k]).0,
                ) by {
                    assert(spec_start_le_start(ex, gs[k].0));
                    assert forall|x: int| start_sat(ex, x) implies start_sat(start, x) by {
                        assert(start_sat(Included(this), x));
                    }
                    assert(spec_start_le_start(start, ex));
                    lemma_start_le_start_trans(start, ex, gs[k].0);
                }
            }
        } else if !spec_end_lt_end(ex, end) {
        } else if !spec_start_le_end(ex, end) {
        } else {
            lemma_gaps_ordered(rest, ex, end);
            lemma_gaps_within(rest, ex, end);
            let t = spec_gaps(rest, ex, end);
            // The frontier moved from `start` strictly forward, to just
            // past an element that lay ahead of it.
            lemma_start_le_start_total(start, Included(this));
            lemma_start_le_start_iff(Included(this), start);
            lemma_start_le_start_iff(start, Included(this));
            lemma_start_le_start_iff(start, ex);
            lemma_start_le_start_iff(ex, start);
            lemma_start_le_start_iff(ex, Included(this));
            assert forall|x: int| start_sat(ex, x) implies start_sat(start, x) by {
                assert(start_sat(Included(this), x));
            }
            assert(spec_start_le_start(start, ex));
            assert(!spec_start_le_start(ex, start)) by {
                if spec_start_le_start(ex, start) {
                    assert forall|x: int|
                        start_sat(start, x) implies start_sat(Included(this), x) by {
                        assert(start_sat(ex, x));
                    }
                    assert(spec_start_le_start(Included(this), start));
                }
            }
            if spec_start_le_end(start, ex) {
                let g0 = (start, ex);
                assert(gs =~= seq![g0] + t);
                assert forall|k: int| 0 <= k < gs.len() implies spec_start_le_start(
                    start,
                    (#[trigger] gs[k]).0,
                ) by {
                    if k > 0 {
                        assert(gs[k] == t[k - 1]);
                        lemma_start_le_start_trans(start, ex, gs[k].0);
                    }
                }
                assert forall|k: int, l: int|
                    #![trigger gs[k], gs[l]]
                    0 <= k < l < gs.len() implies spec_start_lt_start(gs[k].0, gs[l].0) by {
                    if k > 0 {
                        assert(gs[k] == t[k - 1]);
                        assert(gs[l] == t[l - 1]);
                    } else {
                        assert(gs[l] == t[l - 1]);
                        // The later gap's start reaches no more than the
                        // advanced frontier, which reaches strictly less
                        // than the old one.
                        assert(spec_start_le_start(ex, gs[l].0));
                        lemma_start_lt_start_iff(start, gs[l].0);
                        lemma_start_le_start_trans(start, ex, gs[l].0);
                        assert(!spec_start_le_start(gs[l].0, start)) by {
                            if spec_start_le_start(gs[l].0, start) {
                                lemma_start_le_start_trans(ex, gs[l].0, start);
                            }
                        }
                    }
                }
                assert forall|k: int, l: int, x: int|
                    #![trigger gap_contains(gs[k], x), gap_contains(gs[l], x)]
                    0 <= k < l < gs.len() implies !(gap_contains(gs[k], x) && gap_contains(
                    gs[l],
                    x,
                )) by {
                    if k > 0 {
                        assert(gs[k] == t[k - 1]);
                        assert(gs[l] == t[l - 1]);
                    } else if gap_contains(gs[k], x) && gap_contains(gs[l], x) {
                        // A point of the first gap lies before the
                        // element; a point of any later gap lies after
                        // it.
                        assert(gs[l] == t[l - 1]);
                        assert(end_sat(ex, x));
                        assert(gap_contains(t[l - 1], x));
                        assert(in_range(ex, end, x));
                        assert(start_sat(ex, x));
                    }
                }
            } else {
                assert(gs == t);
                assert forall|k: int| 0 <= k < gs.len() implies spec_start_le_start(
                    start,
                    (#[trigger] gs[k]).0,
                ) by {
                    lemma_start_le_start_trans(start, ex, gs[k].0);
                }
            }
        }
    }
}

/// A non-empty sequence holds an integer exactly when its head stands
/// for it or its tail holds it.
proof fn lemma_has_value_step<T: Inc>(elems: Seq<T>, x: int)
    requires
        elems.len() > 0,
    ensures
        has_value(elems, x) <==> (elems[0].value() == x || has_value(elems.drop_first(), x)),
{
    let rest = elems.drop_first();
    if has_value(elems, x) {
        let i = choose|i: int| 0 <= i < elems.len() && (#[trigger] elems[i]).value() == x;
        if i > 0 {
            assert(rest[i - 1] == elems[i]);
        }
    }
    if has_value(rest, x) {
        let i = choose|i: int| 0 <= i < rest.len() && (#[trigger] rest[i]).value() == x;
        assert(elems[i + 1] == rest[i]);
    }
    if elems[0].value() == x {
        assert(0 <= 0 < elems.len() && elems[0].value() == x);
    }
}

/// The tail of an ascending sequence ascends.
proof fn lemma_ascending_drop_first<T: Inc>(elems: Seq<T>)
    requires
        ascending(elems),
        elems.len() > 0,
    ensures
        ascending(elems.drop_first()),
{
    let rest = elems.drop_first();
    assert forall|i: int, j: int|
        0 <= i <= j < rest.len() implies (#[trigger] rest[i]).value() <= (
    #[trigger] rest[j]).value() by {
        assert(rest[i] == elems[i + 1]);
        assert(rest[j] == elems[j + 1]);
    }
}

/// An ascending sequence holds no integer below what its head stands
/// for.
proof fn lemma_ascending_head_min<T: Inc>(elems: Seq<T>, x: int)
    requires
        ascending(elems),
        elems.len() > 0,
        x < elems[0].value(),
    ensures
        !has_value(elems, x),
{
    if has_value(elems, x) {
        let i = choose|i: int| 0 <= i < elems.len() && (#[trigger] elems[i]).value() == x;
        assert(elems[0].value() <= elems[i].value());
    }
}

/// Coverage law: over an ascending sequence, a point of the query range
/// lies in some produced gap exactly when it is none of the sequence's
/// values. Together with the non-overlap law, the gaps and the
/// sequence's values partition the query range.
pub proof fn lemma_gaps_cover<T: Inc>(elems: Seq<T>, start: Bound<T>, end: Bound<T>)
    requires
        ascending(elems),
    ensures
        forall|x: int| #[trigger]
            in_range(start, end, x) ==> (gaps_contain(spec_gaps(elems, start, end), x)
                <==> !has_value(elems, x)),
    decreases elems.len(),
{
    let gs = spec_gaps(elems, start, end);
    if elems.len() == 0 {
        lemma_start_le_end_iff(start, end);
        assert forall|x: int| #[trigger]
            in_range(start, end, x) implies (gaps_contain(gs, x) <==> !has_value(elems, x)) by {
            assert(spec_start_le_end(start, end));
            assert(gs[0] == (start, end));
            assert(gap_contains(gs[0], x));
        }
    } else {
        let this = elems[0];
        let v = this.value();
        let rest = elems.drop_first();
        let ex = Excluded(this);
        lemma_ascending_drop_first(elems);
        if !is_unbounded(start) && spec_start_le_start(Included(this), start) {
            if spec_start_lt_start(Included(this), start) {
                // The element lies strictly behind the frontier: no
                // point of the range stands for it, and the gaps are
                // those of the tail.
                lemma_gaps_cover(rest, start, end);
                assert(gs == spec_gaps(rest, start, end));
                lemma_start_lt_start_iff(Included(this), start);
                lemma_start_le_start_iff(start, Included(this));
                assert(!start_sat(start, v)) by {
                    if start_sat(start, v) {
                        assert forall|z: int|
                            start_sat(Included(this), z) implies start_sat(start, z) by {
                            lemma_start_sat_up_closed(start, v, z);
                        }
                    }
                }
                assert forall|x: int| #[trigger]
                    in_range(start, end, x) implies (gaps_contain(gs, x) <==> !has_value(
                    elems,
                    x,
                )) by {
                    assert(x != v);
                    lemma_has_value_step(elems, x);
                }
            } else {
                // The element matches the frontier exactly: the
                // frontier absorbs it, and the gaps are those of the
                // tail past it.
                lemma_gaps_cover(rest, ex, end);
                lemma_gaps_within(rest, ex, end);
                assert(gs == spec_gaps(rest, ex, end));
                lemma_start_lt_start_iff(Included(this), start);
                lemma_start_le_start_iff(Included(this), start);
                lemma_start_le_start_iff(start, Included(this));
                assert forall|x: int| #[trigger]
                    in_range(start, end, x) implies (gaps_contain(gs, x) <==> !has_value(
                    elems,
                    x,
                )) by {
                    lemma_has_value_step(elems, x);
                    assert(start_sat(Included(this), x));
                    if x == v {
                        assert(0 <= 0 < elems.len() && elems[0].value() == x);
                        if gaps_contain(gs, x) {
                            let k = choose|k: int|
                                0 <= k < gs.len() && gap_contains(#[trigger] gs[k], x);
                            assert(in_range(ex, end, x));
                        }
                    } else {
                        assert(start_sat(ex, x));
                        assert(in_range(ex, end, x));
                    }
                }
            }
        } else if !spec_end_lt_end(ex, end) {
            // The element reaches or passes the query end: one final
            // gap up to the query end, if it is not empty.
            lemma_end_lt_end_containment(ex, end);
            lemma_start_le_end_iff(start, end);
            assert forall|x: int| #[trigger]
                in_range(start, end, x) implies (gaps_contain(gs, x) <==> !has_value(
                elems,
                x,
            )) by {
                assert(end_sat(ex, x));
                lemma_ascending_head_min(elems, x);
                assert(spec_start_le_end(start, end));
                assert(gs[0] == (start, end));
                assert(gap_contains(gs[0], x));
            }
        } else if !spec_start_le_end(ex, end) {
            // The frontier, advanced past the element, has caught up
            // with the query end: one final gap up to the element, if
            // it is not empty.
            lemma_start_le_end_iff(ex, end);
            lemma_start_le_end_iff(start, ex);
            assert forall|x: int| #[trigger]
                in_range(start, end, x) implies (gaps_contain(gs, x) <==> !has_value(
                elems,
                x,
            )) by {
                assert(!in_range(ex, end, x));
                assert(x <= v);
                if x == v {
                    assert(0 <= 0 < elems.len() && elems[0].value() == x);
                    if gaps_contain(gs, x) {
                        let k = choose|k: int|
                            0 <= k < gs.len() && gap_contains(#[trigger] gs[k], x);
                        assert(gs[k] == (start, ex));
                    }
                } else {
                    lemma_ascending_head_min(elems, x);
                    assert(in_range(start, ex, x));
                    assert(gs[0] == (start, ex));
                    assert(gap_contains(gs[0], x));
                }
            }
        } else {
            // The element lies properly inside the query range: the
            // range between the frontier and the element is a gap if it
            // is not empty, and the rest comes from the tail.
            lemma_gaps_cover(rest, ex, end);
            lemma_gaps_within(rest, ex, end);
            lemma_start_le_end_iff(start, ex);
            let t = spec_gaps(rest, ex, end);
            assert forall|x: int| #[trigger]
                in_range(start, end, x) implies (gaps_contain(gs, x) <==> !has_value(
                elems,
                x,
            )) by {
                lemma_has_value_step(elems, x);
                if x == v {
                    assert(0 <= 0 < elems.len() && elems[0].value() == x);
                    if gaps_contain(gs, x) {
                        let k = choose|k: int| 0 <= k < gs.len() && gap_contains(#[trigger] gs[k], x);
                        if spec_start_le_end(start, ex) {
                            assert(gs =~= seq![(start, ex)] + t);
                            if k > 0 {
                                assert(gs[k] == t[k - 1]);
                                assert(in_range(ex, end, x));
                            }
                        } else {
                            assert(gs == t);
                            assert(in_range(ex, end, x));
                        }
                    }
                } else if x < v {
                    lemma_ascending_head_min(elems, x);
                    assert(in_range(start, ex, x));
                    assert(spec_start_le_end(start, ex));
                    assert(gs =~= seq![(start, ex)] + t);
                    assert(gs[0] == (start, ex));
                    assert(gap_contains(gs[0], x));
                } else {
                    // Past the element: the point belongs to the gaps
                    // of the tail exactly when it is none of the tail's
                    // values.
                    assert(start_sat(ex, x));
                    assert(in_range(ex, end, x));
                    if spec_start_le_end(start, ex) {
                        assert(gs =~= seq![(start, ex)] + t);
                        if gaps_contain(gs, x) {
                            let k = choose|k: int|
                                0 <= k < gs.len() && gap_contains(#[trigger] gs[k], x);
                            assert(k > 0);
                            assert(gs[k] == t[k - 1]);
                            assert(gaps_contain(t, x));
                        }
                        if gaps_contain(t, x) {
                            let j = choose|j: int|
                                0 <= j < t.len() && gap_contains(#[trigger] t[j], x);
                            assert(gs[j + 1] == t[j]);
                            assert(gap_contains(gs[j + 1], x));
                        }
                    } else {
                        assert(gs == t);
                    }
                }
            }
        }
    }
}

/// An iterator over the gaps in a sequence represented by an ascending
/// vector of elements.
#[derive(Debug)]
#[verifier::reject_recursive_types(T)]
pub struct GapIter<T> {
    /// The elements whose gaps are iterated.
    items: Vec<T>,
    /// The position of the next element to consume. The slot empties
    /// exactly once the iterator has produced its final gap.
    cursor: Option<usize>,
    /// The start of the remaining range we iterate. This start bound
    /// will change as the iterator produces new items, always just
    /// excluding the previously produced one.
    start: Bound<T>,
    /// The end of the range to iterate over.
    end: Bound<T>,
}

impl<T: Inc> GapIter<T> {
    /// The elements the iterator has yet to consume.
    pub closed spec fn remaining(self) -> Seq<T> {
        match self.cursor {
            Some(pos) => self.items@.skip(pos as int),
            None => Seq::empty(),
        }
    }

    /// Whether the iterator has yet to produce its final gap.
    pub closed spec fn live(self) -> bool {
        self.cursor is Some
    }

    /// The current frontier: the start of the not-yet-reported portion
    /// of the query range.
    pub closed spec fn frontier(self) -> Bound<T> {
        self.start
    }

    /// The fixed end of the query range.
    pub closed spec fn query_end(self) -> Bound<T> {
        self.end
    }

    /// Well-formedness: the cursor sits within the sequence of elements
    /// and the elements ascend.
    pub closed spec fn wf(self) -> bool {
        &&& ascending(self.items@)
        &&& match self.cursor {
            Some(pos) => pos <= self.items@.len(),
            None => true,
        }
    }

    /// The gaps the iterator has yet to produce.
    pub open spec fn pending(self) -> Seq<(Bound<T>, Bound<T>)> {
        if self.live() {
            spec_gaps(self.remaining(), self.frontier(), self.query_end())
        } else {
            Seq::empty()
        }
    }

    /// Create a new `GapIter` wrapping the provided elements and
    /// yielding ranges identifying the gaps between the elements, if
    /// any.
    ///
    /// # Notes
    /// - the provided elements are assumed to be in ascending order
    pub fn new(items: Vec<T>, start: Bound<T>, end: Bound<T>) -> (r: GapIter<T>)
        requires
            ascending(items@),
        ensures
            r.wf(),
            r.live(),
            r.remaining() == items@,
            r.frontier() == start,
            r.query_end() == end,
            r.pending() == spec_gaps(items@, start, end),
    {
        proof {
            assert(items@.skip(0) =~= items@);
        }
        GapIter { items, cursor: Some(0), start, end }
    }

    /// Produce the next gap, or nothing once the query range has been
    /// exhausted: exactly the head of `pending`.
    pub fn next(&mut self) -> (r: Option<(Bound<T>, Bound<T>)>)
        requires
            old(self).wf(),
        ensures
            final(self).wf(),
            final(self).query_end() == old(self).query_end(),
            match r {
                Some(g) => old(self).pending().len() > 0 && g == old(self).pending()[0]
                    && final(self).pending() == old(self).pending().drop_first(),
                None => old(self).pending().len() == 0 && final(self).pending().len() == 0,
            },
    {
        loop
            invariant
                self.wf(),
                self.query_end() == old(self).query_end(),
                self.pending() == old(self).pending(),
            decreases self.remaining().len(),
        {
            let ghost pre = *self;
            match self.cursor {
                None => {
                    return None;
                },
                Some(pos) => {
                    if pos >= self.items.len() {
                        // The sequence is out of items and we are done.
                        self.cursor = None;
                        proof {
                            assert(pre.remaining().len() == 0);
                        }
                        let g = (self.start, self.end);
                        if start_le_end(&g.0, &g.1) {
                            proof {
                                assert(pre.pending() =~= seq![g]);
                                assert(self.pending() =~= pre.pending().drop_first());
                            }
                            return Some(g);
                        } else {
                            return None;
                        }
                    } else {
                        let this = self.items[pos];
                        self.cursor = Some(pos + 1);
                        proof {
                            assert(pre.remaining()[0] == this);
                            assert(pre.remaining().drop_first() =~= self.remaining());
                        }
                        let ex = Excluded(this);
                        let behind = match self.start {
                            Unbounded => false,
                            _ => start_le_start(&Included(this), &self.start),
                        };
                        if behind {
                            // As long as our current element is still
                            // less than or even equal to the actual
                            // start of the range that we consider, we
                            // just continue.
                            if !start_lt_start(&Included(this), &self.start) {
                                // But if it is equal to the start bound
                                // then we adjust the start bound to
                                // exclude this element.
                                self.start = ex;
                            }
                        } else {
                            let s = self.start;
                            self.start = ex;
                            if !end_lt_end(&ex, &self.end) {
                                // Once we see an element being produced
                                // at or past our overarching range's
                                // end, we are done.
                                self.cursor = None;
                                let g = (s, self.end);
                                if start_le_end(&g.0, &g.1) {
                                    proof {
                                        assert(pre.pending() =~= seq![g]);
                                        assert(self.pending() =~= pre.pending().drop_first());
                                    }
                                    return Some(g);
                                } else {
                                    return None;
                                }
                            } else {
                                if !start_le_end(&ex, &self.end) {
                                    // If our start has caught up with
                                    // our end, we are done.
                                    self.cursor = None;
                                }
                                if start_le_end(&s, &ex) {
                                    let g = (s, ex);
                                    proof {
                                        assert(pre.pending()[0] == g);
                                        assert(self.pending() =~= pre.pending().drop_first());
                                    }
                                    return Some(g);
                                }
                                // We ended up with a range that is
                                // empty or even descending. Don't
                                // report it.
                            }
                        }
                    }
                },
            }
        }
    }

    /// Drive the iterator to exhaustion, collecting every gap it has
    /// yet to produce.
    pub fn into_vec(self) -> (r: Vec<(Bound<T>, Bound<T>)>)
        requires
            self.wf(),
        ensures
            r@ == self.pending(),
    {
        let ghost orig = self;
        let mut it = self;
        let mut out: Vec<(Bound<T>, Bound<T>)> = Vec::new();
        loop
            invariant
                it.wf(),
                out@ + it.pending() == orig.pending(),
            ensures
                out@ == orig.pending(),
            decreases it.pending().len(),
        {
            if let Some(g) = it.next() {
                out.push(g);
                proof {
                    assert(out@ + it.pending() =~= orig.pending());
                }
            } else {
                proof {
                    assert(out@ =~= out@ + it.pending());
                }
                break ;
            }
        }
        out
    }
}

impl<T: Inc> Clone for GapIter<T> {
    /// Duplicate the iterator, cursor position included: the clone has
    /// exactly the gaps the original has yet to produce, and the two
    /// advance independently from here on.
    fn clone(&self) -> (r: Self)
        ensures
            r.wf() == self.wf(),
            r.live() == self.live(),
            r.remaining() == self.remaining(),
            r.frontier() == self.frontier(),
            r.query_end() == self.query_end(),
            r.pending() == self.pending(),
    {
        let mut items: Vec<T> = Vec::new();
        let mut i: usize = 0;
        while i < self.items.len()
            invariant
                i <= self.items@.len(),
                items@ == self.items@.subrange(0, i as int),
            decreases self.items@.len() - i,
        {
            let x = self.items[i];
            items.push(x);
            proof {
                assert(items@ =~= self.items@.subrange(0, i + 1));
            }
            i = i + 1;
        }
        proof {
            assert(items@ =~= self.items@);
        }
        GapIter { items, cursor: self.cursor, start: self.start, end: self.end }
    }
}

/// Cloning law: two iterators in the same abstract state — the same
/// remaining elements, frontier, query end and liveness, as a clone
/// and its original are — have the same gaps yet to come, and `next`
/// produces exactly the head of those, so driving both to exhaustion
/// yields identical output sequences.
pub proof fn lemma_same_state_same_gaps<T: Inc>(a: GapIter<T>, b: GapIter<T>)
    requires
        a.live() == b.live(),
        a.remaining() == b.remaining(),
        a.frontier() == b.frontier(),
        a.query_end() == b.query_end(),
    ensures
        a.pending() == b.pending(),
{
}

/// An extension trait that provides range based access to the "gaps"
/// between ordered elements of a sequence.
///
/// E.g., given the ordered elements {1, 3, 4}, the gaps in the range
/// `0..=6` would be: `[0..1, 2..3, 5..=6]`.
pub trait Gappable<T: Inc> {
    /// The elements of the sequence, in order.
    spec fn elements(&self) -> Seq<T>;

    /// Create a new [`GapIter`] that yields ranges identifying the
    /// gaps in a certain range of the sequence.
    fn gaps<R: RangeLike<T>>(self, range: R) -> (r: GapIter<T>)
        requires
            ascending(self.elements()),
        ensures
            r.wf(),
            r.live(),
            r.remaining() == self.elements(),
            r.frontier() == range.start_bound(),
            r.query_end() == range.end_bound(),
    ;
}

impl<T: Inc> Gappable<T> for Vec<T> {
    open spec fn elements(&self) -> Seq<T> {
        self@
    }

    fn gaps<R: RangeLike<T>>(self, range: R) -> (r: GapIter<T>) {
        let (start, end) = bounds(&range);
        GapIter::new(self, start, end)
    }
}

/// The set of integers that the elements of a set stand for.
pub open spec fn stood_for<T: Inc>(s: Set<T>) -> Set<int> {
    Set::new(|x: int| exists|e: T| #[trigger] s.contains(e) && e.value() == x)
}

/// Relies on `BTreeSet::range`: it yields exactly the set's elements
/// lying between the two bounds, in ascending order. The `Inc`
/// capability pins the element type's `Ord` to the order of the
/// integers the elements stand for and makes the standing-for mapping
/// injective, so the yielded elements ascend in that order and hold
/// exactly the set's values within the range.
#[verifier::external_body]
fn btree_set_range<T: Inc>(set: &BTreeSet<T>, lo: Bound<T>, hi: Bound<T>) -> (r: Vec<T>)
    requires
        spec_start_le_end(lo, hi),
    ensures
        ascending(r@),
        forall|x: int| #[trigger]
            has_value(r@, x) <==> (stood_for(set@).contains(x) && in_range(lo, hi, x)),
{
    set.range((lo, hi)).copied().collect()
}

/// Relies on `BTreeMap::range`: it yields exactly the map's entries
/// whose keys lie between the two bounds, in ascending key order; the
/// wrapper keeps the keys. The `Inc` capability pins the key type's
/// `Ord` to the order of the integers the keys stand for and makes the
/// standing-for mapping injective, so the yielded keys ascend in that
/// order and hold exactly the map's keys within the range.
#[verifier::external_body]
fn btree_map_range_keys<K: Inc, V>(map: &BTreeMap<K, V>, lo: Bound<K>, hi: Bound<K>) -> (r: Vec<
    K,
>)
    requires
        spec_start_le_end(lo, hi),
    ensures
        ascending(r@),
        forall|x: int| #[trigger]
            has_value(r@, x) <==> (stood_for(map@.dom()).contains(x) && in_range(lo, hi, x)),
{
    map.range((lo, hi)).map(|(k, _v)| *k).collect()
}

/// An extension trait that provides range based access to the "gaps" in
/// collections with a native sub-range query.
///
/// `BTreeSet` and `BTreeMap` are the two most prominent examples of
/// such collections. The gap computation only ever depends on the
/// collection's keys or elements, never on any associated data.
pub trait RangeGappable<T: Inc> {
    /// The set of integers that the collection's elements (or keys)
    /// stand for.
    spec fn spec_values(&self) -> Set<int>;

    /// Create a new [`GapIter`] that yields ranges identifying the
    /// gaps in a certain range of the collection.
    fn gaps<R: RangeLike<T>>(&self, range: R) -> (r: GapIter<T>)
        ensures
            r.wf(),
            r.live(),
            r.frontier() == range.start_bound(),
            r.query_end() == range.end_bound(),
            ascending(r.remaining()),
            forall|x: int| #[trigger]
                has_value(r.remaining(), x) <==> (self.spec_values().contains(x) && in_range(
                    range.start_bound(),
                    range.end_bound(),
                    x,
                )),
    ;
}

impl<T: Inc> RangeGappable<T> for BTreeSet<T> {
    open spec fn spec_values(&self) -> Set<int> {
        stood_for(self@)
    }

    fn gaps<R: RangeLike<T>>(&self, range: R) -> (r: GapIter<T>) {
        let (start, end) = bounds(&range);
        let items = if start_le_end(&start, &end) {
            btree_set_range(self, start, end)
        } else {
            // A range already known to be empty: the query yields no
            // elements and no gaps.
            Vec::new()
        };
        proof {
            lemma_start_le_end_iff(start, end);
        }
        GapIter::new(items, start, end)
    }
}

impl<K: Inc, V> RangeGappable<K> for BTreeMap<K, V> {
    open spec fn spec_values(&self) -> Set<int> {
        stood_for(self@.dom())
    }

    fn gaps<R: RangeLike<K>>(&self, range: R) -> (r: GapIter<K>) {
        let (start, end) = bounds(&range);
        let items = if start_le_end(&start, &end) {
            btree_map_range_keys(self, start, end)
        } else {
            // A range already known to be empty: the query yields no
            // keys and no gaps.
            Vec::new()
        };
        proof {
            lemma_start_le_end_iff(start, end);
        }
        GapIter::new(items, start, end)
    }
}

} // verus!
