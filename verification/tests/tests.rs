use std::collections::BTreeMap;
use std::collections::BTreeSet;
use std::ops::Bound;
use std::ops::Bound::Excluded;
use std::ops::Bound::Included;
use std::ops::Bound::Unbounded;

use gaps::range::bounds;
use gaps::Gappable as _;
use gaps::RangeGappable as _;

#[test]
fn set_gap_iteration_empty() {
    let r = BTreeSet::<usize>::new();
    assert_eq!(
        r.gaps(0..=0).into_vec(),
        vec![(Included(0), Included(0))]
    );
    assert_eq!(
        r.gaps(0..=1).into_vec(),
        vec![(Included(0), Included(1))]
    );
    assert_eq!(
        r.gaps(0..=2).into_vec(),
        vec![(Included(0), Included(2))]
    );
    assert_eq!(
        r.gaps(1..=3).into_vec(),
        vec![(Included(1), Included(3))]
    );
    assert_eq!(
        r.gaps(0..).into_vec(),
        vec![(Included(0), Unbounded)]
    );
    assert_eq!(
        r.gaps(..0).into_vec(),
        vec![(Unbounded, Excluded(0))]
    );
    assert_eq!(
        r.gaps(..=0).into_vec(),
        vec![(Unbounded, Included(0))]
    );
    assert_eq!(r.gaps(..).into_vec(), vec![(Unbounded, Unbounded)]);
}

#[test]
fn set_gap_iteration_1() {
    let mut r = BTreeSet::<usize>::new();
    let _ = r.insert(2);

    assert_eq!(
        r.gaps(0..=0).into_vec(),
        vec![(Included(0), Included(0))]
    );
    assert_eq!(
        r.gaps(0..=1).into_vec(),
        vec![(Included(0), Included(1))]
    );
    assert_eq!(
        r.gaps(0..=2).into_vec(),
        vec![(Included(0), Excluded(2))]
    );
    assert_eq!(
        r.gaps(1..=2).into_vec(),
        vec![(Included(1), Excluded(2))]
    );
    assert_eq!(
        r.gaps(0..=3).into_vec(),
        vec![(Included(0), Excluded(2)), (Excluded(2), Included(3))]
    );
    assert_eq!(
        r.gaps(0..).into_vec(),
        vec![(Included(0), Excluded(2)), (Excluded(2), Unbounded)]
    );
    assert_eq!(
        r.gaps(..9).into_vec(),
        vec![(Unbounded, Excluded(2)), (Excluded(2), Excluded(9))]
    );
    assert_eq!(
        r.gaps(..).into_vec(),
        vec![(Unbounded, Excluded(2)), (Excluded(2), Unbounded)]
    );
}

#[test]
fn set_gap_iteration_2() {
    let mut r = BTreeSet::<usize>::new();
    let _ = r.insert(2);
    let _ = r.insert(1);

    assert_eq!(
        r.gaps(0..=0).into_vec(),
        vec![(Included(0), Included(0))]
    );
    assert_eq!(
        r.gaps(0..=1).into_vec(),
        vec![(Included(0), Excluded(1))]
    );
    assert_eq!(
        r.gaps(0..=2).into_vec(),
        vec![(Included(0), Excluded(1))]
    );
    assert_eq!(r.gaps(1..=2).into_vec(), vec![]);
    assert_eq!(
        r.gaps(0..=3).into_vec(),
        vec![(Included(0), Excluded(1)), (Excluded(2), Included(3))]
    );
    assert_eq!(
        r.gaps(0..=6).into_vec(),
        vec![(Included(0), Excluded(1)), (Excluded(2), Included(6))]
    );
    assert_eq!(
        r.gaps(0..).into_vec(),
        vec![(Included(0), Excluded(1)), (Excluded(2), Unbounded)]
    );
    assert_eq!(
        r.gaps(..9).into_vec(),
        vec![(Unbounded, Excluded(1)), (Excluded(2), Excluded(9))]
    );
    assert_eq!(
        r.gaps(..).into_vec(),
        vec![(Unbounded, Excluded(1)), (Excluded(2), Unbounded)]
    );
}

#[test]
fn set_gap_iteration_3() {
    let mut r = BTreeSet::<usize>::new();
    let _ = r.insert(2);
    let _ = r.insert(1);
    let _ = r.insert(4);

    assert_eq!(
        r.gaps(0..=0).into_vec(),
        vec![(Included(0), Included(0))]
    );
    assert_eq!(
        r.gaps(0..=1).into_vec(),
        vec![(Included(0), Excluded(1))]
    );
    assert_eq!(
        r.gaps(0..=2).into_vec(),
        vec![(Included(0), Excluded(1))]
    );
    assert_eq!(r.gaps(1..=2).into_vec(), vec![]);
    assert_eq!(
        r.gaps(0..=3).into_vec(),
        vec![(Included(0), Excluded(1)), (Excluded(2), Included(3))]
    );
    assert_eq!(
        r.gaps(0..=4).into_vec(),
        vec![(Included(0), Excluded(1)), (Excluded(2), Excluded(4))]
    );
    assert_eq!(
        r.gaps(0..=5).into_vec(),
        vec![
            (Included(0), Excluded(1)),
            (Excluded(2), Excluded(4)),
            (Excluded(4), Included(5))
        ]
    );
    assert_eq!(
        r.gaps(0..=6).into_vec(),
        vec![
            (Included(0), Excluded(1)),
            (Excluded(2), Excluded(4)),
            (Excluded(4), Included(6))
        ]
    );

    assert_eq!(
        r.gaps(0..).into_vec(),
        vec![
            (Included(0), Excluded(1)),
            (Excluded(2), Excluded(4)),
            (Excluded(4), Unbounded)
        ]
    );
    assert_eq!(
        r.gaps(..9).into_vec(),
        vec![
            (Unbounded, Excluded(1)),
            (Excluded(2), Excluded(4)),
            (Excluded(4), Excluded(9))
        ]
    );
    assert_eq!(
        r.gaps(..).into_vec(),
        vec![
            (Unbounded, Excluded(1)),
            (Excluded(2), Excluded(4)),
            (Excluded(4), Unbounded)
        ]
    );
}

#[test]
fn iterator_gap_iteration() {
    let mut r = BTreeMap::<usize, &str>::new();
    assert_eq!(
        r.iter()
            .map(|(x, _)| x)
            .copied()
            .collect::<Vec<_>>()
            .gaps(0..=0)
            .into_vec(),
        vec![(Included(0), Included(0))]
    );

    let _ = r.insert(1, "foo");
    let _ = r.insert(99, "bar");
    assert_eq!(
        r.iter()
            .map(|(x, _)| x)
            .copied()
            .collect::<Vec<_>>()
            .gaps(0..2)
            .into_vec(),
        vec![(Included(0), Excluded(1))]
    );
    assert_eq!(
        r.iter()
            .map(|(x, _)| x)
            .copied()
            .collect::<Vec<_>>()
            .gaps(0..)
            .into_vec(),
        vec![
            (Included(0), Excluded(1)),
            (Excluded(1), Excluded(99)),
            (Excluded(99), Unbounded),
        ]
    );
}

/// Check that we can clone a [`GapIter`] object and iteration still
/// works as expected.
#[test]
fn gap_iterator_cloning() {
    let mut set = BTreeSet::<usize>::new();
    let _ = set.insert(1);
    let _ = set.insert(2);
    let _ = set.insert(4);
    let _ = set.insert(7);

    let mut it1 = set.gaps(1..=7);
    assert_eq!(it1.next().unwrap(), (Excluded(2), Excluded(4)));

    let mut it2 = it1.clone();
    assert_eq!(it1.next().unwrap(), (Excluded(4), Excluded(7)));
    assert_eq!(it2.next().unwrap(), (Excluded(4), Excluded(7)));

    assert_eq!(it1.next(), None);
    assert_eq!(it2.next(), None);
}

#[test]
fn tests_extract_bounds() {
    assert_eq!(bounds(&(2..=5)), (Included(2), Included(5)));
    assert_eq!(bounds(&(1..4)), (Included(1), Excluded(4)));
    assert_eq!(bounds(&(42..)), (Included(42), Unbounded));

    assert_eq!(
        bounds(&(Excluded(2), Included(5))),
        (Excluded(2), Included(5))
    );
    assert_eq!(
        bounds(&(Excluded(1), Excluded(4))),
        (Excluded(1), Excluded(4))
    );
    assert_eq!(bounds(&(Excluded(8), Unbounded)), (Excluded(8), Unbounded));

    assert_eq!(bounds(&(..=5)), (Unbounded, Included(5)));
    assert_eq!(bounds(&(..4)), (Unbounded, Excluded(4)));
    assert_eq!(bounds::<_, u8>(&(..)), (Unbounded, Unbounded));
}

/// A `GapIter` built directly from a vector of elements and an
/// explicit pair of bounds behaves as one built through the traits.
#[test]
fn direct_construction() {
    let mut it = gaps::GapIter::new(vec![2usize], Included(0), Included(3));
    assert_eq!(it.next(), Some((Included(0), Excluded(2))));
    assert_eq!(it.next(), Some((Excluded(2), Included(3))));
    assert_eq!(it.next(), None);
    assert_eq!(it.next(), None);
}

/// The adjacency case: an excluded endpoint at a value touches an
/// included endpoint at the value's successor, so nothing is reported
/// between the two.
#[test]
fn adjacency_correctness() {
    let mut set = BTreeSet::<usize>::new();
    let _ = set.insert(2);
    assert_eq!(
        set.gaps(0..=3).into_vec(),
        vec![(Included(0), Excluded(2)), (Excluded(2), Included(3))]
    );

    let v: Vec<usize> = vec![1, 3, 4];
    assert_eq!(
        v.gaps(0..=6).into_vec(),
        vec![
            (Included(0), Excluded(1)),
            (Excluded(1), Excluded(3)),
            (Excluded(4), Included(6))
        ]
    );
}

/// Adjacent and repeated values collapse into one advancing frontier:
/// no spurious zero-width gap appears between them.
#[test]
fn adjacent_points_collapse() {
    let v: Vec<usize> = vec![1, 2];
    assert_eq!(v.gaps(0..=2).into_vec(), vec![(Included(0), Excluded(1))]);

    let dup: Vec<usize> = vec![1, 1, 2, 2];
    assert_eq!(dup.gaps(0..=2).into_vec(), vec![(Included(0), Excluded(1))]);
}

/// A query range whose start exceeds its end yields no gaps at all.
#[test]
fn descending_query_is_empty() {
    let r = BTreeSet::<usize>::new();
    assert_eq!(r.gaps((Included(5), Included(3))).into_vec(), vec![]);
    assert_eq!(
        r.gaps((Excluded(3), Excluded(4))).into_vec(),
        vec![]
    );

    let v: Vec<usize> = vec![1, 7];
    assert_eq!(v.gaps((Included(5), Included(3))).into_vec(), vec![]);
}

/// The keys of a map drive the gap computation; the associated values
/// play no part in it.
#[test]
fn map_gap_iteration() {
    let mut r = BTreeMap::<usize, &str>::new();
    let _ = r.insert(1, "foo");
    let _ = r.insert(99, "bar");

    assert_eq!(
        r.gaps(0..2).into_vec(),
        vec![(Included(0), Excluded(1))]
    );
    assert_eq!(
        r.gaps(0..).into_vec(),
        vec![
            (Included(0), Excluded(1)),
            (Excluded(1), Excluded(99)),
            (Excluded(99), Unbounded),
        ]
    );
}

/// On concrete values: the produced gaps and the sequence's elements
/// together cover the query range exactly, without overlap, and every
/// gap is non-empty and starts after the one before it.
#[test]
fn coverage_on_concrete_values() {
    let elems: Vec<usize> = vec![1, 3, 4];
    let in_some_gap = |gs: &Vec<(Bound<usize>, Bound<usize>)>, x: usize| -> bool {
        gs.iter()
            .filter(|(s, e)| {
                let after_start = match s {
                    Included(a) => *a <= x,
                    Excluded(a) => *a < x,
                    Unbounded => true,
                };
                let before_end = match e {
                    Included(b) => x <= *b,
                    Excluded(b) => x < *b,
                    Unbounded => true,
                };
                after_start && before_end
            })
            .count()
            == 1
    };

    let gs = elems.clone().gaps(0..=6).into_vec();
    for x in 0..=6usize {
        if elems.contains(&x) {
            assert!(!in_some_gap(&gs, x));
        } else {
            assert!(in_some_gap(&gs, x));
        }
    }

    for pair in gs.windows(2) {
        let earlier = &pair[0];
        let later = &pair[1];
        assert!(gaps::bounds::start_lt_start(&earlier.0, &later.0));
    }
    for (s, e) in &gs {
        assert!(gaps::bounds::start_le_end(s, e));
    }
}
