use std::ops::Bound::Excluded;
use std::ops::Bound::Included;
use std::ops::Bound::Unbounded;

use gaps::bounds::end_lt_end;
use gaps::bounds::start_le_end;
use gaps::bounds::start_le_start;
use gaps::bounds::start_lt_start;
use gaps::range::bounds;

#[test]
fn start_less_than_start() {
    assert!(start_lt_start(&Included(0), &Included(2)));
    assert!(start_lt_start(&Included(1), &Included(2)));
    assert!(!start_lt_start(&Included(2), &Included(2)));

    assert!(start_lt_start(&Included(2), &Excluded(3)));
    assert!(start_lt_start(&Included(3), &Excluded(3)));
    assert!(!start_lt_start(&Included(4), &Excluded(3)));

    assert!(!start_lt_start(&Included(4), &Unbounded));

    assert!(start_lt_start(&Excluded(1), &Included(4)));
    assert!(start_lt_start(&Excluded(2), &Included(4)));
    assert!(!start_lt_start(&Excluded(3), &Included(4)));

    assert!(start_lt_start(&Excluded(0), &Excluded(2)));
    assert!(start_lt_start(&Excluded(1), &Excluded(2)));
    assert!(!start_lt_start(&Excluded(2), &Excluded(2)));

    assert!(!start_lt_start(&Excluded(2), &Unbounded));

    assert!(start_lt_start(&Unbounded, &Included(2)));
    assert!(start_lt_start(&Unbounded, &Excluded(2)));
    assert!(!start_lt_start::<u8>(&Unbounded, &Unbounded));
}

#[test]
fn start_less_than_or_equal_start() {
    assert!(start_le_start(&Included(1), &Included(2)));
    assert!(start_le_start(&Included(2), &Included(2)));
    assert!(!start_le_start(&Included(3), &Included(2)));

    assert!(start_le_start(&Included(3), &Excluded(3)));
    assert!(start_le_start(&Included(4), &Excluded(3)));
    assert!(!start_le_start(&Included(5), &Excluded(3)));

    assert!(!start_le_start(&Included(4), &Unbounded));

    assert!(start_le_start(&Excluded(2), &Included(4)));
    assert!(start_le_start(&Excluded(3), &Included(4)));
    assert!(!start_le_start(&Excluded(4), &Included(4)));

    assert!(start_le_start(&Excluded(1), &Excluded(2)));
    assert!(start_le_start(&Excluded(2), &Excluded(2)));
    assert!(!start_le_start(&Excluded(3), &Excluded(2)));

    assert!(!start_le_start(&Excluded(2), &Unbounded));

    assert!(start_le_start(&Unbounded, &Included(2)));
    assert!(start_le_start(&Unbounded, &Excluded(2)));
    assert!(start_le_start::<u8>(&Unbounded, &Unbounded));
}

#[test]
fn start_less_or_equal_end() {
    assert!(start_le_end(&Included(1), &Included(3)));
    assert!(start_le_end(&Included(3), &Included(3)));
    assert!(!start_le_end(&Included(3), &Included(2)));

    assert!(start_le_end(&Included(2), &Excluded(4)));
    assert!(start_le_end(&Included(3), &Excluded(4)));
    assert!(!start_le_end(&Included(3), &Excluded(3)));

    assert!(start_le_end(&Included(3), &Unbounded));

    assert!(start_le_end(&Excluded(3), &Included(5)));
    assert!(start_le_end(&Excluded(3), &Included(4)));
    assert!(!start_le_end(&Excluded(4), &Included(4)));

    assert!(start_le_end(&Excluded(2), &Excluded(5)));
    assert!(start_le_end(&Excluded(2), &Excluded(4)));
    assert!(!start_le_end(&Excluded(3), &Excluded(4)));

    assert!(start_le_end(&Excluded(3), &Unbounded));

    assert!(start_le_end(&Unbounded, &Included(5)));
    assert!(start_le_end(&Unbounded, &Excluded(5)));
    assert!(start_le_end::<u8>(&Unbounded, &Unbounded));
}

#[test]
fn end_less_than_end() {
    assert!(end_lt_end(&Included(0), &Included(2)));
    assert!(end_lt_end(&Included(1), &Included(2)));
    assert!(!end_lt_end(&Included(2), &Included(2)));

    assert!(end_lt_end(&Included(0), &Excluded(3)));
    assert!(end_lt_end(&Included(1), &Excluded(3)));
    assert!(!end_lt_end(&Included(2), &Excluded(3)));

    assert!(end_lt_end(&Included(4), &Unbounded));

    assert!(end_lt_end(&Excluded(1), &Included(2)));
    assert!(end_lt_end(&Excluded(2), &Included(2)));
    assert!(!end_lt_end(&Excluded(3), &Included(2)));

    assert!(end_lt_end(&Excluded(0), &Excluded(2)));
    assert!(end_lt_end(&Excluded(1), &Excluded(2)));
    assert!(!end_lt_end(&Excluded(2), &Excluded(2)));

    assert!(end_lt_end(&Excluded(2), &Unbounded));

    assert!(!end_lt_end(&Unbounded, &Included(2)));
    assert!(!end_lt_end(&Unbounded, &Excluded(2)));
    assert!(!end_lt_end::<u8>(&Unbounded, &Unbounded));
}

#[test]
fn bounds_extract_bounds() {
    assert_eq!(bounds(&(2..=5)), (Included(2), Included(5)));
    assert_eq!(bounds(&(1..4)), (Included(1), Excluded(4)));
    assert_eq!(bounds(&(42..)), (Included(42), Unbounded));

    assert_eq!(
        bounds(&(Excluded(2), Included(5))),
        (Excluded(2), Included(5))
    );
    assert_eq!(
        bounds(&(Excluded(1), Excluded(4))),
        (Excluded(1), Excluded(4))
    );
    assert_eq!(bounds(&(Excluded(8), Unbounded)), (Excluded(8), Unbounded));

    assert_eq!(bounds(&(..=5)), (Unbounded, Included(5)));
    assert_eq!(bounds(&(..4)), (Unbounded, Excluded(4)));
    assert_eq!(bounds::<_, u8>(&(..)), (Unbounded, Unbounded));
}
