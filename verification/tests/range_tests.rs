use page_backed::ids::PageIndex;
use page_backed::range::{
    PageRange, RangeReservationError, RangeReservationKind, RangeReservationTable,
};

#[test]
fn range_reservation_rejects_overlapping_exclusive_ranges() {
    let mut table = RangeReservationTable::new();
    let first = table
        .try_reserve(
            PageRange::new(PageIndex::new(4), 4),
            RangeReservationKind::Truncate,
        )
        .expect("first range should reserve");

    let error = table
        .try_reserve(
            PageRange::new(PageIndex::new(6), 2),
            RangeReservationKind::DirectWrite,
        )
        .expect_err("overlapping direct write must conflict with truncate");

    assert_eq!(
        error,
        RangeReservationError::Conflict {
            existing: first.id(),
            kind: RangeReservationKind::Truncate,
        }
    );
    assert_eq!(table.len(), 1);
}

#[test]
fn range_reservation_allows_non_overlapping_and_shared_reads() {
    let mut table = RangeReservationTable::new();
    table
        .try_reserve(
            PageRange::new(PageIndex::new(0), 4),
            RangeReservationKind::BufferedRead,
        )
        .expect("first buffered read should reserve");
    table
        .try_reserve(
            PageRange::new(PageIndex::new(2), 2),
            RangeReservationKind::BufferedRead,
        )
        .expect("overlapping buffered reads should share");
    table
        .try_reserve(
            PageRange::new(PageIndex::new(8), 2),
            RangeReservationKind::DirectWrite,
        )
        .expect("non-overlapping direct write should reserve");

    assert_eq!(table.len(), 3);
}

#[test]
fn range_reservation_release_before_yield_allows_retry() {
    let mut table = RangeReservationTable::new();
    let reservation = table
        .try_reserve(
            PageRange::new(PageIndex::new(10), 2),
            RangeReservationKind::Fsync,
        )
        .expect("fsync range should reserve");

    assert!(table.release(reservation.id()));
    assert!(table.is_empty());

    table
        .try_reserve(
            PageRange::new(PageIndex::new(10), 2),
            RangeReservationKind::DirectWrite,
        )
        .expect("retry after release-before-yield should reserve");
}

#[test]
fn empty_and_overflowing_ranges_are_refused() {
    let mut table = RangeReservationTable::new();
    assert_eq!(
        table.try_reserve(
            PageRange::new(PageIndex::new(3), 0),
            RangeReservationKind::Writeback,
        ),
        Err(RangeReservationError::EmptyRange)
    );
    assert_eq!(
        table.try_reserve(
            PageRange::new(PageIndex::new(u64::MAX), 1),
            RangeReservationKind::Writeback,
        ),
        Err(RangeReservationError::Overflow)
    );
    assert!(table.is_empty());
}

#[test]
fn page_range_end_membership_and_overlap() {
    let range = PageRange::new(PageIndex::new(4), 3);
    assert_eq!(range.end(), Some(PageIndex::new(7)));
    assert!(range.contains(PageIndex::new(4)));
    assert!(range.contains(PageIndex::new(6)));
    assert!(!range.contains(PageIndex::new(7)));
    assert!(range.overlaps(PageRange::new(PageIndex::new(6), 5)));
    assert!(!range.overlaps(PageRange::new(PageIndex::new(7), 5)));
    assert_eq!(PageRange::new(PageIndex::new(u64::MAX), 1).end(), None);
}

#[test]
fn releasing_an_unknown_reservation_changes_nothing() {
    let mut table = RangeReservationTable::new();
    let reservation = table
        .try_reserve(
            PageRange::new(PageIndex::new(0), 1),
            RangeReservationKind::Fallocate,
        )
        .expect("reserve");
    assert!(table.contains(reservation.id()));
    assert!(table.release(reservation.id()));
    assert!(!table.contains(reservation.id()));
    assert!(!table.release(reservation.id()));
    assert_eq!(table.len(), 0);
}

#[test]
fn a_table_contains_what_was_reserved_and_not_released() {
    let mut table = RangeReservationTable::new();
    let reserve = |table: &mut RangeReservationTable, start: u64| {
        table.try_reserve(PageRange::new(PageIndex::new(start), 1), RangeReservationKind::Truncate)
    };
    let first = reserve(&mut table, 0).expect("first").id();
    let second = reserve(&mut table, 1).expect("second").id();
    assert!(reserve(&mut table, 0).is_err());
    assert_eq!(table.len(), 2);
    assert!(table.release(first));
    assert!(!table.release(first));
    assert!(!table.contains(first) && table.contains(second));
    let again = reserve(&mut table, 0).expect("again").id();
    assert_ne!(again, first);
    assert!(!table.contains(first) && table.contains(again));
    assert_eq!(table.len(), 2);
}
