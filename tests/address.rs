use lance_index::address::{RowAddress, FRAGMENT_SIZE, TOMBSTONE_FRAG, TOMBSTONE_ROW};

#[test]
fn from_parts_packs_and_projects() {
    let a = RowAddress::new_from_parts(3, 7);
    assert_eq!(u64::from(a), (3u64 << 32) | 7);
    assert_eq!(a.fragment_id(), 3);
    assert_eq!(a.row_offset(), 7);
    assert_eq!(a.to_text(), "(3, 7)");
}

#[test]
fn address_range_of_first_fragment() {
    let r = RowAddress::address_range(0);
    assert_eq!(r, 0..(1u64 << 32));
    assert_eq!(r.end - r.start, FRAGMENT_SIZE);
}

#[test]
fn address_range_is_fragment_sized_and_disjoint() {
    let a = RowAddress::address_range(41);
    let b = RowAddress::address_range(42);
    assert_eq!(a.end - a.start, FRAGMENT_SIZE);
    assert_eq!(a.end, b.start);
    assert_eq!(RowAddress::new_from_u64(a.start).fragment_id(), 41);
    assert_eq!(RowAddress::new_from_u64(a.end - 1).fragment_id(), 41);
    assert!(!b.contains(&(a.end - 1)));
}

#[test]
fn address_range_of_last_fragment_ends_at_tombstone_fragment() {
    let r = RowAddress::address_range(0xffff_fffe);
    assert_eq!(r.end, u64::from(RowAddress::first_row(TOMBSTONE_FRAG)));
}

#[test]
fn round_trip_of_parts() {
    let cases: [(u32, u32); 5] = [(0, 0), (1, 0), (0, 1), (u32::MAX - 1, u32::MAX), (123456, 654321)];
    for (f, o) in cases {
        let a = RowAddress::new_from_parts(f, o);
        assert_eq!((a.fragment_id(), a.row_offset()), (f, o));
        assert!(RowAddress::from(u64::from(a)) == a);
    }
}

#[test]
fn raw_value_round_trips() {
    for raw in [0u64, 1, 0x1234_5678_9abc_def0, TOMBSTONE_ROW] {
        let a = RowAddress::new_from_u64(raw);
        let b = RowAddress::new_from_parts(a.fragment_id(), a.row_offset());
        assert_eq!(u64::from(b), raw);
    }
}

#[test]
fn tombstone_only_from_tombstone_fragment() {
    assert_ne!(u64::from(RowAddress::new_from_parts(TOMBSTONE_FRAG - 1, u32::MAX)), TOMBSTONE_ROW);
    assert_ne!(u64::from(RowAddress::new_from_parts(0, u32::MAX)), TOMBSTONE_ROW);
    assert_eq!(u64::from(RowAddress::new_from_parts(TOMBSTONE_FRAG, u32::MAX)), TOMBSTONE_ROW);
}

#[test]
fn first_row_has_offset_zero() {
    let a = RowAddress::first_row(9);
    assert_eq!(u64::from(a), 9u64 << 32);
    assert_eq!(a.row_offset(), 0);
    assert_eq!(RowAddress::new_from_u64(TOMBSTONE_ROW).to_text(), "(4294967295, 4294967295)");
}

#[test]
fn addresses_order_fragment_major() {
    assert!(RowAddress::new_from_parts(1, 0) > RowAddress::new_from_parts(0, u32::MAX));
    assert!(RowAddress::new_from_parts(2, 3) < RowAddress::new_from_parts(2, 4));
}
