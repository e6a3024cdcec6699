use andromeda::layout::{reconstruct, layout_from_sorted, LayoutError, PartitionRecord, Segment, GAP_THRESHOLD};

fn rec(offset: u64, size: u64, index: usize) -> PartitionRecord {
    PartitionRecord { offset, size, index }
}

fn free(offset: u64, size: u64) -> Segment {
    Segment::Free { offset, size }
}

fn total(layout: &[Segment]) -> u64 {
    layout.iter().map(|s| s.size()).sum()
}

#[test]
fn empty_drive_is_one_free_segment() {
    let layout = reconstruct(1_000_000_000, &vec![]).unwrap();
    assert_eq!(layout, vec![free(0, 1_000_000_000)]);
}

#[test]
fn empty_drive_of_one_byte() {
    let layout = reconstruct(1, &vec![]).unwrap();
    assert_eq!(layout, vec![free(0, 1)]);
}

#[test]
fn single_partition_with_leading_and_trailing_space() {
    let p = rec(1_048_576, 500_000_000, 0);
    let layout = reconstruct(1_000_000_000, &vec![p]).unwrap();
    assert_eq!(
        layout,
        vec![free(0, 1_048_576), Segment::Occupied(p), free(501_048_576, 498_951_424)]
    );
    assert_eq!(total(&layout), 1_000_000_000);
}

#[test]
fn back_to_back_partitions_leave_no_free_segment() {
    let a = rec(0, 100_000, 0);
    let b = rec(100_000, 200_000, 1);
    let layout = reconstruct(300_000, &vec![a, b]).unwrap();
    assert_eq!(layout, vec![Segment::Occupied(a), Segment::Occupied(b)]);
    assert_eq!(layout.iter().filter(|s| s.is_free()).count(), 0);
    assert_eq!(layout.iter().filter(|s| !s.is_free()).count(), 2);
}

#[test]
fn small_gap_between_partitions_is_not_free_space() {
    let a = rec(0, 100_000, 0);
    let b = rec(100_400, 200_000, 1);
    let layout = reconstruct(300_400, &vec![a, b]).unwrap();
    assert_eq!(layout, vec![Segment::Occupied(a), Segment::Occupied(b)]);
    assert_eq!(total(&layout), 300_000);
}

#[test]
fn gap_of_exactly_the_threshold_is_padding() {
    let a = rec(0, 1_000, 0);
    let b = rec(1_000 + GAP_THRESHOLD, 1_000, 1);
    let layout = reconstruct(2_000 + GAP_THRESHOLD, &vec![a, b]).unwrap();
    assert_eq!(layout, vec![Segment::Occupied(a), Segment::Occupied(b)]);
}

#[test]
fn gap_just_above_the_threshold_is_free_space() {
    let a = rec(0, 1_000, 0);
    let b = rec(1_513, 1_000, 1);
    let layout = reconstruct(2_513, &vec![a, b]).unwrap();
    assert_eq!(layout, vec![Segment::Occupied(a), free(1_000, 513), Segment::Occupied(b)]);
    assert_eq!(total(&layout), 2_513);
}

#[test]
fn partitions_given_out_of_order_are_sorted() {
    let a = rec(2_048, 10_000, 0);
    let b = rec(1_000_000, 50_000, 1);
    let c = rec(40_000, 4_096, 2);
    let layout = reconstruct(2_000_000, &vec![b, c, a]).unwrap();
    assert_eq!(
        layout,
        vec![
            free(0, 2_048),
            Segment::Occupied(a),
            free(12_048, 27_952),
            Segment::Occupied(c),
            free(44_096, 955_904),
            Segment::Occupied(b),
            free(1_050_000, 950_000),
        ]
    );
    assert_eq!(total(&layout), 2_000_000);
    for w in layout.windows(2) {
        assert!(w[0].offset() < w[1].offset());
        assert_eq!(w[0].offset() + w[0].size(), w[1].offset());
        assert!(!(w[0].is_free() && w[1].is_free()));
    }
}

#[test]
fn partition_filling_the_whole_drive() {
    let a = rec(0, 4_096, 0);
    let layout = reconstruct(4_096, &vec![a]).unwrap();
    assert_eq!(layout, vec![Segment::Occupied(a)]);
}

#[test]
fn partition_reaching_the_last_byte_of_the_largest_drive() {
    let a = rec(u64::MAX - 4_096, 4_096, 0);
    let layout = reconstruct(u64::MAX, &vec![a]).unwrap();
    assert_eq!(layout, vec![free(0, u64::MAX - 4_096), Segment::Occupied(a)]);
}

#[test]
fn empty_partition_is_rejected() {
    assert_eq!(reconstruct(10_000, &vec![rec(0, 0, 0)]), Err(LayoutError::InvalidRecord));
}

#[test]
fn partition_past_the_end_is_rejected() {
    assert_eq!(
        reconstruct(10_000, &vec![rec(5_000, 5_001, 0)]),
        Err(LayoutError::InvalidRecord)
    );
    assert_eq!(
        reconstruct(u64::MAX, &vec![rec(u64::MAX, u64::MAX, 0)]),
        Err(LayoutError::InvalidRecord)
    );
}

#[test]
fn overlapping_partitions_are_inconsistent() {
    let a = rec(0, 6_000, 0);
    let b = rec(5_000, 2_000, 1);
    assert_eq!(reconstruct(10_000, &vec![b, a]), Err(LayoutError::Inconsistent));
}

#[test]
fn equal_partitions_are_inconsistent() {
    let a = rec(1_000, 2_000, 0);
    assert_eq!(reconstruct(10_000, &vec![a, a]), Err(LayoutError::Inconsistent));
}

#[test]
fn invalid_record_is_reported_before_overlap() {
    let a = rec(0, 6_000, 0);
    let b = rec(5_000, 2_000, 1);
    let c = rec(9_000, 0, 2);
    assert_eq!(reconstruct(10_000, &vec![a, b, c]), Err(LayoutError::InvalidRecord));
}

#[test]
fn layout_from_sorted_records() {
    let a = rec(1_024, 1_024, 0);
    let b = rec(4_096, 1_024, 1);
    let layout = layout_from_sorted(10_000, &vec![a, b]);
    assert_eq!(
        layout,
        vec![
            free(0, 1_024),
            Segment::Occupied(a),
            free(2_048, 2_048),
            Segment::Occupied(b),
            free(5_120, 4_880)
        ]
    );
}

#[test]
fn segment_accessors() {
    let a = rec(7, 9, 3);
    assert_eq!(Segment::Occupied(a).offset(), 7);
    assert_eq!(Segment::Occupied(a).size(), 9);
    assert!(!Segment::Occupied(a).is_free());
    assert_eq!(free(11, 13).offset(), 11);
    assert_eq!(free(11, 13).size(), 13);
    assert!(free(11, 13).is_free());
}
