use andromeda::drive::{drive_layout, partition_records, PartitionInfo};
use andromeda::layout::{LayoutError, PartitionRecord, Segment};

fn info(path: &str, offset: u64, size: u64) -> PartitionInfo {
    PartitionInfo {
        object_path: path.to_string(),
        capacity: size,
        size,
        offset,
        table_type: "gpt".to_string(),
        partition_type: "c12a7328-f81f-11d2-ba4b-00a0c93ec93b".to_string(),
        uuid: "1234-ABCD".to_string(),
        id_usage: "filesystem".to_string(),
        id_type: "vfat".to_string(),
        id_version: "FAT32".to_string(),
    }
}

#[test]
fn records_are_indexed_by_position() {
    let infos = vec![info("/p/sda2", 600_000, 1_000), info("/p/sda1", 2_048, 4_096)];
    assert_eq!(
        partition_records(&infos),
        vec![
            PartitionRecord { offset: 600_000, size: 1_000, index: 0 },
            PartitionRecord { offset: 2_048, size: 4_096, index: 1 },
        ]
    );
}

#[test]
fn drive_without_partitions_is_one_free_segment() {
    assert_eq!(
        drive_layout(1_000_000, &vec![]),
        Ok(vec![Segment::Free { offset: 0, size: 1_000_000 }])
    );
}

#[test]
fn drive_layout_places_partitions_by_offset() {
    let infos = vec![info("/p/sda2", 600_000, 400_000), info("/p/sda1", 2_048, 4_096)];
    assert_eq!(
        drive_layout(1_000_000, &infos),
        Ok(vec![
            Segment::Free { offset: 0, size: 2_048 },
            Segment::Occupied(PartitionRecord { offset: 2_048, size: 4_096, index: 1 }),
            Segment::Free { offset: 6_144, size: 593_856 },
            Segment::Occupied(PartitionRecord { offset: 600_000, size: 400_000, index: 0 }),
        ])
    );
}

#[test]
fn drive_layout_reports_overlap_as_fatal() {
    let infos = vec![info("/p/sda1", 0, 5_000), info("/p/sda2", 4_096, 5_000)];
    let err = drive_layout(1_000_000, &infos).unwrap_err();
    assert_eq!(err, LayoutError::Inconsistent);
    let e = err.to_error();
    assert!(!e.recoverable);
    assert!(!e.description.is_empty());
}

#[test]
fn drive_layout_reports_partition_past_the_end() {
    let infos = vec![info("/p/sda1", 999_000, 5_000)];
    let err = drive_layout(1_000_000, &infos).unwrap_err();
    assert_eq!(err, LayoutError::InvalidRecord);
    assert!(!err.to_error().recoverable);
}
