use andromeda::drive::{is_whole_drive, partition_at, ring_sections, segment_operation, RingSection};
use andromeda::error::Error;
use andromeda::layout::{PartitionRecord, Segment};
use andromeda::operation::{Command, DialogMessage, Operation};
use andromeda::session::{Session, ShownDialog};

#[test]
fn error_new_keeps_its_fields() {
    let e = Error::new("no client".to_string(), true);
    assert_eq!(e.description, "no client");
    assert!(e.recoverable);
}

#[test]
fn errors_are_shown_last_first() {
    let mut s = Session::new();
    assert_eq!(s.dialog(), ShownDialog::Nothing);
    s.report(Error::new("fatal".to_string(), false));
    s.report(Error::new("retry".to_string(), true));
    assert_eq!(s.dialog(), ShownDialog::Warning);
    s.dismiss_last_error();
    assert_eq!(s.dialog(), ShownDialog::Critical);
    s.dismiss_last_error();
    assert_eq!(s.dialog(), ShownDialog::Nothing);
    s.dismiss_last_error();
    assert_eq!(s.errors.len(), 0);
}

#[test]
fn confirmed_operation_waits_for_the_write() {
    let mut s = Session::new();
    s.open(Operation::AddPartition(1_024, 8_192));
    assert_eq!(s.dialog(), ShownDialog::Operation);
    s.input(DialogMessage::AddPartitionSizeUpdate("4096".to_string()));
    s.input(DialogMessage::AddPartitionSizeSave);
    assert_eq!(s.confirm(false), None);
    assert_eq!(s.dialog(), ShownDialog::Operation);
    assert_eq!(s.confirm(true), Some(Command::CreatePartition { offset: 1_024, size: 4_096 }));
    assert_eq!(s.dialog(), ShownDialog::Wait);
    s.finish();
    assert_eq!(s.dialog(), ShownDialog::Nothing);
}

#[test]
fn no_write_starts_while_one_is_pending() {
    let mut s = Session::new();
    s.open(Operation::DriveFormat);
    assert!(s.confirm(true).is_some());
    assert!(s.pending);
    s.open(Operation::PartitionFormat(2_048));
    assert_eq!(s.confirm(true), None);
    assert!(s.pending);
    assert_eq!(s.dialog(), ShownDialog::Operation);
    s.finish();
    s.open(Operation::PartitionFormat(2_048));
    assert!(s.confirm(true).is_some());
}

#[test]
fn open_dialog_carries_the_segment() {
    let mut s = Session::new();
    s.open(Operation::AddPartition(1_048_576, 65_536));
    s.input(DialogMessage::AddPartitionSizeUpdate("99999999".to_string()));
    s.input(DialogMessage::AddPartitionSizeSave);
    assert_eq!(
        s.confirm(true),
        Some(Command::CreatePartition { offset: 1_048_576, size: 65_536 })
    );
}

#[test]
fn service_failures_are_fatal_and_request_failures_recoverable() {
    let fatal = Error::from_service(udisks2::Error::Failed);
    assert!(!fatal.recoverable);
    assert_eq!(fatal.description, "The operation failed");
    let retry = Error::from_operation_failure(udisks2::Error::DeviceBusy);
    assert!(retry.recoverable);
    assert_eq!(retry.description, "Attempting to unmount a device that is busy.");
}

#[test]
fn cancelled_operation_closes() {
    let mut s = Session::new();
    s.open(Operation::DriveFormat);
    s.cancel();
    assert_eq!(s.dialog(), ShownDialog::Nothing);
    assert_eq!(s.input(DialogMessage::Perform), None);
}

fn sample_layout() -> Vec<Segment> {
    vec![
        Segment::Free { offset: 0, size: 1_048_576 },
        Segment::Occupied(PartitionRecord { offset: 1_048_576, size: 500_000_000, index: 0 }),
        Segment::Free { offset: 501_048_576, size: 498_951_424 },
    ]
}

#[test]
fn ring_has_a_section_per_segment() {
    assert_eq!(
        ring_sections(&sample_layout()),
        vec![
            RingSection { size: 1_048_576, index: 0, occupied: false },
            RingSection { size: 500_000_000, index: 1, occupied: true },
            RingSection { size: 498_951_424, index: 2, occupied: false },
        ]
    );
}

#[test]
fn segments_offer_their_operations() {
    let l = sample_layout();
    assert_eq!(segment_operation(&l[0]), Operation::AddPartition(0, 1_048_576));
    assert_eq!(segment_operation(&l[1]), Operation::PartitionFormat(1_048_576));
}

#[test]
fn partition_is_found_by_offset() {
    let l = sample_layout();
    assert_eq!(partition_at(&l, 1_048_576).map(|p| p.size), Some(500_000_000));
    assert_eq!(partition_at(&l, 0), None);
    assert_eq!(partition_at(&l, 77), None);
}

#[test]
fn whole_drives_are_told_apart() {
    assert!(is_whole_drive(false, false, false));
    assert!(!is_whole_drive(true, false, false));
    assert!(!is_whole_drive(false, true, false));
    assert!(!is_whole_drive(false, false, true));
}
