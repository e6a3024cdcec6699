use andromeda::operation::{
    filesystem_for, table_type_for, AddPartition, Command, DialogMessage, DriveFormat, FilesystemType,
    Operation, OperationDialog, PartitionFormat, TableType,
};

#[test]
fn drive_format_defaults_to_quick_gpt() {
    let mut d = DriveFormat::new();
    assert_eq!(
        d.update(DialogMessage::Perform),
        Some(Command::FormatDrive { table_type: TableType::Gpt, erase: false })
    );
}

#[test]
fn drive_format_follows_choices() {
    let mut d = DriveFormat::new();
    assert_eq!(d.update(DialogMessage::DriveFormatEraseMode(1)), None);
    assert_eq!(d.update(DialogMessage::DriveFormatPTableType(1)), None);
    assert_eq!(d, DriveFormat { erase: 1, ptable: 1 });
    assert_eq!(
        d.update(DialogMessage::Perform),
        Some(Command::FormatDrive { table_type: TableType::Dos, erase: true })
    );
    d.update(DialogMessage::DriveFormatPTableType(2));
    assert_eq!(
        d.update(DialogMessage::Perform),
        Some(Command::FormatDrive { table_type: TableType::Empty, erase: true })
    );
}

#[test]
fn drive_format_ignores_other_messages() {
    let mut d = DriveFormat::new();
    assert_eq!(d.update(DialogMessage::PartitionFormatToggleErase(true)), None);
    assert_eq!(d, DriveFormat::new());
}

#[test]
fn table_and_filesystem_names() {
    assert_eq!(table_type_for(0).name(), "gpt");
    assert_eq!(table_type_for(1).name(), "dos");
    assert_eq!(table_type_for(7).name(), "empty");
    assert_eq!(filesystem_for(0).name(), "ext4");
    assert_eq!(filesystem_for(1).name(), "ntfs");
    assert_eq!(filesystem_for(2).name(), "vfat");
}

#[test]
fn add_partition_starts_at_zero() {
    let a = AddPartition::new(4_096, 1_000_000);
    assert_eq!(a.offset, 4_096);
    assert_eq!(a.size, 0);
    assert_eq!(a.max_size, 1_000_000);
    assert_eq!(a.size_string, "0");
}

#[test]
fn add_partition_rounds_down_to_sectors() {
    let mut a = AddPartition::new(4_096, 1_000_000);
    a.update(DialogMessage::AddPartitionSizeUpdate("10000".to_string()));
    assert_eq!(a.size_string, "10000");
    assert_eq!(a.update(DialogMessage::AddPartitionSizeSave), None);
    assert_eq!(a.size, 9_728);
    assert_eq!(a.size_string, "9728");
    assert_eq!(
        a.update(DialogMessage::Perform),
        Some(Command::CreatePartition { offset: 4_096, size: 9_728 })
    );
}

#[test]
fn add_partition_takes_at_least_one_sector() {
    let mut a = AddPartition::new(0, 1_000_000);
    a.update(DialogMessage::AddPartitionSizeUpdate("+100".to_string()));
    a.update(DialogMessage::AddPartitionSizeSave);
    assert_eq!(a.size, 512);
    assert_eq!(a.size_string, "512");
}

#[test]
fn add_partition_takes_at_most_the_free_space() {
    let mut a = AddPartition::new(0, 1_000_000);
    a.update(DialogMessage::AddPartitionSizeUpdate("18446744073709551615".to_string()));
    a.update(DialogMessage::AddPartitionSizeSave);
    assert_eq!(a.size, 1_000_000);
    assert_eq!(a.size_string, "1000000");
}

#[test]
fn add_partition_keeps_previous_size_on_bad_input() {
    let mut a = AddPartition::new(0, 1_000_000);
    a.update(DialogMessage::AddPartitionSizeUpdate("2048".to_string()));
    a.update(DialogMessage::AddPartitionSizeSave);
    for bad in ["", "12a", "-5", "+", " 7", "18446744073709551616"] {
        a.update(DialogMessage::AddPartitionSizeUpdate(bad.to_string()));
        a.update(DialogMessage::AddPartitionSizeSave);
        assert_eq!(a.size, 2_048);
        assert_eq!(a.size_string, "2048");
    }
}

#[test]
fn partition_format_labels_all_but_fat() {
    let mut p = PartitionFormat::new(1_048_576);
    assert_eq!(p.name, "");
    p.update(DialogMessage::PartitionFormatNameUpdate("data".to_string()));
    p.update(DialogMessage::PartitionFormatToggleErase(true));
    assert_eq!(
        p.update(DialogMessage::Perform),
        Some(Command::FormatPartition {
            offset: 1_048_576,
            filesystem: FilesystemType::Ext4,
            erase: true,
            label: Some("data".to_string()),
        })
    );
    p.update(DialogMessage::PartitionFormatSelectFS(1));
    assert_eq!(p.filesystem, FilesystemType::Ntfs);
    p.update(DialogMessage::PartitionFormatSelectFS(2));
    assert_eq!(
        p.update(DialogMessage::Perform),
        Some(Command::FormatPartition {
            offset: 1_048_576,
            filesystem: FilesystemType::Vfat,
            erase: true,
            label: None,
        })
    );
}

#[test]
fn operations_open_their_dialogs() {
    match Operation::AddPartition(512, 4_096).into_dialog() {
        OperationDialog::AddPartition(a) => {
            assert_eq!((a.offset, a.max_size, a.size), (512, 4_096, 0));
        }
        _ => panic!("wrong dialog"),
    }
    match Operation::PartitionFormat(2_048).into_dialog() {
        OperationDialog::PartitionFormat(p) => {
            assert_eq!(p.block_offset, 2_048);
            assert!(!p.erase);
            assert_eq!(p.filesystem, FilesystemType::Ext4);
        }
        _ => panic!("wrong dialog"),
    }
    let mut d = Operation::DriveFormat.into_dialog();
    assert_eq!(
        d.update(DialogMessage::Perform),
        Some(Command::FormatDrive { table_type: TableType::Gpt, erase: false })
    );
}
