use andromeda::text::{display_text, object_name, partition_type_label, partitioning_label, same_text, text_after_last};

#[test]
fn object_name_is_last_path_element() {
    assert_eq!(object_name("/org/freedesktop/UDisks2/block_devices/sda1"), "sda1");
    assert_eq!(object_name("sda"), "sda");
    assert_eq!(object_name("/"), "");
}

#[test]
fn display_text_drops_the_context() {
    assert_eq!(display_text("part-type\u{4}Linux Filesystem"), "Linux Filesystem");
    assert_eq!(display_text("fs-type\u{4}a\u{4}FAT"), "FAT");
    assert_eq!(display_text("Ext4"), "Ext4");
    assert_eq!(display_text(""), "");
}

#[test]
fn text_after_last_handles_multibyte_characters() {
    assert_eq!(text_after_last("ä/ö/ü€", '/'), "ü€");
    assert_eq!(text_after_last("abc/", '/'), "");
}

#[test]
fn partition_type_label_defaults_to_none() {
    assert_eq!(partition_type_label(None), "None");
    assert_eq!(partition_type_label(Some("part-type\u{4}EFI System")), "EFI System");
}

#[test]
fn partitioning_labels() {
    assert_eq!(partitioning_label(Some("gpt")), "GUID Partition Table");
    assert_eq!(partitioning_label(Some("mbr")), "Master Boot Record");
    assert_eq!(partitioning_label(Some("dos")), "Master Boot Record");
    assert_eq!(partitioning_label(Some("apm")), "Unknown");
    assert_eq!(partitioning_label(Some("")), "Unknown");
    assert_eq!(partitioning_label(None), "Empty");
}

#[test]
fn same_text_compares_characters() {
    assert!(same_text("gpt", "gpt"));
    assert!(!same_text("gpt", "gp"));
    assert!(!same_text("gpt", "gpu"));
    assert!(same_text("", ""));
}
