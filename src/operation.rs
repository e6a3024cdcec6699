//! The layout-changing operations: what each dialog holds, how it answers the
//! user's input, and the request it makes of the disk service when confirmed.
use vstd::prelude::*;

use crate::text::{decimal, decimal_text, parse_u64, parsed_u64};

verus! {

/// Partitions are created in whole sectors of this many bytes.
pub const SECTOR_SIZE: u64 = 512;

/// The partition table written by a drive format.
#[derive(Clone, Copy, Debug, PartialEq, Eq, Structural)]
pub enum TableType {
    Gpt,
    Dos,
    Empty,
}

impl TableType {
    /// The name the disk service knows the table by.
    pub fn name(&self) -> (r: &'static str)
        ensures
            *self == TableType::Gpt ==> r@ == "gpt"@,
            *self == TableType::Dos ==> r@ == "dos"@,
            *self == TableType::Empty ==> r@ == "empty"@,
    {
        match self {
            TableType::Gpt => "gpt",
            TableType::Dos => "dos",
            TableType::Empty => "empty",
        }
    }
}

/// The filesystem written by a partition format.
#[derive(Clone, Copy, Debug, PartialEq, Eq, Structural)]
pub enum FilesystemType {
    Ext4,
    Ntfs,
    Vfat,
}

impl FilesystemType {
    /// The name the disk service knows the filesystem by.
    pub fn name(&self) -> (r: &'static str)
        ensures
            *self == FilesystemType::Ext4 ==> r@ == "ext4"@,
            *self == FilesystemType::Ntfs ==> r@ == "ntfs"@,
            *self == FilesystemType::Vfat ==> r@ == "vfat"@,
    {
        match self {
            FilesystemType::Ext4 => "ext4",
            FilesystemType::Ntfs => "ntfs",
            FilesystemType::Vfat => "vfat",
        }
    }
}

/// The table type at a position of the drive format's choices; positions
/// past the last choose no table.
pub open spec fn table_type_at(index: usize) -> TableType {
    if index == 0 {
        TableType::Gpt
    } else if index == 1 {
        TableType::Dos
    } else {
        TableType::Empty
    }
}

pub fn table_type_for(index: usize) -> (r: TableType)
    ensures
        r == table_type_at(index),
{
    match index {
        0 => TableType::Gpt,
        1 => TableType::Dos,
        _ => TableType::Empty,
    }
}

/// The filesystem at a position of the partition format's three choices.
pub open spec fn filesystem_at(index: usize) -> FilesystemType
    recommends
        index < 3,
{
    if index == 0 {
        FilesystemType::Ext4
    } else if index == 1 {
        FilesystemType::Ntfs
    } else {
        FilesystemType::Vfat
    }
}

pub fn filesystem_for(index: usize) -> (r: FilesystemType)
    requires
        index < 3,
    ensures
        r == filesystem_at(index),
{
    match index {
        0 => FilesystemType::Ext4,
        1 => FilesystemType::Ntfs,
        _ => FilesystemType::Vfat,
    }
}

/// A request of the disk service that a confirmed operation makes.
#[derive(Clone, Debug, PartialEq, Eq)]
pub enum Command {
    /// Write a new partition table over the whole drive, zeroing it first
    /// when `erase` holds.
    FormatDrive { table_type: TableType, erase: bool },
    /// Create a partition of `size` bytes at `offset`.
    CreatePartition { offset: u64, size: u64 },
    /// Write a filesystem into the partition at `offset`, with `label` as
    /// its name when it has one.
    FormatPartition { offset: u64, filesystem: FilesystemType, erase: bool, label: Option<String> },
}

/// The user's input to an operation's dialog.
#[derive(Clone, Debug, PartialEq, Eq)]
pub enum DialogMessage {
    DriveFormatEraseMode(usize),
    DriveFormatPTableType(usize),
    AddPartitionSizeUpdate(String),
    AddPartitionSizeSave,
    PartitionFormatNameUpdate(String),
    PartitionFormatToggleErase(bool),
    PartitionFormatSelectFS(usize),
    /// The operation was confirmed and is to be carried out.
    Perform,
}

/// An operation the user may open a dialog for.
#[derive(Clone, Copy, Debug, PartialEq, Eq, Structural)]
pub enum Operation {
    DriveFormat,
    /// Create a partition in the free segment at an offset, of at most a size.
    AddPartition(u64, u64),
    /// Format the partition at an offset.
    PartitionFormat(u64),
}

/// The choices of the drive format dialog, as positions in its lists.
#[derive(Clone, Copy, Debug, PartialEq, Eq, Structural)]
pub struct DriveFormat {
    /// 0 for a quick format, 1 for one that zeroes the drive.
    pub erase: usize,
    pub ptable: usize,
}

impl DriveFormat {
    pub fn new() -> (r: DriveFormat)
        ensures
            r == (DriveFormat { erase: 0, ptable: 0 }),
    {
        DriveFormat { erase: 0, ptable: 0 }
    }

    /// How the dialog answers `message`: the state it moves to and the request it makes.
    pub open spec fn step(self, message: DialogMessage, next: DriveFormat, r: Option<Command>) -> bool {
        match message {
            DialogMessage::DriveFormatEraseMode(mode) => next == DriveFormat { erase: mode, ..self }
                && r is None,
            DialogMessage::DriveFormatPTableType(t) => next == DriveFormat { ptable: t, ..self }
                && r is None,
            DialogMessage::Perform => next == self && r == Some(
                Command::FormatDrive { table_type: table_type_at(self.ptable), erase: self.erase == 1 },
            ),
            _ => next == self && r is None,
        }
    }

    pub fn update(&mut self, message: DialogMessage) -> (r: Option<Command>)
        ensures
            old(self).step(message, *final(self), r),
    {
        match message {
            DialogMessage::DriveFormatEraseMode(mode) => {
                self.erase = mode;
                None
            },
            DialogMessage::DriveFormatPTableType(t) => {
                self.ptable = t;
                None
            },
            DialogMessage::Perform => Some(
                Command::FormatDrive { table_type: table_type_for(self.ptable), erase: self.erase == 1 },
            ),
            _ => None,
        }
    }
}

/// The size a new partition gets from the text the user typed: the number it
/// writes (or the size chosen before, when it writes none), rounded down to
/// whole sectors, at least one sector and at most `max_size`.
pub open spec fn chosen_size(typed: Seq<char>, size: u64, max_size: u64) -> u64 {
    let requested = match parsed_u64(typed) {
        Some(n) => n,
        None => size,
    };
    let rounded = ((requested / SECTOR_SIZE) * SECTOR_SIZE) as u64;
    let at_least = if rounded < SECTOR_SIZE {
        SECTOR_SIZE
    } else {
        rounded
    };
    if at_least > max_size {
        max_size
    } else {
        at_least
    }
}

/// The state of the dialog that creates a partition in a free segment.
#[derive(Clone, Debug)]
pub struct AddPartition {
    pub offset: u64,
    pub size: u64,
    pub max_size: u64,
    /// The size as the user is typing it.
    pub size_string: String,
}

impl AddPartition {
    pub fn new(offset: u64, max_size: u64) -> (r: AddPartition)
        ensures
            r.offset == offset,
            r.size == 0,
            r.max_size == max_size,
            r.size_string@ == seq!['0'],
    {
        proof {
            reveal_strlit("0");
        }
        AddPartition { offset, size: 0, max_size, size_string: "0".to_owned() }
    }

    /// How the dialog answers `message`: the state it moves to and the request it makes.
    pub open spec fn step(self, message: DialogMessage, next: AddPartition, r: Option<Command>) -> bool {
        &&& next.offset == self.offset
        &&& next.max_size == self.max_size
        &&& match message {
            DialogMessage::AddPartitionSizeUpdate(input) => next.size == self.size
                && next.size_string@ == input@ && r is None,
            DialogMessage::AddPartitionSizeSave => {
                let size = chosen_size(self.size_string@, self.size, self.max_size);
                next.size == size && next.size_string@ == decimal(size as nat) && r is None
            },
            DialogMessage::Perform => next.size == self.size && next.size_string@
                == self.size_string@ && r == Some(
                Command::CreatePartition { offset: self.offset, size: self.size },
            ),
            _ => next.size == self.size && next.size_string@ == self.size_string@ && r is None,
        }
    }

    pub fn update(&mut self, message: DialogMessage) -> (r: Option<Command>)
        ensures
            old(self).step(message, *final(self), r),
    {
        match message {
            DialogMessage::AddPartitionSizeUpdate(input) => {
                self.size_string = input;
                None
            },
            DialogMessage::AddPartitionSizeSave => {
                let requested = match parse_u64(self.size_string.as_str()) {
                    Some(n) => n,
                    None => self.size,
                };
                let rounded = (requested / SECTOR_SIZE) * SECTOR_SIZE;
                let at_least = if rounded < SECTOR_SIZE {
                    SECTOR_SIZE
                } else {
                    rounded
                };
                let size = if at_least > self.max_size {
                    self.max_size
                } else {
                    at_least
                };
                self.size = size;
                self.size_string = decimal_text(size);
                None
            },
            DialogMessage::Perform => Some(
                Command::CreatePartition { offset: self.offset, size: self.size },
            ),
            _ => None,
        }
    }
}

/// The state of the dialog that writes a filesystem into a partition.
#[derive(Clone, Debug)]
pub struct PartitionFormat {
    pub block_offset: u64,
    pub name: String,
    pub erase: bool,
    pub filesystem: FilesystemType,
}

/// The messages a partition format dialog can be given: a filesystem is
/// chosen among three.
pub open spec fn partition_format_accepts(message: DialogMessage) -> bool {
    message matches DialogMessage::PartitionFormatSelectFS(i) ==> i < 3
}

impl PartitionFormat {
    pub fn new(block_offset: u64) -> (r: PartitionFormat)
        ensures
            r.block_offset == block_offset,
            r.name@ == Seq::<char>::empty(),
            !r.erase,
            r.filesystem == FilesystemType::Ext4,
    {
        proof {
            reveal_strlit("");
        }
        PartitionFormat {
            block_offset,
            name: "".to_owned(),
            erase: false,
            filesystem: FilesystemType::Ext4,
        }
    }

    /// How the dialog answers `message`: the state it moves to and the
    /// request it makes. A FAT filesystem is written without a label.
    pub open spec fn step(self, message: DialogMessage, next: PartitionFormat, r: Option<Command>) -> bool {
        &&& next.block_offset == self.block_offset
        &&& match message {
            DialogMessage::PartitionFormatNameUpdate(name) => next.name@ == name@ && next.erase
                == self.erase && next.filesystem == self.filesystem && r is None,
            DialogMessage::PartitionFormatToggleErase(erase) => next.name@ == self.name@
                && next.erase == erase && next.filesystem == self.filesystem && r is None,
            DialogMessage::PartitionFormatSelectFS(i) => next.name@ == self.name@ && next.erase
                == self.erase && next.filesystem == filesystem_at(i) && r is None,
            DialogMessage::Perform => {
                &&& next.name@ == self.name@
                &&& next.erase == self.erase
                &&& next.filesystem == self.filesystem
                &&& r matches Some(
                    Command::FormatPartition { offset, filesystem, erase, label },
                )
                &&& offset == self.block_offset
                &&& filesystem == self.filesystem
                &&& erase == self.erase
                &&& label is Some <==> self.filesystem != FilesystemType::Vfat
                &&& label matches Some(l) ==> l@ == self.name@
            },
            _ => next.name@ == self.name@ && next.erase == self.erase && next.filesystem
                == self.filesystem && r is None,
        }
    }

    pub fn update(&mut self, message: DialogMessage) -> (r: Option<Command>)
        requires
            partition_format_accepts(message),
        ensures
            old(self).step(message, *final(self), r),
    {
        match message {
            DialogMessage::PartitionFormatNameUpdate(name) => {
                self.name = name;
                None
            },
            DialogMessage::PartitionFormatToggleErase(erase) => {
                self.erase = erase;
                None
            },
            DialogMessage::PartitionFormatSelectFS(i) => {
                self.filesystem = filesystem_for(i);
                None
            },
            DialogMessage::Perform => {
                let label = match self.filesystem {
                    FilesystemType::Vfat => None,
                    _ => Some(self.name.clone()),
                };
                Some(
                    Command::FormatPartition {
                        offset: self.block_offset,
                        filesystem: self.filesystem,
                        erase: self.erase,
                        label,
                    },
                )
            },
            _ => None,
        }
    }
}

/// The dialog of an open operation.
#[derive(Clone, Debug)]
pub enum OperationDialog {
    DriveFormat(DriveFormat),
    AddPartition(AddPartition),
    PartitionFormat(PartitionFormat),
}

impl OperationDialog {
    pub open spec fn accepts(self, message: DialogMessage) -> bool {
        self is PartitionFormat ==> partition_format_accepts(message)
    }

    /// How the dialog answers `message`: the one of its kind does, and the
    /// kind stays.
    pub open spec fn step(self, message: DialogMessage, next: OperationDialog, r: Option<Command>) -> bool {
        match (self, next) {
            (OperationDialog::DriveFormat(d), OperationDialog::DriveFormat(n)) => d.step(
                message,
                n,
                r,
            ),
            (OperationDialog::AddPartition(d), OperationDialog::AddPartition(n)) => d.step(
                message,
                n,
                r,
            ),
            (OperationDialog::PartitionFormat(d), OperationDialog::PartitionFormat(n)) => d.step(
                message,
                n,
                r,
            ),
            _ => false,
        }
    }

    pub fn update(&mut self, message: DialogMessage) -> (r: Option<Command>)
        requires
            old(self).accepts(message),
        ensures
            old(self).step(message, *final(self), r),
    {
        match self {
            OperationDialog::DriveFormat(d) => d.update(message),
            OperationDialog::AddPartition(d) => d.update(message),
            OperationDialog::PartitionFormat(d) => d.update(message),
        }
    }
}

impl Operation {
    /// `d` is the dialog this operation opens with, in its first state.
    pub open spec fn opens(self, d: OperationDialog) -> bool {
        match self {
            Operation::DriveFormat => d == OperationDialog::DriveFormat(
                DriveFormat { erase: 0, ptable: 0 },
            ),
            Operation::AddPartition(offset, max_size) => d matches OperationDialog::AddPartition(a)
                && a.offset == offset && a.max_size == max_size && a.size == 0 && a.size_string@
                == seq!['0'],
            Operation::PartitionFormat(offset) => d matches OperationDialog::PartitionFormat(p)
                && p.block_offset == offset && p.name@ == Seq::<char>::empty() && !p.erase
                && p.filesystem == FilesystemType::Ext4,
        }
    }

    /// The dialog that opens for this operation, in its first state.
    pub fn into_dialog(self) -> (r: OperationDialog)
        ensures
            self.opens(r),
    {
        match self {
            Operation::DriveFormat => OperationDialog::DriveFormat(DriveFormat::new()),
            Operation::AddPartition(offset, max_size) => OperationDialog::AddPartition(
                AddPartition::new(offset, max_size),
            ),
            Operation::PartitionFormat(offset) => OperationDialog::PartitionFormat(
                PartitionFormat::new(offset),
            ),
        }
    }
}

} // verus!
