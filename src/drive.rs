//! What the drive view derives from a layout: the sections of its ring, the
//! operation each segment offers, and the partition an operation acts on.
use vstd::prelude::*;

use crate::error::Error;
use crate::layout::{reconstruct, reconstructs, valid_partitions, LayoutError, PartitionRecord, Segment};
use crate::operation::Operation;
use crate::text::{after_last, display_text, object_name, partition_type_label, CONTEXT_SEPARATOR};

verus! {

/// One arc of the ring that draws a layout: the bytes it stands for, the
/// position of its segment in the layout, and whether a partition holds them.
#[derive(Clone, Copy, Debug, PartialEq, Eq, Structural)]
pub struct RingSection {
    pub size: u64,
    pub index: usize,
    pub occupied: bool,
}

pub open spec fn section_of(layout: Seq<Segment>, i: int) -> RingSection {
    RingSection { size: layout[i].len() as u64, index: i as usize, occupied: layout[i] is Occupied }
}

/// The sections of the ring for `layout`, one per segment, in layout order.
pub fn ring_sections(layout: &Vec<Segment>) -> (r: Vec<RingSection>)
    ensures
        r@.len() == layout@.len(),
        forall|i: int| 0 <= i < r@.len() ==> r@[i] == section_of(layout@, i),
{
    let mut r: Vec<RingSection> = Vec::new();
    let mut i: usize = 0;
    while i < layout.len()
        invariant
            i <= layout@.len(),
            r@.len() == i,
            forall|k: int| 0 <= k < i ==> r@[k] == section_of(layout@, k),
        decreases layout@.len() - i,
    {
        let s = &layout[i];
        r.push(RingSection { size: s.size(), index: i, occupied: !s.is_free() });
        i = i + 1;
    }
    r
}

/// The operation a segment offers: a partition can be formatted, and free
/// space can take a new partition of at most its size.
pub fn segment_operation(segment: &Segment) -> (r: Operation)
    ensures
        *segment matches Segment::Occupied(p) ==> r == Operation::PartitionFormat(p.offset),
        *segment matches Segment::Free { offset, size } ==> r == Operation::AddPartition(offset, size),
{
    match segment {
        Segment::Occupied(p) => Operation::PartitionFormat(p.offset),
        Segment::Free { offset, size } => Operation::AddPartition(*offset, *size),
    }
}

/// `i` is the first segment of `layout` that starts at `offset`.
pub open spec fn first_at(layout: Seq<Segment>, offset: u64, i: int) -> bool {
    &&& 0 <= i < layout.len()
    &&& layout[i].start() == offset
    &&& forall|k: int| 0 <= k < i ==> layout[k].start() != offset
}

/// The partition at `offset`: the record of the first segment that starts
/// there, when a partition holds it.
pub fn partition_at(layout: &Vec<Segment>, offset: u64) -> (r: Option<PartitionRecord>)
    ensures
        r matches Some(p) ==> exists|i: int|
            first_at(layout@, offset, i) && layout@[i] == Segment::Occupied(p),
        r is None ==> forall|i: int| first_at(layout@, offset, i) ==> layout@[i] is Free,
{
    let mut i: usize = 0;
    while i < layout.len()
        invariant
            i <= layout@.len(),
            forall|k: int| 0 <= k < i ==> layout@[k].start() != offset,
        decreases layout@.len() - i,
    {
        if layout[i].offset() == offset {
            return match layout[i] {
                Segment::Occupied(p) => Some(p),
                Segment::Free { .. } => None,
            };
        }
        i = i + 1;
    }
    None
}

/// Whether a block device is a drive of its own: not a partition, not a
/// loop device and not swap space.
pub fn is_whole_drive(is_partition: bool, is_loop: bool, is_swap: bool) -> (r: bool)
    ensures
        r == (!is_partition && !is_loop && !is_swap),
{
    !is_partition && !is_loop && !is_swap
}


#[verifier::external_type_specification]
#[verifier::external_body]
pub struct ExClient(udisks2::Client);

/// Relies on udisks2's `Client::size_for_display`: a size in power-of-two
/// units, in the user's language.
#[verifier::external_body]
fn size_for_display(client: &udisks2::Client, size: u64) -> String {
    client.size_for_display(size, true, false)
}

/// Relies on udisks2's `Client::partition_type_for_display`: the name of a
/// partition type in a kind of table, in the user's language, when it knows
/// the pair.
#[verifier::external_body]
fn partition_type_for_display(
    client: &udisks2::Client,
    table_type: &str,
    partition_type: &str,
) -> Option<String> {
    client.partition_type_for_display(table_type, partition_type)
}

/// Relies on udisks2's `Client::id_for_display`: the short name of what a
/// block holds, from its usage, type and version, in the user's language.
#[verifier::external_body]
fn id_for_display(client: &udisks2::Client, usage: &str, ty: &str, version: &str) -> String {
    client.id_for_display(usage, ty, version, false)
}

/// What the disk service reports of one partition.
pub struct PartitionInfo {
    pub object_path: String,
    /// The size of the partition's block device.
    pub capacity: u64,
    pub size: u64,
    pub offset: u64,
    pub table_type: String,
    pub partition_type: String,
    pub uuid: String,
    pub id_usage: String,
    pub id_type: String,
    pub id_version: String,
}

/// A partition as the drive view describes it.
pub struct Partition {
    pub name: String,
    /// What the partition holds, such as its filesystem.
    pub partition_id: String,
    pub size: String,
    pub offset: String,
    pub partition_type: String,
    pub block_size: String,
    pub uuid: String,
}

impl Partition {
    pub open spec fn same_as(self, other: Partition) -> bool {
        &&& self.name@ == other.name@
        &&& self.partition_id@ == other.partition_id@
        &&& self.size@ == other.size@
        &&& self.offset@ == other.offset@
        &&& self.partition_type@ == other.partition_type@
        &&& self.block_size@ == other.block_size@
        &&& self.uuid@ == other.uuid@
    }

    pub fn duplicate(&self) -> (r: Partition)
        ensures
            r.same_as(*self),
    {
        Partition {
            name: self.name.clone(),
            partition_id: self.partition_id.clone(),
            size: self.size.clone(),
            offset: self.offset.clone(),
            partition_type: self.partition_type.clone(),
            block_size: self.block_size.clone(),
            uuid: self.uuid.clone(),
        }
    }
}

/// Describes a partition from what the disk service reports of it: its name
/// is the last element of its object path, and its type and contents are
/// the disk service's names for them, without their context.
pub fn describe_partition(client: &udisks2::Client, info: &PartitionInfo) -> (r: Partition)
    ensures
        r.name@ == after_last(info.object_path@, '/'),
        r.uuid@ == info.uuid@,
        !r.partition_type@.contains(CONTEXT_SEPARATOR),
        !r.partition_id@.contains(CONTEXT_SEPARATOR),
{
    let described_type = partition_type_for_display(
        client,
        info.table_type.as_str(),
        info.partition_type.as_str(),
    );
    let partition_type = match &described_type {
        Some(d) => partition_type_label(Some(d.as_str())),
        None => partition_type_label(None),
    };
    let id = id_for_display(
        client,
        info.id_usage.as_str(),
        info.id_type.as_str(),
        info.id_version.as_str(),
    );
    Partition {
        name: object_name(info.object_path.as_str()),
        partition_id: display_text(id.as_str()),
        size: size_for_display(client, info.size),
        offset: size_for_display(client, info.offset),
        partition_type,
        block_size: size_for_display(client, info.capacity),
        uuid: info.uuid.clone(),
    }
}

/// A segment of a drive as the drive view shows it.
pub struct Block {
    pub offset: u64,
    pub offset_for_display: String,
    pub size: u64,
    pub size_for_display: String,
    pub partition: Option<Partition>,
}

/// The blocks the drive view shows for `layout`, one per segment, in layout
/// order; an occupied one carries the description at its record's index in
/// `partitions`, when there is one.
pub fn describe_layout(
    client: &udisks2::Client,
    layout: &Vec<Segment>,
    partitions: &Vec<Partition>,
) -> (r: Vec<Block>)
    ensures
        r@.len() == layout@.len(),
        forall|i: int|
            0 <= i < r@.len() ==> {
                let b = #[trigger] r@[i];
                &&& b.offset == layout@[i].start()
                &&& b.size == layout@[i].len()
                &&& b.partition is Some <==> (layout@[i] matches Segment::Occupied(p) && p.index
                    < partitions@.len())
                &&& layout@[i] matches Segment::Occupied(p) ==> (b.partition matches Some(d)
                    ==> d.same_as(partitions@[p.index as int]))
            },
{
    let mut r: Vec<Block> = Vec::new();
    let mut i: usize = 0;
    while i < layout.len()
        invariant
            i <= layout@.len(),
            r@.len() == i,
            forall|k: int|
                0 <= k < i ==> {
                    let b = #[trigger] r@[k];
                    &&& b.offset == layout@[k].start()
                    &&& b.size == layout@[k].len()
                    &&& b.partition is Some <==> (layout@[k] matches Segment::Occupied(p)
                        && p.index < partitions@.len())
                    &&& layout@[k] matches Segment::Occupied(p) ==> (b.partition matches Some(d)
                        ==> d.same_as(partitions@[p.index as int]))
                },
        decreases layout@.len() - i,
    {
        let s = layout[i];
        let partition = match s {
            Segment::Occupied(p) => {
                if p.index < partitions.len() {
                    Some(partitions[p.index].duplicate())
                } else {
                    None
                }
            },
            Segment::Free { .. } => None,
        };
        r.push(
            Block {
                offset: s.offset(),
                offset_for_display: size_for_display(client, s.offset()),
                size: s.size(),
                size_for_display: size_for_display(client, s.size()),
                partition,
            },
        );
        i = i + 1;
    }
    r
}


/// The record of the partition at position `i` of what the disk service reported.
pub open spec fn record_of(infos: Seq<PartitionInfo>, i: int) -> PartitionRecord {
    PartitionRecord { offset: infos[i].offset, size: infos[i].size, index: i as usize }
}

pub open spec fn records_of(infos: Seq<PartitionInfo>) -> Seq<PartitionRecord> {
    Seq::new(infos.len(), |i: int| record_of(infos, i))
}

/// The records of the reported partitions, each indexed by its position.
pub fn partition_records(infos: &Vec<PartitionInfo>) -> (r: Vec<PartitionRecord>)
    ensures
        r@ == records_of(infos@),
{
    let mut r: Vec<PartitionRecord> = Vec::new();
    let mut i: usize = 0;
    while i < infos.len()
        invariant
            i <= infos@.len(),
            r@.len() == i,
            forall|k: int| 0 <= k < i ==> r@[k] == record_of(infos@, k),
        decreases infos@.len() - i,
    {
        r.push(PartitionRecord { offset: infos[i].offset, size: infos[i].size, index: i });
        i = i + 1;
    }
    assert(r@ =~= records_of(infos@));
    r
}

/// The layout of a drive of `drive_size` bytes, reconstructed from its
/// reported partitions; a drive without any, with or without a partition
/// table, is one free segment.
pub fn drive_layout(drive_size: u64, infos: &Vec<PartitionInfo>) -> (r: Result<
    Vec<Segment>,
    LayoutError,
>)
    ensures
        r is Ok <==> valid_partitions(drive_size as int, records_of(infos@)),
        r matches Ok(l) ==> reconstructs(drive_size as int, records_of(infos@), l@),
        infos@.len() == 0 ==> (r matches Ok(l) && l@ == seq![
            Segment::Free { offset: 0, size: drive_size },
        ]),
{
    let records = partition_records(infos);
    reconstruct(drive_size, &records)
}

impl LayoutError {
    /// The error shown for a drive whose layout cannot be reconstructed; the
    /// drive's data cannot be trusted, so it cannot be dismissed.
    pub fn to_error(&self) -> (r: Error)
        ensures
            !r.recoverable,
    {
        match self {
            LayoutError::InvalidRecord => Error::new(
                "The disk service reported a partition outside its drive".to_owned(),
                false,
            ),
            LayoutError::Inconsistent => Error::new(
                "The disk service reported overlapping partitions".to_owned(),
                false,
            ),
        }
    }
}

} // verus!
