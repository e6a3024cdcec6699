//! Reconstruction of a drive's layout: from an unordered set of partition
//! records to the ordered sequence of occupied and free segments.
use vstd::prelude::*;

verus! {

/// Gaps of at most this many bytes are alignment padding and are not shown
/// as free space.
pub const GAP_THRESHOLD: u64 = 512;

/// One partition as the disk service reports it: where it starts, how long it
/// is, and the position of its descriptive data in the caller's list.
#[derive(Clone, Copy, Debug, PartialEq, Eq, Structural)]
pub struct PartitionRecord {
    pub offset: u64,
    pub size: u64,
    pub index: usize,
}

/// A contiguous byte range of a drive.
#[derive(Clone, Copy, Debug, PartialEq, Eq, Structural)]
pub enum Segment {
    Occupied(PartitionRecord),
    Free { offset: u64, size: u64 },
}

/// Why a set of partition records cannot be laid out.
#[derive(Clone, Copy, Debug, PartialEq, Eq, Structural)]
pub enum LayoutError {
    /// A record is empty or reaches past the end of the drive.
    InvalidRecord,
    /// Two records overlap.
    Inconsistent,
}

pub open spec fn end_of(p: PartitionRecord) -> int {
    p.offset + p.size
}

impl Segment {
    pub open spec fn start(self) -> int {
        match self {
            Segment::Occupied(p) => p.offset as int,
            Segment::Free { offset, .. } => offset as int,
        }
    }

    pub open spec fn len(self) -> int {
        match self {
            Segment::Occupied(p) => p.size as int,
            Segment::Free { size, .. } => size as int,
        }
    }

    pub open spec fn end(self) -> int {
        self.start() + self.len()
    }

    pub fn offset(&self) -> (r: u64)
        ensures
            r == self.start(),
    {
        match self {
            Segment::Occupied(p) => p.offset,
            Segment::Free { offset, .. } => *offset,
        }
    }

    pub fn size(&self) -> (r: u64)
        ensures
            r == self.len(),
    {
        match self {
            Segment::Occupied(p) => p.size,
            Segment::Free { size, .. } => *size,
        }
    }

    pub fn is_free(&self) -> (r: bool)
        ensures
            r == self is Free,
    {
        match self {
            Segment::Occupied(_) => false,
            Segment::Free { .. } => true,
        }
    }
}

/// A record holds at least one byte and ends within the drive.
pub open spec fn record_fits(drive_size: int, p: PartitionRecord) -> bool {
    p.size > 0 && end_of(p) <= drive_size
}

pub open spec fn disjoint(a: PartitionRecord, b: PartitionRecord) -> bool {
    end_of(a) <= b.offset || end_of(b) <= a.offset
}

pub open spec fn all_fit(drive_size: int, parts: Seq<PartitionRecord>) -> bool {
    forall|i: int| 0 <= i < parts.len() ==> record_fits(drive_size, #[trigger] parts[i])
}

pub open spec fn pairwise_disjoint(parts: Seq<PartitionRecord>) -> bool {
    forall|i: int, j: int|
        0 <= i < parts.len() && 0 <= j < parts.len() && i != j ==> disjoint(
            #[trigger] parts[i],
            #[trigger] parts[j],
        )
}

/// The inputs the reconstruction accepts.
pub open spec fn valid_partitions(drive_size: int, parts: Seq<PartitionRecord>) -> bool {
    all_fit(drive_size, parts) && pairwise_disjoint(parts)
}

/// Offsets strictly ascending.
pub open spec fn ascending(s: Seq<PartitionRecord>) -> bool {
    forall|i: int, j: int| 0 <= i < j < s.len() ==> s[i].offset < s[j].offset
}

/// `s` is a sorted arrangement of `parts`: the same records, each once, by offset.
pub open spec fn arranges(parts: Seq<PartitionRecord>, s: Seq<PartitionRecord>) -> bool {
    s.len() == parts.len() && s.to_set() == parts.to_set() && ascending(s)
}

/// The free segment for the bytes `[start, end)`, unless it is padding.
pub open spec fn gap(start: int, end: int) -> Seq<Segment> {
    if end - start > GAP_THRESHOLD {
        seq![Segment::Free { offset: start as u64, size: (end - start) as u64 }]
    } else {
        seq![]
    }
}

/// The segments from `cursor` to the end of the drive, given the partitions
/// that start there or later, sorted by offset.
pub open spec fn layout_from(cursor: int, drive_size: int, s: Seq<PartitionRecord>) -> Seq<Segment>
    decreases s.len(),
{
    if s.len() == 0 {
        gap(cursor, drive_size)
    } else {
        gap(cursor, s[0].offset as int) + seq![Segment::Occupied(s[0])] + layout_from(
            end_of(s[0]),
            drive_size,
            s.drop_first(),
        )
    }
}

/// The layout of a drive holding the partitions `s`, sorted by offset.
pub open spec fn layout_of(drive_size: int, s: Seq<PartitionRecord>) -> Seq<Segment> {
    if s.len() == 0 {
        seq![Segment::Free { offset: 0, size: drive_size as u64 }]
    } else {
        layout_from(0, drive_size, s)
    }
}

/// The partitions of a layout, in layout order.
pub open spec fn occupied(layout: Seq<Segment>) -> Seq<PartitionRecord>
    decreases layout.len(),
{
    if layout.len() == 0 {
        seq![]
    } else {
        let rest = occupied(layout.drop_first());
        match layout[0] {
            Segment::Occupied(p) => seq![p] + rest,
            Segment::Free { .. } => rest,
        }
    }
}

/// `layout` is the reconstruction of the drive holding `parts`.
pub open spec fn reconstructs(
    drive_size: int,
    parts: Seq<PartitionRecord>,
    layout: Seq<Segment>,
) -> bool {
    arranges(parts, occupied(layout)) && layout == layout_of(drive_size, occupied(layout))
}

/// Whether one record fits the drive, without overflow.
fn fits(drive_size: u64, p: &PartitionRecord) -> (r: bool)
    ensures
        r == record_fits(drive_size as int, *p),
{
    p.size > 0 && p.offset <= drive_size && p.size <= drive_size - p.offset
}

/// Whether two records that fit the drive leave each other alone.
fn apart(a: &PartitionRecord, b: &PartitionRecord) -> (r: bool)
    requires
        end_of(*a) <= u64::MAX,
        end_of(*b) <= u64::MAX,
    ensures
        r == disjoint(*a, *b),
{
    a.offset + a.size <= b.offset || b.offset + b.size <= a.offset
}


/// `order` lists each position below `n` exactly once.
pub open spec fn permutes(order: Seq<usize>, n: int) -> bool {
    &&& order.len() == n
    &&& forall|k: int| 0 <= k < n ==> order[k] < n
    &&& forall|a: int, b: int| 0 <= a < n && 0 <= b < n && a != b ==> order[a] != order[b]
    &&& forall|t: int| 0 <= t < n ==> #[trigger] listed(order, t)
}

pub open spec fn listed(order: Seq<usize>, t: int) -> bool {
    exists|k: int| 0 <= k < order.len() && order[k] == t
}

pub open spec fn key(parts: Seq<PartitionRecord>, order: Seq<usize>, k: int) -> int {
    parts[order[k] as int].offset as int
}

pub open spec fn sorted_between(parts: Seq<PartitionRecord>, order: Seq<usize>, lo: int, hi: int) -> bool {
    forall|a: int, b: int| lo <= a < b < hi ==> key(parts, order, a) <= key(parts, order, b)
}

proof fn lemma_swap_permutes(order: Seq<usize>, n: int, a: int, b: int)
    requires
        permutes(order, n),
        0 <= a < n,
        0 <= b < n,
    ensures
        permutes(order.update(a, order[b]).update(b, order[a]), n),
{
    let o2 = order.update(a, order[b]).update(b, order[a]);
    assert forall|t: int| 0 <= t < n implies #[trigger] listed(o2, t) by {
        assert(listed(order, t));
        let k = choose|k: int| 0 <= k < order.len() && order[k] == t;
        if k == a {
            assert(o2[b] == t);
        } else if k == b {
            assert(o2[a] == t);
        } else {
            assert(o2[k] == t);
        }
    }
}

/// The positions of `parts`, ordered by the offsets of the records there.
fn sorted_order(parts: &Vec<PartitionRecord>) -> (order: Vec<usize>)
    ensures
        permutes(order@, parts@.len() as int),
        sorted_between(parts@, order@, 0, parts@.len() as int),
{
    let n = parts.len();
    let mut order: Vec<usize> = Vec::new();
    let mut i: usize = 0;
    while i < n
        invariant
            i <= n,
            n == parts@.len(),
            order@.len() == i,
            forall|k: int| 0 <= k < i ==> order@[k] == k,
        decreases n - i,
    {
        order.push(i);
        i = i + 1;
    }
    assert forall|t: int| 0 <= t < n implies #[trigger] listed(order@, t) by {
        assert(order@[t] == t);
    }
    let mut i: usize = 1;
    while i < n
        invariant
            n == parts@.len(),
            permutes(order@, n as int),
            n == 0 || 1 <= i <= n,
            sorted_between(parts@, order@, 0, i as int),
        decreases n - i,
    {
        let mut j: usize = i;
        while j > 0 && parts[order[j - 1]].offset > parts[order[j]].offset
            invariant
                n == parts@.len(),
                permutes(order@, n as int),
                1 <= i < n,
                j <= i,
                sorted_between(parts@, order@, 0, j as int),
                sorted_between(parts@, order@, j as int, i as int + 1),
                forall|a: int, b: int|
                    0 <= a < j && j < b <= i ==> key(parts@, order@, a) <= key(parts@, order@, b),
            decreases j,
        {
            let x = order[j - 1];
            let y = order[j];
            let ghost o = order@;
            proof {
                lemma_swap_permutes(order@, n as int, j - 1, j as int);
            }
            order.set(j - 1, y);
            order.set(j, x);
            proof {
                let o2 = order@;
                let p = parts@;
                assert(key(p, o2, j - 1) == key(p, o, j as int));
                assert(key(p, o2, j as int) == key(p, o, j - 1));
                assert forall|a: int| 0 <= a <= i && a != j - 1 && a != j implies key(p, o2, a)
                    == key(p, o, a) by {
                    assert(o2[a] == o[a]);
                }
                assert(sorted_between(p, o2, 0, j - 1));
                assert forall|a: int, b: int| j - 1 <= a < b < i + 1 implies key(p, o2, a) <= key(
                    p,
                    o2,
                    b,
                ) by {
                    if a == j - 1 && b > j {
                        assert(key(p, o, j as int) <= key(p, o, b));
                    } else if a == j {
                        assert(key(p, o, j - 1) <= key(p, o, b));
                    }
                }
                assert forall|a: int, b: int| 0 <= a < j - 1 && j - 1 < b <= i implies key(
                    p,
                    o2,
                    a,
                ) <= key(p, o2, b) by {
                    if b == j {
                        assert(key(p, o, a) <= key(p, o, j - 1));
                    } else if b > j {
                        assert(key(p, o, a) <= key(p, o, b));
                    }
                }
            }
            j = j - 1;
        }
        proof {
            let o = order@;
            assert forall|a: int, b: int| 0 <= a < b < i + 1 implies key(parts@, o, a) <= key(
                parts@,
                o,
                b,
            ) by {
                if a < j && b == j {
                    assert(key(parts@, o, a) <= key(parts@, o, j - 1));
                }
            }
        }
        i = i + 1;
    }
    order
}


/// Sorted records that end within the drive and do not overlap their successor.
pub open spec fn sorted_fits(drive_size: int, s: Seq<PartitionRecord>) -> bool {
    &&& forall|k: int| 0 <= k < s.len() ==> end_of(#[trigger] s[k]) <= drive_size
    &&& forall|k: int| 0 <= k < s.len() - 1 ==> end_of(#[trigger] s[k]) <= s[k + 1].offset
}

proof fn lemma_occupied_concat(a: Seq<Segment>, b: Seq<Segment>)
    ensures
        occupied(a + b) == occupied(a) + occupied(b),
    decreases a.len(),
{
    if a.len() == 0 {
        assert(a + b =~= b);
        assert(occupied(a) + occupied(b) =~= occupied(b));
    } else {
        lemma_occupied_concat(a.drop_first(), b);
        assert((a + b).drop_first() =~= a.drop_first() + b);
        match a[0] {
            Segment::Occupied(p) => {
                assert(seq![p] + (occupied(a.drop_first()) + occupied(b)) =~= (seq![p]
                    + occupied(a.drop_first())) + occupied(b));
            },
            Segment::Free { .. } => {},
        }
    }
}

proof fn lemma_occupied_gap(start: int, end: int)
    ensures
        occupied(gap(start, end)) == Seq::<PartitionRecord>::empty(),
{
    if end - start > GAP_THRESHOLD {
        let g = gap(start, end);
        assert(g.drop_first() =~= Seq::<Segment>::empty());
        assert(occupied(g.drop_first()) =~= Seq::<PartitionRecord>::empty());
    }
}

proof fn lemma_occupied_layout_from(cursor: int, drive_size: int, s: Seq<PartitionRecord>)
    ensures
        occupied(layout_from(cursor, drive_size, s)) == s,
    decreases s.len(),
{
    if s.len() == 0 {
        lemma_occupied_gap(cursor, drive_size);
    } else {
        let g = gap(cursor, s[0].offset as int);
        let o = seq![Segment::Occupied(s[0])];
        let rest = layout_from(end_of(s[0]), drive_size, s.drop_first());
        lemma_occupied_layout_from(end_of(s[0]), drive_size, s.drop_first());
        lemma_occupied_concat(g + o, rest);
        lemma_occupied_concat(g, o);
        lemma_occupied_gap(cursor, s[0].offset as int);
        assert(o.drop_first() =~= Seq::<Segment>::empty());
        assert(occupied(o.drop_first()) =~= Seq::<PartitionRecord>::empty());
        assert(occupied(o) =~= seq![s[0]]);
        assert(seq![s[0]] + s.drop_first() =~= s);
        assert(Seq::<PartitionRecord>::empty() + seq![s[0]] =~= seq![s[0]]);
    }
}

/// The partitions of the layout of a drive are the ones it was built from.
pub proof fn lemma_occupied_layout(drive_size: int, s: Seq<PartitionRecord>)
    ensures
        occupied(layout_of(drive_size, s)) == s,
{
    if s.len() == 0 {
        let l = layout_of(drive_size, s);
        assert(l.drop_first() =~= Seq::<Segment>::empty());
        assert(occupied(l.drop_first()) =~= Seq::<PartitionRecord>::empty());
        assert(occupied(l) =~= s);
    } else {
        lemma_occupied_layout_from(0, drive_size, s);
    }
}

/// The layout of a drive holding `sorted`, whose records are given by offset.
pub fn layout_from_sorted(drive_size: u64, sorted: &Vec<PartitionRecord>) -> (r: Vec<Segment>)
    requires
        sorted_fits(drive_size as int, sorted@),
    ensures
        r@ == layout_of(drive_size as int, sorted@),
{
    let n = sorted.len();
    if n == 0 {
        return vec![Segment::Free { offset: 0, size: drive_size }];
    }
    let ghost s = sorted@;
    let ghost d = drive_size as int;
    let mut out: Vec<Segment> = Vec::new();
    let mut cursor: u64 = 0;
    let mut i: usize = 0;
    assert(s.subrange(0, n as int) =~= s);
    while i < n
        invariant
            n == s.len(),
            s == sorted@,
            d == drive_size,
            sorted_fits(d, s),
            i <= n,
            cursor <= drive_size,
            i < n ==> cursor <= s[i as int].offset,
            out@ + layout_from(cursor as int, d, s.subrange(i as int, n as int)) == layout_from(
                0,
                d,
                s,
            ),
        decreases n - i,
    {
        let p = sorted[i];
        let ghost before = out@;
        let ghost c0 = cursor as int;
        let ghost tail = s.subrange(i as int, n as int);
        assert(tail.drop_first() =~= s.subrange(i + 1, n as int));
        assert(tail[0] == p);
        if p.offset - cursor > GAP_THRESHOLD {
            out.push(Segment::Free { offset: cursor, size: p.offset - cursor });
        }
        assert(out@ =~= before + gap(cursor as int, p.offset as int));
        out.push(Segment::Occupied(p));
        assert(end_of(p) <= d);
        cursor = p.offset + p.size;
        assert(out@ + layout_from(cursor as int, d, s.subrange(i + 1, n as int)) =~= before
            + layout_from(c0, d, tail));
        i = i + 1;
    }
    let ghost before = out@;
    if drive_size - cursor > GAP_THRESHOLD {
        out.push(Segment::Free { offset: cursor, size: drive_size - cursor });
    }
    assert(s.subrange(n as int, n as int) =~= Seq::<PartitionRecord>::empty());
    assert(out@ =~= before + gap(cursor as int, d));
    out
}


/// Valid records taken in an order that sorts them by offset are a sorted
/// arrangement of them, laid out one after the other.
proof fn lemma_sorted_arrangement(
    d: int,
    p: Seq<PartitionRecord>,
    o: Seq<usize>,
    s: Seq<PartitionRecord>,
)
    requires
        valid_partitions(d, p),
        permutes(o, p.len() as int),
        sorted_between(p, o, 0, p.len() as int),
        s.len() == p.len(),
        forall|m: int| 0 <= m < s.len() ==> s[m] == p[o[m] as int],
    ensures
        arranges(p, s),
        sorted_fits(d, s),
{
    let n = p.len();
    assert forall|a: int, b: int| 0 <= a < b < n implies s[a].offset < s[b].offset by {
        assert(key(p, o, a) <= key(p, o, b));
        assert(o[a] != o[b]);
        assert(disjoint(p[o[a] as int], p[o[b] as int]));
        assert(record_fits(d, p[o[a] as int]) && record_fits(d, p[o[b] as int]));
    }
    assert forall|m: int| 0 <= m < n implies end_of(#[trigger] s[m]) <= d by {
        assert(record_fits(d, p[o[m] as int]));
    }
    assert forall|m: int| 0 <= m < s.len() - 1 implies end_of(#[trigger] s[m])
        <= s[m + 1].offset by {
        assert(o[m] != o[m + 1]);
        assert(disjoint(p[o[m] as int], p[o[m + 1] as int]));
        assert(record_fits(d, p[o[m + 1] as int]));
        assert(key(p, o, m) <= key(p, o, m + 1));
    }
    assert forall|x: PartitionRecord| s.contains(x) implies p.contains(x) by {
        let m = choose|m: int| 0 <= m < s.len() && s[m] == x;
        assert(p[o[m] as int] == x);
    }
    assert forall|x: PartitionRecord| p.contains(x) implies s.contains(x) by {
        let t = choose|t: int| 0 <= t < p.len() && p[t] == x;
        assert(listed(o, t));
        let m = choose|m: int| 0 <= m < o.len() && o[m] == t;
        assert(s[m] == x);
    }
    assert(s.to_set() =~= p.to_set());
}

/// Reconstructs the layout of a drive of `drive_size` bytes from its
/// partition records, given in any order.
///
/// Each record must hold at least one byte and end within the drive, else
/// `InvalidRecord`; no two may overlap, else `Inconsistent`. The layout holds
/// every record once, by offset, with a free segment for each gap of more
/// than `GAP_THRESHOLD` bytes; a drive without partitions is one free segment.
pub fn reconstruct(drive_size: u64, partitions: &Vec<PartitionRecord>) -> (r: Result<
    Vec<Segment>,
    LayoutError,
>)
    ensures
        r == Err::<Vec<Segment>, LayoutError>(LayoutError::InvalidRecord) <==> !all_fit(
            drive_size as int,
            partitions@,
        ),
        r == Err::<Vec<Segment>, LayoutError>(LayoutError::Inconsistent) <==> all_fit(
            drive_size as int,
            partitions@,
        ) && !pairwise_disjoint(partitions@),
        r is Ok <==> valid_partitions(drive_size as int, partitions@),
        r matches Ok(layout) ==> reconstructs(drive_size as int, partitions@, layout@),
        partitions@.len() == 0 ==> (r matches Ok(layout) && layout@ == seq![
            Segment::Free { offset: 0, size: drive_size },
        ]),
{
    let n = partitions.len();
    let ghost d = drive_size as int;
    let ghost p = partitions@;
    let mut i: usize = 0;
    while i < n
        invariant
            n == p.len(),
            p == partitions@,
            d == drive_size,
            i <= n,
            forall|k: int| 0 <= k < i ==> record_fits(d, #[trigger] p[k]),
        decreases n - i,
    {
        if !fits(drive_size, &partitions[i]) {
            return Err(LayoutError::InvalidRecord);
        }
        i = i + 1;
    }
    let mut i: usize = 0;
    while i < n
        invariant
            n == p.len(),
            p == partitions@,
            d == drive_size,
            all_fit(d, p),
            i <= n,
            forall|a: int, b: int|
                0 <= a < i && a < b < n ==> disjoint(#[trigger] p[a], #[trigger] p[b]),
        decreases n - i,
    {
        let mut j: usize = i + 1;
        while j < n
            invariant
                n == p.len(),
                p == partitions@,
                d == drive_size,
                all_fit(d, p),
                i < n,
                i < j <= n,
                forall|a: int, b: int|
                    0 <= a < i && a < b < n ==> disjoint(#[trigger] p[a], #[trigger] p[b]),
                forall|b: int| i < b < j ==> disjoint(p[i as int], #[trigger] p[b]),
            decreases n - j,
        {
            assert(record_fits(d, p[i as int]) && record_fits(d, p[j as int]));
            if !apart(&partitions[i], &partitions[j]) {
                return Err(LayoutError::Inconsistent);
            }
            j = j + 1;
        }
        i = i + 1;
    }
    assert(pairwise_disjoint(p)) by {
        assert forall|a: int, b: int|
            0 <= a < n && 0 <= b < n && a != b implies disjoint(#[trigger] p[a], #[trigger] p[b]) by {
            if b < a {
                assert(disjoint(p[b], p[a]));
            }
        }
    }
    let order = sorted_order(partitions);
    let mut sorted: Vec<PartitionRecord> = Vec::new();
    let mut k: usize = 0;
    while k < n
        invariant
            n == p.len(),
            p == partitions@,
            permutes(order@, n as int),
            k <= n,
            sorted@.len() == k,
            forall|m: int| 0 <= m < k ==> sorted@[m] == p[order@[m] as int],
        decreases n - k,
    {
        sorted.push(partitions[order[k]]);
        k = k + 1;
    }
    proof {
        lemma_sorted_arrangement(d, p, order@, sorted@);
    }
    let layout = layout_from_sorted(drive_size, &sorted);
    proof {
        lemma_occupied_layout(d, sorted@);
    }
    Ok(layout)
}

/// The bytes a gap from `start` to `end` leaves unshown: all of it when it is
/// padding, none when it becomes a free segment.
pub open spec fn small_gap(start: int, end: int) -> int {
    if end - start > GAP_THRESHOLD {
        0
    } else {
        end - start
    }
}

pub open spec fn padding_from(cursor: int, drive_size: int, s: Seq<PartitionRecord>) -> int
    decreases s.len(),
{
    if s.len() == 0 {
        small_gap(cursor, drive_size)
    } else {
        small_gap(cursor, s[0].offset as int) + padding_from(
            end_of(s[0]),
            drive_size,
            s.drop_first(),
        )
    }
}

/// The bytes of a drive holding the sorted partitions `s` that no segment of
/// its layout shows, being alignment padding.
pub open spec fn padding(drive_size: int, s: Seq<PartitionRecord>) -> int {
    if s.len() == 0 {
        0
    } else {
        padding_from(0, drive_size, s)
    }
}

pub open spec fn total_size(l: Seq<Segment>) -> int
    decreases l.len(),
{
    if l.len() == 0 {
        0
    } else {
        l[0].len() + total_size(l.drop_first())
    }
}

pub open spec fn ascending_segments(l: Seq<Segment>) -> bool {
    forall|i: int, j: int| 0 <= i < j < l.len() ==> l[i].start() < l[j].start()
}

/// Each segment begins where its predecessor ends, or at most
/// `GAP_THRESHOLD` bytes later.
pub open spec fn padded(l: Seq<Segment>) -> bool {
    forall|i: int|
        0 <= i < l.len() - 1 ==> l[i].end() <= (#[trigger] l[i + 1]).start() <= l[i].end()
            + GAP_THRESHOLD
}

pub open spec fn contiguous(l: Seq<Segment>) -> bool {
    forall|i: int| 0 <= i < l.len() - 1 ==> l[i].end() == (#[trigger] l[i + 1]).start()
}

pub open spec fn no_adjacent_free(l: Seq<Segment>) -> bool {
    forall|i: int| 0 <= i < l.len() - 1 ==> !(l[i] is Free && (#[trigger] l[i + 1]) is Free)
}

proof fn lemma_total_concat(a: Seq<Segment>, b: Seq<Segment>)
    ensures
        total_size(a + b) == total_size(a) + total_size(b),
    decreases a.len(),
{
    if a.len() == 0 {
        assert(a + b =~= b);
    } else {
        lemma_total_concat(a.drop_first(), b);
        assert((a + b).drop_first() =~= a.drop_first() + b);
    }
}

proof fn lemma_total_one(x: Segment)
    ensures
        total_size(seq![x]) == x.len(),
{
    assert(seq![x].drop_first() =~= Seq::<Segment>::empty());
    assert(total_size(seq![x].drop_first()) == 0);
}

/// What holds of the segments from `cursor` on: the facts the laws below
/// are made of, proved together by induction over the partitions.
proof fn lemma_layout_from(cursor: int, drive_size: int, s: Seq<PartitionRecord>)
    requires
        0 <= cursor,
        drive_size <= u64::MAX,
        sorted_fits(drive_size, s),
        forall|k: int| 0 <= k < s.len() ==> (#[trigger] s[k]).size > 0,
        s.len() > 0 ==> cursor <= s[0].offset,
        s.len() == 0 ==> cursor <= drive_size,
    ensures
        ({
            let l = layout_from(cursor, drive_size, s);
            &&& forall|i: int|
                0 <= i < l.len() ==> cursor <= (#[trigger] l[i]).start() && l[i].end()
                    <= drive_size && l[i].len() > 0
            &&& l.len() > 0 ==> l[0].start() <= cursor + GAP_THRESHOLD
            &&& l.len() > 0 ==> drive_size <= l.last().end() + GAP_THRESHOLD
            &&& l.len() == 0 ==> drive_size <= cursor + GAP_THRESHOLD
            &&& ascending_segments(l)
            &&& padded(l)
            &&& no_adjacent_free(l)
            &&& total_size(l) + padding_from(cursor, drive_size, s) == drive_size - cursor
            &&& padding_from(cursor, drive_size, s) >= 0
            &&& padding_from(cursor, drive_size, s) == 0 ==> {
                &&& contiguous(l)
                &&& l.len() > 0 ==> l[0].start() == cursor && l.last().end() == drive_size
                &&& l.len() == 0 ==> cursor == drive_size
            }
        }),
    decreases s.len(),
{
    let l = layout_from(cursor, drive_size, s);
    if s.len() == 0 {
        if drive_size - cursor > GAP_THRESHOLD {
            lemma_total_one(l[0]);
        }
    } else {
        let o = s[0];
        let rest_s = s.drop_first();
        let c2 = end_of(o);
        assert forall|k: int| 0 <= k < rest_s.len() implies (#[trigger] rest_s[k]).size > 0 by {
            assert(rest_s[k] == s[k + 1]);
        }
        assert(sorted_fits(drive_size, rest_s)) by {
            assert forall|k: int| 0 <= k < rest_s.len() implies end_of(#[trigger] rest_s[k])
                <= drive_size by {
                assert(rest_s[k] == s[k + 1]);
            }
            assert forall|k: int| 0 <= k < rest_s.len() - 1 implies end_of(#[trigger] rest_s[k])
                <= rest_s[k + 1].offset by {
                assert(rest_s[k] == s[k + 1]);
                assert(rest_s[k + 1] == s[k + 2]);
            }
        }
        assert(end_of(s[0]) <= drive_size);
        if rest_s.len() > 0 {
            assert(rest_s[0] == s[1]);
            assert(end_of(s[0]) <= s[1].offset);
        }
        lemma_layout_from(c2, drive_size, rest_s);
        let g = gap(cursor, o.offset as int);
        let os = seq![Segment::Occupied(o)];
        let r = layout_from(c2, drive_size, rest_s);
        assert(l == g + os + r);
        let go = g + os;
        lemma_total_concat(go, r);
        lemma_total_concat(g, os);
        lemma_total_one(Segment::Occupied(o));
        if o.offset - cursor > GAP_THRESHOLD {
            lemma_total_one(g[0]);
        }
        assert(go.len() == g.len() + 1);
        assert(go[g.len() as int] == Segment::Occupied(o));
        assert forall|i: int| 0 <= i < l.len() implies cursor <= (#[trigger] l[i]).start()
            && l[i].end() <= drive_size && l[i].len() > 0 by {
            if i >= go.len() {
                assert(l[i] == r[i - go.len()]);
            }
        }
        assert(ascending_segments(l)) by {
            assert forall|i: int, j: int| 0 <= i < j < l.len() implies l[i].start()
                < l[j].start() by {
                if j >= go.len() {
                    assert(l[j] == r[j - go.len()]);
                    if i >= go.len() {
                        assert(l[i] == r[i - go.len()]);
                    }
                }
            }
        }
        assert(padded(l)) by {
            assert forall|i: int| 0 <= i < l.len() - 1 implies l[i].end() <= (#[trigger] l[i
                + 1]).start() <= l[i].end() + GAP_THRESHOLD by {
                if i + 1 > go.len() {
                    let k = i - go.len();
                    assert(l[i] == r[k]);
                    assert(l[i + 1] == r[k + 1]);
                } else if i + 1 == go.len() {
                    assert(l[i] == Segment::Occupied(o));
                    assert(l[i + 1] == r[0]);
                } else {
                    assert(l[i] == g[0]);
                    assert(l[i + 1] == Segment::Occupied(o));
                }
            }
        }
        assert(no_adjacent_free(l)) by {
            assert forall|i: int| 0 <= i < l.len() - 1 implies !(l[i] is Free && (#[trigger] l[i
                + 1]) is Free) by {
                if i + 1 > go.len() {
                    let k = i - go.len();
                    assert(l[i] == r[k]);
                    assert(l[i + 1] == r[k + 1]);
                } else if i + 1 == go.len() {
                    assert(l[i] == Segment::Occupied(o));
                } else {
                    assert(l[i + 1] == Segment::Occupied(o));
                }
            }
        }
        if r.len() > 0 {
            assert(l.last() == r.last());
        }
        if padding_from(cursor, drive_size, s) == 0 {
            assert(contiguous(l)) by {
                assert forall|i: int| 0 <= i < l.len() - 1 implies l[i].end() == (#[trigger] l[i
                    + 1]).start() by {
                    if i + 1 > go.len() {
                        let k = i - go.len();
                        assert(l[i] == r[k]);
                        assert(l[i + 1] == r[k + 1]);
                    } else if i + 1 == go.len() {
                        assert(l[i] == Segment::Occupied(o));
                        assert(l[i + 1] == r[0]);
                    } else {
                        assert(l[i] == g[0]);
                        assert(l[i + 1] == Segment::Occupied(o));
                    }
                }
            }
        }
    }
}


/// A sorted arrangement of valid records is itself laid out in order: each
/// record holds bytes, ends within the drive, and ends before the next begins.
proof fn lemma_arranged_fits(drive_size: int, parts: Seq<PartitionRecord>, s: Seq<PartitionRecord>)
    requires
        valid_partitions(drive_size, parts),
        arranges(parts, s),
    ensures
        sorted_fits(drive_size, s),
        forall|k: int| 0 <= k < s.len() ==> (#[trigger] s[k]).size > 0,
{
    assert forall|k: int| 0 <= k < s.len() implies (#[trigger] s[k]).size > 0 && end_of(s[k])
        <= drive_size by {
        assert(s.to_set().contains(s[k]));
        assert(parts.contains(s[k]));
        let i = choose|i: int| 0 <= i < parts.len() && parts[i] == s[k];
        assert(record_fits(drive_size, parts[i]));
    }
    assert forall|k: int| 0 <= k < s.len() - 1 implies end_of(#[trigger] s[k]) <= s[k
        + 1].offset by {
        assert(s.to_set().contains(s[k]));
        assert(s.to_set().contains(s[k + 1]));
        assert(parts.contains(s[k]));
        assert(parts.contains(s[k + 1]));
        let i = choose|i: int| 0 <= i < parts.len() && parts[i] == s[k];
        let j = choose|j: int| 0 <= j < parts.len() && parts[j] == s[k + 1];
        assert(s[k].offset < s[k + 1].offset);
        assert(disjoint(parts[i], parts[j]));
        assert(record_fits(drive_size, parts[j]));
    }
}

/// The facts of `lemma_layout_from`, for a whole reconstructed layout.
proof fn lemma_reconstructed(drive_size: u64, parts: Seq<PartitionRecord>, layout: Seq<Segment>)
    requires
        valid_partitions(drive_size as int, parts),
        reconstructs(drive_size as int, parts, layout),
    ensures
        layout.len() > 0,
        forall|i: int| 0 <= i < layout.len() ==> (#[trigger] layout[i]).end() <= drive_size,
        layout[0].start() <= GAP_THRESHOLD,
        drive_size <= layout.last().end() + GAP_THRESHOLD,
        ascending_segments(layout),
        padded(layout),
        no_adjacent_free(layout),
        padding(drive_size as int, occupied(layout)) >= 0,
        total_size(layout) == drive_size - padding(drive_size as int, occupied(layout)),
        padding(drive_size as int, occupied(layout)) == 0 ==> contiguous(layout)
            && layout[0].start() == 0 && layout.last().end() == drive_size,
{
    let d = drive_size as int;
    let s = occupied(layout);
    if s.len() == 0 {
        lemma_total_one(layout[0]);
    } else {
        lemma_arranged_fits(d, parts, s);
        lemma_layout_from(0, d, s);
    }
}

/// The segment sizes of a reconstructed layout add up to the drive's size
/// less the padding left out between partitions, and so to the whole drive
/// when no gap is padding.
pub proof fn law_sizes_cover_drive(
    drive_size: u64,
    parts: Seq<PartitionRecord>,
    layout: Seq<Segment>,
)
    requires
        valid_partitions(drive_size as int, parts),
        reconstructs(drive_size as int, parts, layout),
    ensures
        total_size(layout) == drive_size - padding(drive_size as int, occupied(layout)),
        padding(drive_size as int, occupied(layout)) == 0 ==> total_size(layout) == drive_size,
{
    lemma_reconstructed(drive_size, parts, layout);
}

/// The segments of a reconstructed layout are strictly ascending by offset,
/// lie within the drive, and each begins where its predecessor ends or at
/// most `GAP_THRESHOLD` bytes later. When no gap is padding, they meet end to
/// end from the first byte of the drive to its last.
pub proof fn law_segments_in_order(
    drive_size: u64,
    parts: Seq<PartitionRecord>,
    layout: Seq<Segment>,
)
    requires
        valid_partitions(drive_size as int, parts),
        reconstructs(drive_size as int, parts, layout),
    ensures
        ascending_segments(layout),
        padded(layout),
        forall|i: int| 0 <= i < layout.len() ==> (#[trigger] layout[i]).end() <= drive_size,
        layout[0].start() <= GAP_THRESHOLD,
        drive_size <= layout.last().end() + GAP_THRESHOLD,
        padding(drive_size as int, occupied(layout)) == 0 ==> contiguous(layout)
            && layout[0].start() == 0 && layout.last().end() == drive_size,
{
    lemma_reconstructed(drive_size, parts, layout);
}

/// No two adjacent segments of a reconstructed layout are both free.
pub proof fn law_no_adjacent_free(
    drive_size: u64,
    parts: Seq<PartitionRecord>,
    layout: Seq<Segment>,
)
    requires
        valid_partitions(drive_size as int, parts),
        reconstructs(drive_size as int, parts, layout),
    ensures
        no_adjacent_free(layout),
{
    lemma_reconstructed(drive_size, parts, layout);
}

/// A drive without partitions is one free segment from its first byte to its last.
pub proof fn law_empty_drive(drive_size: u64, layout: Seq<Segment>)
    requires
        reconstructs(drive_size as int, Seq::empty(), layout),
    ensures
        layout == seq![Segment::Free { offset: 0, size: drive_size }],
{
    let s = occupied(layout);
    assert(s.len() == 0);
}

/// The free segments from `cursor` on are each larger than the threshold.
proof fn lemma_free_exceeds_threshold(cursor: int, drive_size: int, s: Seq<PartitionRecord>)
    requires
        0 <= cursor,
        drive_size <= u64::MAX,
    ensures
        ({
            let l = layout_from(cursor, drive_size, s);
            forall|i: int| 0 <= i < l.len() && l[i] is Free ==> (#[trigger] l[i]).len() > GAP_THRESHOLD
        }),
    decreases s.len(),
{
    let l = layout_from(cursor, drive_size, s);
    if s.len() > 0 {
        let o = s[0];
        lemma_free_exceeds_threshold(end_of(o), drive_size, s.drop_first());
        let g = gap(cursor, o.offset as int);
        let go = g + seq![Segment::Occupied(o)];
        let r = layout_from(end_of(o), drive_size, s.drop_first());
        assert(l == go + r);
        assert forall|i: int| 0 <= i < l.len() && l[i] is Free implies (#[trigger] l[i]).len()
            > GAP_THRESHOLD by {
            if i >= go.len() {
                assert(l[i] == r[i - go.len()]);
            } else if i < g.len() {
                assert(l[i] == g[i]);
            } else {
                assert(l[i] == Segment::Occupied(o));
            }
        }
    }
}

/// Two sorted partitions separated by no more than padding stand next to
/// each other in the segments from `cursor` on.
proof fn lemma_padding_joins(cursor: int, drive_size: int, s: Seq<PartitionRecord>, k: int)
    requires
        0 <= k < s.len() - 1,
        s[k + 1].offset - end_of(s[k]) <= GAP_THRESHOLD,
    ensures
        ({
            let l = layout_from(cursor, drive_size, s);
            exists|i: int|
                0 <= i < l.len() - 1 && #[trigger] l[i] == Segment::Occupied(s[k]) && l[i + 1]
                    == Segment::Occupied(s[k + 1])
        }),
    decreases s.len(),
{
    let l = layout_from(cursor, drive_size, s);
    let o = s[0];
    let rest = s.drop_first();
    let g = gap(cursor, o.offset as int);
    let go = g + seq![Segment::Occupied(o)];
    let r = layout_from(end_of(o), drive_size, rest);
    assert(l == go + r);
    if k == 0 {
        assert(rest[0] == s[1]);
        assert(gap(end_of(o), rest[0].offset as int) =~= Seq::<Segment>::empty());
        assert(r[0] == Segment::Occupied(s[1]));
        let i = g.len() as int;
        assert(l[i] == Segment::Occupied(o));
        assert(l[i + 1] == r[0]);
    } else {
        assert(rest[k - 1] == s[k] && rest[k] == s[k + 1]);
        lemma_padding_joins(end_of(o), drive_size, rest, k - 1);
        let j = choose|j: int|
            0 <= j < r.len() - 1 && #[trigger] r[j] == Segment::Occupied(rest[k - 1]) && r[j + 1]
                == Segment::Occupied(rest[k]);
        let i = go.len() + j;
        assert(l[i] == r[j]);
        assert(l[i + 1] == r[j + 1]);
    }
}

/// Padding is not shown as free space: every free segment of a drive with
/// partitions is larger than `GAP_THRESHOLD`, and two partitions that follow
/// each other with at most `GAP_THRESHOLD` bytes between them stand next to
/// each other in the layout.
pub proof fn law_padding_is_not_free_space(
    drive_size: u64,
    parts: Seq<PartitionRecord>,
    layout: Seq<Segment>,
)
    requires
        valid_partitions(drive_size as int, parts),
        reconstructs(drive_size as int, parts, layout),
    ensures
        occupied(layout).len() > 0 ==> forall|i: int|
            0 <= i < layout.len() && layout[i] is Free ==> (#[trigger] layout[i]).len()
                > GAP_THRESHOLD,
        forall|k: int|
            0 <= k < occupied(layout).len() - 1 && (#[trigger] occupied(layout)[k + 1]).offset
                - end_of(occupied(layout)[k]) <= GAP_THRESHOLD ==> exists|i: int|
                0 <= i < layout.len() - 1 && #[trigger] layout[i] == Segment::Occupied(occupied(layout)[k])
                    && layout[i + 1] == Segment::Occupied(occupied(layout)[k + 1]),
{
    let s = occupied(layout);
    if s.len() > 0 {
        lemma_free_exceeds_threshold(0, drive_size as int, s);
        assert forall|k: int|
            0 <= k < s.len() - 1 && (#[trigger] s[k + 1]).offset - end_of(s[k])
                <= GAP_THRESHOLD implies exists|i: int|
            0 <= i < layout.len() - 1 && #[trigger] layout[i] == Segment::Occupied(s[k]) && layout[i + 1]
                == Segment::Occupied(s[k + 1]) by {
            lemma_padding_joins(0, drive_size as int, s, k);
        }
    }
}

} // verus!
