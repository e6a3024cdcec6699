//! Text derived from what the disk service reports: names taken from object
//! paths, labels taken from its display strings, and decimal sizes.
use vstd::prelude::*;
use vstd::string::StrSliceExecFns;

verus! {

/// The separator between the context and the text of the disk service's
/// display strings (`"part-type\u{4}Linux filesystem"`).
pub const CONTEXT_SEPARATOR: char = '\u{4}';

/// The characters of `s` after the last `sep`, or all of them when it holds none.
pub open spec fn after_last(s: Seq<char>, sep: char) -> Seq<char>
    decreases s.len(),
{
    if s.len() == 0 {
        s
    } else if s.last() == sep {
        Seq::empty()
    } else {
        after_last(s.drop_last(), sep).push(s.last())
    }
}

proof fn lemma_after_last(s: Seq<char>, sep: char, start: int)
    requires
        0 <= start <= s.len(),
        start > 0 ==> s[start - 1] == sep,
        forall|k: int| start <= k < s.len() ==> s[k] != sep,
    ensures
        after_last(s, sep) == s.subrange(start, s.len() as int),
    decreases s.len(),
{
    if s.len() == start {
        if s.len() > 0 {
            assert(s.last() == sep);
        }
        assert(s.subrange(start, s.len() as int) =~= Seq::<char>::empty());
    } else {
        lemma_after_last(s.drop_last(), sep, start);
        assert(s.drop_last().subrange(start, s.len() - 1).push(s.last()) =~= s.subrange(
            start,
            s.len() as int,
        ));
    }
}

/// What follows the last separator holds none.
pub proof fn lemma_after_last_has_no_separator(s: Seq<char>, sep: char)
    ensures
        !after_last(s, sep).contains(sep),
    decreases s.len(),
{
    if s.len() > 0 && s.last() != sep {
        lemma_after_last_has_no_separator(s.drop_last(), sep);
        let t = after_last(s.drop_last(), sep);
        assert forall|k: int| 0 <= k < t.push(s.last()).len() implies t.push(s.last())[k]
            != sep by {
            if k < t.len() {
                assert(t.push(s.last())[k] == t[k]);
            }
        }
    }
}

/// The text of `s` after its last `sep`, or all of `s` when it holds none.
pub fn text_after_last(s: &str, sep: char) -> (r: String)
    ensures
        r@ == after_last(s@, sep),
{
    let n = s.unicode_len();
    let mut start: usize = 0;
    let mut i: usize = 0;
    while i < n
        invariant
            n == s@.len(),
            start <= i <= n,
            start > 0 ==> s@[start - 1] == sep,
            forall|k: int| start <= k < i ==> s@[k] != sep,
        decreases n - i,
    {
        if s.get_char(i) == sep {
            start = i + 1;
        }
        i = i + 1;
    }
    proof {
        lemma_after_last(s@, sep, start as int);
    }
    s.substring_char(start, n).to_owned()
}

/// The name of a disk service object: the last element of its object path
/// (`"/org/freedesktop/UDisks2/block_devices/sda1"` names `"sda1"`).
pub fn object_name(object_path: &str) -> (r: String)
    ensures
        r@ == after_last(object_path@, '/'),
{
    text_after_last(object_path, '/')
}

/// The text of a display string of the disk service, without its context.
pub fn display_text(described: &str) -> (r: String)
    ensures
        r@ == after_last(described@, CONTEXT_SEPARATOR),
        !r@.contains(CONTEXT_SEPARATOR),
{
    proof {
        lemma_after_last_has_no_separator(described@, CONTEXT_SEPARATOR);
    }
    text_after_last(described, CONTEXT_SEPARATOR)
}

/// The label of a partition's type: the text of its description, or
/// `"None"` when the disk service has none.
pub fn partition_type_label(described: Option<&str>) -> (r: String)
    ensures
        described matches Some(d) ==> r@ == after_last(d@, CONTEXT_SEPARATOR),
        described is None ==> r@ == "None"@,
        !r@.contains(CONTEXT_SEPARATOR),
{
    proof {
        reveal_strlit("None");
    }
    match described {
        Some(d) => display_text(d),
        None => "None".to_owned(),
    }
}

/// Whether two texts are the same, character for character.
pub fn same_text(a: &str, b: &str) -> (r: bool)
    ensures
        r == (a@ == b@),
{
    let n = a.unicode_len();
    if n != b.unicode_len() {
        return false;
    }
    let mut i: usize = 0;
    while i < n
        invariant
            n == a@.len(),
            n == b@.len(),
            i <= n,
            forall|k: int| 0 <= k < i ==> a@[k] == b@[k],
        decreases n - i,
    {
        if a.get_char(i) != b.get_char(i) {
            return false;
        }
        i = i + 1;
    }
    assert(a@ =~= b@);
    true
}

/// The name of a kind of partition table (the disk service calls a Master
/// Boot Record `"dos"`), or `"Empty"` for a drive without one.
pub fn partitioning_label(table_type: Option<&str>) -> (r: &'static str)
    ensures
        table_type matches Some(t) && t@ == "gpt"@ ==> r@ == "GUID Partition Table"@,
        table_type matches Some(t) && (t@ == "dos"@ || t@ == "mbr"@) ==> r@
            == "Master Boot Record"@,
        table_type matches Some(t) && t@ != "gpt"@ && t@ != "dos"@ && t@ != "mbr"@ ==> r@
            == "Unknown"@,
        table_type is None ==> r@ == "Empty"@,
{
    proof {
        reveal_strlit("gpt");
        reveal_strlit("dos");
        reveal_strlit("mbr");
        assert("gpt"@[0] != "mbr"@[0]);
        assert("gpt"@[0] != "dos"@[0]);
    }
    match table_type {
        Some(t) => {
            if same_text(t, "gpt") {
                "GUID Partition Table"
            } else if same_text(t, "dos") || same_text(t, "mbr") {
                "Master Boot Record"
            } else {
                "Unknown"
            }
        },
        None => "Empty",
    }
}

pub open spec fn is_digit(c: char) -> bool {
    '0' <= c <= '9'
}

pub open spec fn digit_value(c: char) -> int {
    c as int - '0' as int
}

/// The value of a string of decimal digits.
pub open spec fn digits_value(s: Seq<char>) -> int
    decreases s.len(),
{
    if s.len() == 0 {
        0
    } else {
        digits_value(s.drop_last()) * 10 + digit_value(s.last())
    }
}

/// The digits of an unsigned number written with an optional leading `+`.
pub open spec fn unsigned_digits(s: Seq<char>) -> Seq<char> {
    if s.len() > 0 && s[0] == '+' {
        s.drop_first()
    } else {
        s
    }
}

/// The `u64` that `s` writes in decimal, if it writes one.
pub open spec fn parsed_u64(s: Seq<char>) -> Option<u64> {
    let t = unsigned_digits(s);
    if t.len() > 0 && (forall|k: int| 0 <= k < t.len() ==> is_digit(#[trigger] t[k]))
        && digits_value(t) <= u64::MAX {
        Some(digits_value(t) as u64)
    } else {
        None
    }
}

pub open spec fn digit_char(d: nat) -> char {
    seq!['0', '1', '2', '3', '4', '5', '6', '7', '8', '9'][d as int]
}

/// The decimal digits of `n`, without leading zeros.
pub open spec fn decimal(n: nat) -> Seq<char>
    decreases n,
{
    if n < 10 {
        seq![digit_char(n)]
    } else {
        decimal(n / 10).push(digit_char(n % 10))
    }
}

/// Relies on `str::parse::<u64>`: an optional `+` followed by one or more
/// decimal digits whose value fits in `u64` is read; any other text is an error.
#[verifier::external_body]
pub(crate) fn parse_u64(s: &str) -> (r: Option<u64>)
    ensures
        r == parsed_u64(s@),
{
    s.parse::<u64>().ok()
}

/// Relies on `u64::to_string`: the decimal digits of the value, without
/// sign or leading zeros.
#[verifier::external_body]
pub(crate) fn decimal_text(n: u64) -> (r: String)
    ensures
        r@ == decimal(n as nat),
{
    n.to_string()
}

} // verus!
