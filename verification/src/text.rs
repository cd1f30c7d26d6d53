//! Scanning of line-oriented text whose fields are separated by ASCII
//! whitespace.

use vstd::prelude::*;

verus! {

/// ASCII whitespace: space, tab, line feed, form feed, carriage return.
pub open spec fn is_field_sep(b: u8) -> bool {
    b == 0x20 || b == 0x09 || b == 0x0a || b == 0x0c || b == 0x0d
}

/// First index in `from..end` that holds no whitespace, or `end`.
pub open spec fn skip_seps(s: Seq<u8>, from: int, end: int) -> int
    decreases end - from,
{
    if 0 <= from < end <= s.len() && is_field_sep(s[from]) {
        skip_seps(s, from + 1, end)
    } else {
        from
    }
}

/// First index in `from..end` that holds whitespace, or `end`.
pub open spec fn skip_field(s: Seq<u8>, from: int, end: int) -> int
    decreases end - from,
{
    if 0 <= from < end <= s.len() && !is_field_sep(s[from]) {
        skip_field(s, from + 1, end)
    } else {
        from
    }
}

/// First index at or after `from` that holds a line feed, or the length.
pub open spec fn line_end(s: Seq<u8>, from: int) -> int
    decreases s.len() - from,
{
    if 0 <= from < s.len() && s[from] != 0x0a {
        line_end(s, from + 1)
    } else {
        from
    }
}

/// Skips whitespace: the first index in `from..end` that holds none, or `end`.
pub fn skip_seps_in(text: &[u8], from: usize, end: usize) -> (at: usize)
    requires
        from <= end <= text@.len(),
    ensures
        at == skip_seps(text@, from as int, end as int),
        from <= at <= end,
{
    let mut i: usize = from;
    while i < end && (text[i] == 0x20 || text[i] == 0x09 || text[i] == 0x0a || text[i] == 0x0c
        || text[i] == 0x0d)
        invariant
            from <= i <= end <= text@.len(),
            skip_seps(text@, from as int, end as int) == skip_seps(text@, i as int, end as int),
        decreases end - i,
    {
        i += 1;
    }
    i
}

/// Skips a field: the first index in `from..end` that holds whitespace, or
/// `end`.
pub fn skip_field_in(text: &[u8], from: usize, end: usize) -> (at: usize)
    requires
        from <= end <= text@.len(),
    ensures
        at == skip_field(text@, from as int, end as int),
        from <= at <= end,
{
    let mut i: usize = from;
    while i < end && !(text[i] == 0x20 || text[i] == 0x09 || text[i] == 0x0a || text[i] == 0x0c
        || text[i] == 0x0d)
        invariant
            from <= i <= end <= text@.len(),
            skip_field(text@, from as int, end as int) == skip_field(text@, i as int, end as int),
        decreases end - i,
    {
        i += 1;
    }
    i
}

/// Finds the end of the line that starts at `from`.
pub fn line_end_in(text: &[u8], from: usize) -> (at: usize)
    requires
        from <= text@.len(),
    ensures
        at == line_end(text@, from as int),
        from <= at <= text@.len(),
{
    let mut i: usize = from;
    while i < text.len() && text[i] != 0x0a
        invariant
            from <= i <= text@.len(),
            line_end(text@, from as int) == line_end(text@, i as int),
        decreases text@.len() - i,
    {
        i += 1;
    }
    i
}

} // verus!
