//! The first line of the kernel's CPU accounting: a label followed by
//! cumulative tick counts.

use vstd::prelude::*;
use crate::text::{line_end, line_end_in, skip_field, skip_field_in, skip_seps, skip_seps_in};

verus! {

/// Number of tick counts that are read from the line; further ones are
/// ignored.
pub const PROCFS_METRICS: usize = 10;

/// The value of one decimal digit.
pub open spec fn dec_digit(b: u8) -> Option<int> {
    if 0x30 <= b <= 0x39 {
        Some(b - 0x30)
    } else {
        None
    }
}

/// The number that a non-empty run of decimal digits denotes.
pub open spec fn dec_value(digits: Seq<u8>) -> Option<int>
    decreases digits.len(),
{
    if digits.len() == 0 {
        None
    } else if digits.len() == 1 {
        dec_digit(digits[0])
    } else {
        match (dec_value(digits.drop_last()), dec_digit(digits.last())) {
            (Some(v), Some(d)) => Some(10 * v + d),
            _ => None,
        }
    }
}

/// The number that a field denotes: decimal digits, optionally after a sign.
pub open spec fn signed_value(field: Seq<u8>) -> Option<int> {
    if field.len() > 0 && field[0] == 0x2d {
        match dec_value(field.skip(1)) {
            Some(v) => Some(-v),
            None => None,
        }
    } else if field.len() > 0 && field[0] == 0x2b {
        dec_value(field.skip(1))
    } else {
        dec_value(field)
    }
}

/// The 64-bit signed integer that a field denotes, if it denotes one.
pub open spec fn parse_i64(field: Seq<u8>) -> Option<i64> {
    match signed_value(field) {
        Some(v) => if i64::MIN <= v <= i64::MAX {
            Some(v as i64)
        } else {
            None
        },
        None => None,
    }
}

/// The integers of the first `limit` fields of `s[from..end]`, or `None`
/// when one of those fields is no integer.
pub open spec fn stat_fields(s: Seq<u8>, from: int, end: int, limit: nat) -> Option<Seq<i64>>
    decreases limit,
{
    let a = skip_seps(s, from, end);
    let b = skip_field(s, a, end);
    if limit == 0 || a == b {
        Some(Seq::empty())
    } else {
        match parse_i64(s.subrange(a, b)) {
            None => None,
            Some(v) => match stat_fields(s, b, end, (limit - 1) as nat) {
                Some(rest) => Some(seq![v] + rest),
                None => None,
            },
        }
    }
}

/// The tick counts of the first line of `s`: the integers after its label,
/// ten at most, or `None` when one of them cannot be read.
pub open spec fn proc_stat_ticks(s: Seq<u8>) -> Option<Seq<i64>> {
    let end = line_end(s, 0);
    let label = skip_seps(s, 0, end);
    let after_label = skip_field(s, label, end);
    stat_fields(s, after_label, end, PROCFS_METRICS as nat)
}

/// A number is no smaller than what any shorter run of its leading digits
/// denotes, and those are numbers too.
proof fn lemma_dec_prefix(digits: Seq<u8>, k: int)
    requires
        1 <= k <= digits.len(),
        dec_value(digits) is Some,
    ensures
        dec_value(digits.take(k)) is Some,
        0 <= dec_value(digits.take(k))->0 <= dec_value(digits)->0,
    decreases digits.len(),
{
    if k == digits.len() {
        assert(digits.take(k) =~= digits);
        if digits.len() > 1 {
            lemma_dec_prefix(digits.drop_last(), k - 1);
            assert(digits.drop_last().take(k - 1) =~= digits.drop_last());
        }
    } else {
        lemma_dec_prefix(digits.drop_last(), k);
        assert(digits.drop_last().take(k) =~= digits.take(k));
    }
}

/// Reads the digits `text[from..to]` as a number of at most `limit`.
fn magnitude_in(text: &[u8], from: usize, to: usize, limit: u64) -> (value: Option<u64>)
    requires
        from <= to <= text@.len(),
        limit <= 0x8000_0000_0000_0000,
    ensures
        match value {
            Some(v) => dec_value(text@.subrange(from as int, to as int)) == Some(v as int) && v
                <= limit,
            None => match dec_value(text@.subrange(from as int, to as int)) {
                Some(v) => v > limit,
                None => true,
            },
        },
{
    let ghost digits = text@.subrange(from as int, to as int);
    if from == to {
        return None;
    }
    let mut value: u64 = 0;
    let mut i: usize = from;
    while i < to
        invariant
            from <= i <= to <= text@.len(),
            from < to,
            limit <= 0x8000_0000_0000_0000,
            digits == text@.subrange(from as int, to as int),
            i > from ==> dec_value(digits.take(i - from)) == Some(value as int),
            i == from ==> value == 0,
            value <= limit,
        decreases to - i,
    {
        let ghost k = i - from;
        let b = text[i];
        proof {
            assert(digits.take(k + 1).drop_last() =~= digits.take(k));
            assert(digits.take(k + 1).last() == b);
            assert(digits.take(k + 1).len() == k + 1);
            if k == 0 {
                assert(digits.take(1)[0] == b);
            }
        }
        if !(0x30 <= b && b <= 0x39) {
            proof {
                assert(dec_value(digits.take(k + 1)) is None);
                if dec_value(digits) is Some {
                    lemma_dec_prefix(digits, k + 1);
                }
            }
            return None;
        }
        let d: u128 = (b - 0x30) as u128;
        let next: u128 = (value as u128) * 10 + d;
        proof {
            assert(dec_value(digits.take(k + 1)) == Some(next as int));
        }
        if next > limit as u128 {
            proof {
                if dec_value(digits) is Some {
                    lemma_dec_prefix(digits, k + 1);
                }
            }
            return None;
        }
        value = next as u64;
        i += 1;
    }
    proof {
        assert(digits.take(to - from) =~= digits);
    }
    Some(value)
}

/// Reads the field `text[from..to]` as a 64-bit signed integer.
pub fn integer_in(text: &[u8], from: usize, to: usize) -> (value: Option<i64>)
    requires
        from <= to <= text@.len(),
    ensures
        value == parse_i64(text@.subrange(from as int, to as int)),
{
    let ghost field = text@.subrange(from as int, to as int);
    if from < to && text[from] == 0x2d {
        proof {
            assert(field[0] == 0x2d);
            assert(field.skip(1) =~= text@.subrange(from + 1, to as int));
        }
        match magnitude_in(text, from + 1, to, 0x8000_0000_0000_0000) {
            Some(m) => {
                if m == 0x8000_0000_0000_0000 {
                    Some(i64::MIN)
                } else {
                    Some(-(m as i64))
                }
            },
            None => None,
        }
    } else if from < to && text[from] == 0x2b {
        proof {
            assert(field[0] == 0x2b);
            assert(field.skip(1) =~= text@.subrange(from + 1, to as int));
        }
        match magnitude_in(text, from + 1, to, 0x7fff_ffff_ffff_ffff) {
            Some(m) => Some(m as i64),
            None => None,
        }
    } else {
        proof {
            if from < to {
                assert(field[0] == text@[from as int]);
            }
        }
        match magnitude_in(text, from, to, 0x7fff_ffff_ffff_ffff) {
            Some(m) => Some(m as i64),
            None => None,
        }
    }
}

/// Reads the tick counts of the first line of `text`: the integers that
/// follow the label of the line, ten at most. Returns `None` when one of them
/// is no 64-bit integer.
pub fn parse_proc_stat(text: &[u8]) -> (ticks: Option<Vec<i64>>)
    ensures
        match ticks {
            Some(values) => proc_stat_ticks(text@) == Some(values@),
            None => proc_stat_ticks(text@) is None,
        },
        ticks is Some ==> ticks->0@.len() <= PROCFS_METRICS,
{
    let end = line_end_in(text, 0);
    let label = skip_seps_in(text, 0, end);
    let after_label = skip_field_in(text, label, end);
    let mut values: Vec<i64> = Vec::new();
    let mut pos: usize = after_label;
    let ghost start = after_label as int;
    loop
        invariant
            pos <= end <= text@.len(),
            values@.len() <= PROCFS_METRICS,
            proc_stat_ticks(text@) == stat_fields(text@, start, end as int, PROCFS_METRICS as nat),
            stat_fields(text@, start, end as int, PROCFS_METRICS as nat) == match stat_fields(
                text@,
                pos as int,
                end as int,
                (PROCFS_METRICS - values@.len()) as nat,
            ) {
                Some(rest) => Some(values@ + rest),
                None => None,
            },
        decreases PROCFS_METRICS - values@.len(),
    {
        let a = skip_seps_in(text, pos, end);
        let b = skip_field_in(text, a, end);
        if values.len() >= PROCFS_METRICS || a == b {
            proof {
                assert(values@ + Seq::<i64>::empty() =~= values@);
            }
            return Some(values);
        }
        match integer_in(text, a, b) {
            None => {
                return None;
            },
            Some(v) => {
                let ghost before = values@;
                values.push(v);
                proof {
                    match stat_fields(
                        text@,
                        b as int,
                        end as int,
                        (PROCFS_METRICS - values@.len()) as nat,
                    ) {
                        Some(rest) => {
                            assert(before + (seq![v] + rest) =~= values@ + rest);
                        },
                        None => {},
                    }
                }
                pos = b;
            },
        }
    }
}

} // verus!
