//! The text format of the kernel's symbol listing.
//!
//! Every line holds at least three fields separated by ASCII whitespace: the
//! address in hexadecimal, a type letter, and the symbol's name. Lines end
//! with a line feed; the last one may go without.

use vstd::prelude::*;
use vstd::string::StringSliceAdditionalSpecFns;
use crate::classifier::{Classifier, CountField};
use crate::text::{line_end, line_end_in, skip_field, skip_field_in, skip_seps, skip_seps_in};

verus! {

/// One line of the listing, reduced to what the analysis keeps of it.
#[derive(Clone, Copy, Debug, PartialEq, Eq, Structural)]
pub struct Symbol {
    pub addr: u64,
    /// What a frame in this symbol means; `None` for a symbol that the
    /// analysis does not recognise.
    pub classifier: Option<Classifier>,
}

/// Why a listing was refused. Both variants give the byte range of the
/// offending line, without its line feed.
#[derive(Clone, Copy, Debug, PartialEq, Eq, Structural)]
pub enum LoadError {
    /// The line has fewer than three fields.
    MissingField { start: usize, end: usize },
    /// The first field is not a hexadecimal number that fits 64 bits.
    InvalidAddress { start: usize, end: usize },
}

/// What is wrong with a single line.
#[derive(Clone, Copy, Debug, PartialEq, Eq, Structural)]
pub enum LineError {
    MissingField,
    InvalidAddress,
}

/// The value of one hexadecimal digit, in either case.
pub open spec fn hex_digit(b: u8) -> Option<int> {
    if 0x30 <= b <= 0x39 {
        Some(b - 0x30)
    } else if 0x61 <= b <= 0x66 {
        Some(b - 0x61 + 10)
    } else if 0x41 <= b <= 0x46 {
        Some(b - 0x41 + 10)
    } else {
        None
    }
}

/// The number that a non-empty run of hexadecimal digits denotes.
pub open spec fn hex_value(digits: Seq<u8>) -> Option<int>
    decreases digits.len(),
{
    if digits.len() == 0 {
        None
    } else if digits.len() == 1 {
        hex_digit(digits[0])
    } else {
        match (hex_value(digits.drop_last()), hex_digit(digits.last())) {
            (Some(v), Some(d)) => Some(16 * v + d),
            _ => None,
        }
    }
}

/// The address that a run of hexadecimal digits denotes, if it fits 64 bits.
pub open spec fn address_of_digits(digits: Seq<u8>) -> Option<u64> {
    match hex_value(digits) {
        Some(v) => if v <= u64::MAX {
            Some(v as u64)
        } else {
            None
        },
        None => None,
    }
}

/// The address that a field denotes: hexadecimal digits, optionally after a
/// plus sign, with a value that fits 64 bits.
pub open spec fn parse_address(field: Seq<u8>) -> Option<u64> {
    if field.len() > 0 && field[0] == 0x2b {
        address_of_digits(field.skip(1))
    } else {
        address_of_digits(field)
    }
}

/// The classifier installed for a symbol of the given name.
pub open spec fn classifier_for(name: Seq<u8>) -> Option<Classifier> {
    if name == "net_rx_action".spec_bytes() {
        Some(Classifier::Count(CountField::NetRxAction))
    } else if name == "__napi_poll".spec_bytes() {
        Some(Classifier::Count(CountField::NapiPoll))
    } else if name == "netif_receive_skb".spec_bytes() || name
        == "netif_receive_skb_core".spec_bytes() || name
        == "netif_receive_skb_list_internal".spec_bytes() || name
        == "__netif_receive_skb".spec_bytes() {
        Some(Classifier::ReceiveSkb)
    } else if name == "napi_gro_receive".spec_bytes() {
        Some(Classifier::GroReceive)
    } else if name == "do_xdp_generic".spec_bytes() {
        Some(Classifier::Count(CountField::DoXdpGeneric))
    } else if name == "tcf_classify".spec_bytes() {
        Some(Classifier::Count(CountField::TcfClassify))
    } else if name == "br_handle_frame".spec_bytes() {
        Some(Classifier::Bridge)
    } else if name == "ip_forward".spec_bytes() {
        Some(Classifier::Route(CountField::IpForward))
    } else if name == "ip6_forward".spec_bytes() {
        Some(Classifier::Route(CountField::Ip6Forward))
    } else if name == "ip_local_deliver".spec_bytes() {
        Some(Classifier::Route(CountField::IpLocalDeliver))
    } else if name == "ip6_input".spec_bytes() {
        Some(Classifier::Route(CountField::Ip6Input))
    } else if name == "nf_hook_slow".spec_bytes() {
        Some(Classifier::NfHook)
    } else if name == "ip_rcv".spec_bytes() {
        Some(Classifier::IpRcv)
    } else if name == "ip6_rcv".spec_bytes() {
        Some(Classifier::Ip6Rcv)
    } else if name == "ip_rcv_finish".spec_bytes() || name == "ip6_rcv_finish".spec_bytes() {
        Some(Classifier::RcvFinish)
    } else if name == "nf_conntrack_in".spec_bytes() {
        Some(Classifier::Count(CountField::NfConntrackIn))
    } else {
        None
    }
}

/// What the line `s[from..end]` says. A line with fewer than three fields is
/// refused before its address is looked at.
pub open spec fn parse_line(s: Seq<u8>, from: int, end: int) -> Result<Symbol, LineError> {
    let a0 = skip_seps(s, from, end);
    let a1 = skip_field(s, a0, end);
    let b0 = skip_seps(s, a1, end);
    let b1 = skip_field(s, b0, end);
    let c0 = skip_seps(s, b1, end);
    let c1 = skip_field(s, c0, end);
    if c0 == c1 {
        Err(LineError::MissingField)
    } else {
        match parse_address(s.subrange(a0, a1)) {
            Some(addr) => Ok(
                Symbol { addr, classifier: classifier_for(s.subrange(c0, c1)) },
            ),
            None => Err(LineError::InvalidAddress),
        }
    }
}

/// The symbols of the lines of `s` from offset `from` on, in the order of the
/// lines, or the error of the first line that is refused.
pub open spec fn parse_lines(s: Seq<u8>, from: int) -> Result<Seq<Symbol>, LoadError>
    decreases s.len() - from,
{
    if from < 0 || from >= s.len() {
        Ok(Seq::empty())
    } else {
        let end = line_end(s, from);
        if end < from {
            Ok(Seq::empty())
        } else {
            match parse_line(s, from, end) {
                Err(LineError::MissingField) => Err(
                    LoadError::MissingField { start: from as usize, end: end as usize },
                ),
                Err(LineError::InvalidAddress) => Err(
                    LoadError::InvalidAddress { start: from as usize, end: end as usize },
                ),
                Ok(sym) => if end >= s.len() {
                    Ok(seq![sym])
                } else {
                    match parse_lines(s, end + 1) {
                        Ok(rest) => Ok(seq![sym] + rest),
                        Err(e) => Err(e),
                    }
                },
            }
        }
    }
}

/// The digits of a number are digits, and a number is no smaller than what
/// any shorter run of its leading digits denotes.
proof fn lemma_hex_prefix(digits: Seq<u8>, k: int)
    requires
        1 <= k <= digits.len(),
        hex_value(digits) is Some,
    ensures
        hex_value(digits.take(k)) is Some,
        0 <= hex_value(digits.take(k))->0 <= hex_value(digits)->0,
    decreases digits.len(),
{
    if k == digits.len() {
        assert(digits.take(k) =~= digits);
        if digits.len() > 1 {
            lemma_hex_prefix(digits.drop_last(), k - 1);
            assert(digits.drop_last().take(k - 1) =~= digits.drop_last());
        }
    } else {
        lemma_hex_prefix(digits.drop_last(), k);
        assert(digits.drop_last().take(k) =~= digits.take(k));
    }
}

fn hex_digit_of(b: u8) -> (d: Option<u8>)
    ensures
        match d {
            Some(v) => hex_digit(b) == Some(v as int) && v < 16,
            None => hex_digit(b) is None,
        },
{
    if 0x30 <= b && b <= 0x39 {
        Some(b - 0x30)
    } else if 0x61 <= b && b <= 0x66 {
        Some(b - 0x61 + 10)
    } else if 0x41 <= b && b <= 0x46 {
        Some(b - 0x41 + 10)
    } else {
        None
    }
}

/// Reads the address that the field `text[from..to]` denotes.
fn address_in(text: &[u8], from: usize, to: usize) -> (addr: Option<u64>)
    requires
        from <= to <= text@.len(),
    ensures
        addr == parse_address(text@.subrange(from as int, to as int)),
{
    let ghost field = text@.subrange(from as int, to as int);
    let first: usize = if from < to && text[from] == 0x2b {
        from + 1
    } else {
        from
    };
    let ghost digits = text@.subrange(first as int, to as int);
    proof {
        if from < to && text@[from as int] == 0x2b {
            assert(field[0] == 0x2b);
            assert(field.skip(1) =~= digits);
        } else {
            assert(field =~= digits);
        }
    }
    if first == to {
        return None;
    }
    let mut value: u64 = 0;
    let mut i: usize = first;
    while i < to
        invariant
            first <= i <= to <= text@.len(),
            first < to,
            digits == text@.subrange(first as int, to as int),
            parse_address(text@.subrange(from as int, to as int)) == address_of_digits(digits),
            i > first ==> hex_value(digits.take(i - first)) == Some(value as int),
            i == first ==> value == 0,
        decreases to - i,
    {
        let ghost k = i - first;
        proof {
            assert(digits.take(k + 1).drop_last() =~= digits.take(k));
            assert(digits.take(k + 1).last() == text@[i as int]);
            assert(digits.take(k + 1).len() == k + 1);
        }
        match hex_digit_of(text[i]) {
            None => {
                proof {
                    assert(hex_value(digits.take(k + 1)) is None) by {
                        if k == 0 {
                            assert(digits.take(1)[0] == text@[i as int]);
                        }
                    }
                    if hex_value(digits) is Some {
                        lemma_hex_prefix(digits, k + 1);
                    }
                }
                return None;
            },
            Some(d) => {
                proof {
                    if k == 0 {
                        assert(digits.take(1)[0] == text@[i as int]);
                    }
                }
                if value > (u64::MAX - d as u64) / 16 {
                    proof {
                        assert(16 * value + d > u64::MAX);
                        assert(hex_value(digits.take(k + 1)) == Some(16 * value + d));
                        if hex_value(digits) is Some {
                            lemma_hex_prefix(digits, k + 1);
                        }
                    }
                    return None;
                }
                value = value * 16 + d as u64;
            },
        }
        i += 1;
    }
    proof {
        assert(digits.take(to - first) =~= digits);
    }
    Some(value)
}

/// Tells whether the field `text[from..to]` spells `name`.
fn field_is(text: &[u8], from: usize, to: usize, name: &str) -> (same: bool)
    requires
        from <= to <= text@.len(),
    ensures
        same == (text@.subrange(from as int, to as int) == name.spec_bytes()),
{
    let bytes = name.as_bytes();
    let ghost field = text@.subrange(from as int, to as int);
    if bytes.len() != to - from {
        return false;
    }
    let mut i: usize = 0;
    while i < bytes.len()
        invariant
            from <= to <= text@.len(),
            bytes@.len() == to - from,
            bytes@ == name.spec_bytes(),
            field == text@.subrange(from as int, to as int),
            i <= bytes@.len(),
            forall|j: int| 0 <= j < i ==> field[j] == bytes@[j],
        decreases bytes@.len() - i,
    {
        if text[from + i] != bytes[i] {
            proof {
                assert(field[i as int] != bytes@[i as int]);
            }
            return false;
        }
        i += 1;
    }
    proof {
        assert(field =~= bytes@);
    }
    true
}

/// The classifier installed for the symbol named by the field
/// `text[from..to]`, if the analysis recognises that name.
fn classifier_of_field(text: &[u8], from: usize, to: usize) -> (found: Option<Classifier>)
    requires
        from <= to <= text@.len(),
    ensures
        found == classifier_for(text@.subrange(from as int, to as int)),
{
    if field_is(text, from, to, "net_rx_action") {
        Some(Classifier::Count(CountField::NetRxAction))
    } else if field_is(text, from, to, "__napi_poll") {
        Some(Classifier::Count(CountField::NapiPoll))
    } else if field_is(text, from, to, "netif_receive_skb") || field_is(
        text,
        from,
        to,
        "netif_receive_skb_core",
    ) || field_is(text, from, to, "netif_receive_skb_list_internal") || field_is(
        text,
        from,
        to,
        "__netif_receive_skb",
    ) {
        Some(Classifier::ReceiveSkb)
    } else if field_is(text, from, to, "napi_gro_receive") {
        Some(Classifier::GroReceive)
    } else if field_is(text, from, to, "do_xdp_generic") {
        Some(Classifier::Count(CountField::DoXdpGeneric))
    } else if field_is(text, from, to, "tcf_classify") {
        Some(Classifier::Count(CountField::TcfClassify))
    } else if field_is(text, from, to, "br_handle_frame") {
        Some(Classifier::Bridge)
    } else if field_is(text, from, to, "ip_forward") {
        Some(Classifier::Route(CountField::IpForward))
    } else if field_is(text, from, to, "ip6_forward") {
        Some(Classifier::Route(CountField::Ip6Forward))
    } else if field_is(text, from, to, "ip_local_deliver") {
        Some(Classifier::Route(CountField::IpLocalDeliver))
    } else if field_is(text, from, to, "ip6_input") {
        Some(Classifier::Route(CountField::Ip6Input))
    } else if field_is(text, from, to, "nf_hook_slow") {
        Some(Classifier::NfHook)
    } else if field_is(text, from, to, "ip_rcv") {
        Some(Classifier::IpRcv)
    } else if field_is(text, from, to, "ip6_rcv") {
        Some(Classifier::Ip6Rcv)
    } else if field_is(text, from, to, "ip_rcv_finish") || field_is(
        text,
        from,
        to,
        "ip6_rcv_finish",
    ) {
        Some(Classifier::RcvFinish)
    } else if field_is(text, from, to, "nf_conntrack_in") {
        Some(Classifier::Count(CountField::NfConntrackIn))
    } else {
        None
    }
}

/// Reads the line `text[from..end]`.
fn line_in(text: &[u8], from: usize, end: usize) -> (parsed: Result<Symbol, LineError>)
    requires
        from <= end <= text@.len(),
    ensures
        parsed == parse_line(text@, from as int, end as int),
{
    let a0 = skip_seps_in(text, from, end);
    let a1 = skip_field_in(text, a0, end);
    let b0 = skip_seps_in(text, a1, end);
    let b1 = skip_field_in(text, b0, end);
    let c0 = skip_seps_in(text, b1, end);
    let c1 = skip_field_in(text, c0, end);
    if c0 == c1 {
        return Err(LineError::MissingField);
    }
    match address_in(text, a0, a1) {
        Some(addr) => Ok(Symbol { addr, classifier: classifier_of_field(text, c0, c1) }),
        None => Err(LineError::InvalidAddress),
    }
}

/// Reads a whole symbol listing.
///
/// Returns the symbols in the order of their lines. The first line that has
/// fewer than three fields, or whose address is no 64-bit hexadecimal number,
/// makes the whole listing fail, with the byte range of that line.
pub fn parse_symbols(text: &[u8]) -> (parsed: Result<Vec<Symbol>, LoadError>)
    ensures
        match parsed {
            Ok(symbols) => parse_lines(text@, 0) == Ok::<Seq<Symbol>, LoadError>(symbols@),
            Err(e) => parse_lines(text@, 0) == Err::<Seq<Symbol>, LoadError>(e),
        },
{
    let mut symbols: Vec<Symbol> = Vec::new();
    let mut pos: usize = 0;
    while pos < text.len()
        invariant
            pos <= text@.len(),
            parse_lines(text@, 0) == match parse_lines(text@, pos as int) {
                Ok(rest) => Ok::<Seq<Symbol>, LoadError>(symbols@ + rest),
                Err(e) => Err(e),
            },
        decreases text@.len() - pos,
    {
        let end = line_end_in(text, pos);
        let ghost before = symbols@;
        match line_in(text, pos, end) {
            Err(LineError::MissingField) => {
                return Err(LoadError::MissingField { start: pos, end });
            },
            Err(LineError::InvalidAddress) => {
                return Err(LoadError::InvalidAddress { start: pos, end });
            },
            Ok(sym) => {
                symbols.push(sym);
                proof {
                    if end < text@.len() {
                        match parse_lines(text@, end + 1) {
                            Ok(rest) => {
                                assert(before + (seq![sym] + rest) =~= symbols@ + rest);
                            },
                            Err(e) => {},
                        }
                    } else {
                        assert(before + seq![sym] =~= symbols@ + Seq::<Symbol>::empty());
                    }
                }
                if end >= text.len() {
                    pos = end;
                } else {
                    pos = end + 1;
                }
            },
        }
    }
    proof {
        assert(symbols@ + Seq::<Symbol>::empty() =~= symbols@);
    }
    Ok(symbols)
}

} // verus!
