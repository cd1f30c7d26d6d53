//! The layout of the log file: a header with the period of the analysis,
//! then one record for each published snapshot.

use vstd::prelude::*;
use vstd::bytes::{spec_u32_to_le_bytes, spec_u64_to_le_bytes, u32_to_le_bytes, u64_to_le_bytes};

verus! {

/// The header of a log file: the period in milliseconds as eight bytes,
/// least significant first.
pub open spec fn header_bytes(user_period_ms: u64) -> Seq<u8> {
    spec_u64_to_le_bytes(user_period_ms)
}

/// One record of a log file: the length of the snapshot as four bytes, least
/// significant first, then the snapshot.
pub open spec fn record_bytes(snapshot: Seq<u8>) -> Seq<u8> {
    spec_u32_to_le_bytes(snapshot.len() as u32) + snapshot
}

/// Builds the header of a log file.
pub fn encode_header(user_period_ms: u64) -> (bytes: Vec<u8>)
    ensures
        bytes@ == header_bytes(user_period_ms),
        bytes@.len() == 8,
{
    u64_to_le_bytes(user_period_ms)
}

/// Builds the record for one snapshot, or `None` for a snapshot whose length
/// does not fit 32 bits.
pub fn encode_record(snapshot: &[u8]) -> (bytes: Option<Vec<u8>>)
    ensures
        match bytes {
            Some(bytes) => snapshot@.len() <= u32::MAX && bytes@ == record_bytes(snapshot@)
                && bytes@.len() == snapshot@.len() + 4,
            None => snapshot@.len() > u32::MAX,
        },
{
    let len = snapshot.len();
    if len > u32::MAX as usize {
        return None;
    }
    let mut bytes = u32_to_le_bytes(len as u32);
    let ghost prefix = bytes@;
    let mut i: usize = 0;
    while i < len
        invariant
            i <= len,
            len == snapshot@.len(),
            bytes@ == prefix + snapshot@.take(i as int),
        decreases len - i,
    {
        bytes.push(snapshot[i]);
        proof {
            assert(bytes@ =~= prefix + snapshot@.take(i + 1));
        }
        i += 1;
    }
    proof {
        assert(snapshot@.take(len as int) =~= snapshot@);
    }
    Some(bytes)
}

} // verus!
