//! How many records the store of stack traces must hold.

use vstd::prelude::*;

verus! {

/// The number of records that the store is laid out for: twice the number of
/// samples that all CPUs take in one period at the given frequency, with a
/// tenth on top, rounded up.
pub open spec fn max_entries(frequency: u64, num_cpus: usize, period_ms: u64) -> int {
    (frequency * num_cpus * period_ms * 11 + 9_999) / 10_000 * 2
}

/// Half the store holds what is expected in one period and a tenth more:
/// ten times the records of one slot are at least eleven times the samples
/// of one period.
pub proof fn lemma_slot_has_headroom(frequency: u64, num_cpus: usize, period_ms: u64)
    ensures
        (max_entries(frequency, num_cpus, period_ms) / 2) * 10 * 1_000 >= 11 * (frequency
            * num_cpus * period_ms),
        max_entries(frequency, num_cpus, period_ms) % 2 == 0,
{
    let x = frequency * num_cpus * period_ms * 11;
    assert(frequency * num_cpus * period_ms * 11 == 11 * (frequency * num_cpus * period_ms))
        by (nonlinear_arith);
    assert(0 <= frequency * num_cpus * period_ms) by (nonlinear_arith)
        requires
            0 <= frequency,
            0 <= num_cpus,
            0 <= period_ms,
    ;
    let q = (x + 9_999) / 10_000;
    assert(q * 10_000 >= x);
    assert(q * 2 / 2 == q);
}

/// Computes the number of records that the store is laid out for, or `None`
/// when that number does not fit 32 bits.
pub fn stack_traces_max_entries(frequency: u64, num_cpus: usize, period_ms: u64) -> (n: Option<
    u32,
>)
    ensures
        match n {
            Some(n) => n == max_entries(frequency, num_cpus, period_ms),
            None => max_entries(frequency, num_cpus, period_ms) > u32::MAX,
        },
{
    let limit: u128 = 0x1_0000_0000_0000;
    if frequency == 0 || num_cpus == 0 || period_ms == 0 {
        proof {
            assert(frequency * num_cpus * period_ms * 11 == 0) by (nonlinear_arith)
                requires
                    frequency == 0 || num_cpus == 0 || period_ms == 0,
            ;
        }
        return Some(0);
    }
    let f: u128 = frequency as u128;
    let c: u128 = num_cpus as u128;
    let p: u128 = period_ms as u128;
    proof {
        assert(f * c * p >= f && f * c * p >= c && f * c * p >= p && f * c * p >= f * c)
            by (nonlinear_arith)
            requires
                f >= 1,
                c >= 1,
                p >= 1,
        ;
    }
    if f > limit || c > limit || p > limit {
        return None;
    }
    proof {
        assert(f * c <= 0x1_0000_0000_0000 * 0x1_0000_0000_0000) by (nonlinear_arith)
            requires
                f <= 0x1_0000_0000_0000,
                c <= 0x1_0000_0000_0000,
        ;
    }
    let fc: u128 = f * c;
    if fc > limit {
        return None;
    }
    proof {
        assert(fc * p <= 0x1_0000_0000_0000 * 0x1_0000_0000_0000) by (nonlinear_arith)
            requires
                fc <= 0x1_0000_0000_0000,
                p <= 0x1_0000_0000_0000,
        ;
    }
    let samples: u128 = fc * p;
    if samples > limit {
        return None;
    }
    let n: u128 = (samples * 11 + 9_999) / 10_000 * 2;
    if n > u32::MAX as u128 {
        None
    } else {
        Some(n as u32)
    }
}

} // verus!
