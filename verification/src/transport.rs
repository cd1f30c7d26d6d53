//! The double-buffered store of stack-trace records.
//!
//! The store holds two slots of `capacity` records each. Writers fill the
//! active slot and drop what does not fit; the single reader swaps the slots,
//! reads the one it has just retired, and zeroes its counter.

use vstd::prelude::*;

verus! {

/// Number of 64-bit words in one record: a header and up to 127 frames.
pub const RECORD_WORDS: usize = 128;

/// Greatest number of frames that one record holds.
pub const MAX_FRAMES: usize = 127;

/// The CPU that a record was captured on: the low 32 bits of its header.
pub open spec fn header_cpu(word: u64) -> int {
    word as int % 0x1_0000_0000
}

/// The number of frames of a record: the header holds the length of the
/// stack in bytes from bit 32 on, and a frame takes eight bytes.
pub open spec fn header_frames(word: u64) -> int {
    word as int / 0x8_0000_0000
}

/// The header of a record of `frames` frames captured on `cpu`.
pub open spec fn header_of(cpu: u32, frames: int) -> int {
    frames * 8 * 0x1_0000_0000 + cpu
}

/// Takes a record header apart into the number of frames and the CPU.
pub fn unpack_header(word: u64) -> (parts: (u64, u32))
    ensures
        parts.0 == header_frames(word),
        parts.1 == header_cpu(word),
{
    let frames: u64 = word >> 35;
    let cpu: u64 = word & 0xFFFF_FFFF;
    proof {
        assert(word >> 35 == word / 0x8_0000_0000) by (bit_vector);
        assert(word & 0xFFFF_FFFF == word % 0x1_0000_0000) by (bit_vector);
        assert(word & 0xFFFF_FFFF <= 0xFFFF_FFFF) by (bit_vector);
    }
    (frames, cpu as u32)
}

/// Builds the header of a record of `frames` frames captured on `cpu`.
pub fn pack_header(cpu: u32, frames: usize) -> (word: u64)
    requires
        frames <= MAX_FRAMES,
    ensures
        word == header_of(cpu, frames as int),
        header_cpu(word) == cpu,
        header_frames(word) == frames,
{
    let bytes: u64 = (frames as u64) * 8;
    let c: u64 = cpu as u64;
    let word: u64 = (bytes << 32) | c;
    proof {
        assert(bytes <= 1016 && c <= 0xFFFF_FFFF ==> ((bytes << 32) | c) == bytes * 0x1_0000_0000
            + c) by (bit_vector);
        assert(word == frames * 8 * 0x1_0000_0000 + cpu) by (nonlinear_arith)
            requires
                word == bytes * 0x1_0000_0000 + c,
                bytes == frames * 8,
                c == cpu,
        ;
    }
    word
}

/// The record that a writer stores for a stack captured on `cpu`: the header,
/// the first 127 frames of the stack, and zeros up to the end of the record.
pub open spec fn record_of(cpu: u32, frames: Seq<u64>) -> Seq<u64> {
    let n = if frames.len() <= MAX_FRAMES {
        frames.len() as int
    } else {
        MAX_FRAMES as int
    };
    Seq::new(
        RECORD_WORDS as nat,
        |i: int|
            if i == 0 {
                header_of(cpu, n) as u64
            } else if i <= n {
                frames[i - 1]
            } else {
                0u64
            },
    )
}

/// The slot offset that becomes active when `offset` is retired.
pub open spec fn other_offset(offset: usize, capacity: usize) -> usize {
    if offset > 0 {
        0
    } else {
        capacity
    }
}

/// The slot offset that the reader makes active when it retires `offset`.
pub fn next_slot_offset(offset: usize, capacity: usize) -> (next: usize)
    ensures
        next == other_offset(offset, capacity),
{
    if offset > 0 {
        0
    } else {
        capacity
    }
}

/// The store as contracts see it.
pub struct TraceBufferView {
    /// All record words, slot 0 first.
    pub words: Seq<u64>,
    /// Records per slot.
    pub capacity: usize,
    /// Offset, in records, of the slot that writers fill: 0 or `capacity`.
    pub active_slot_offset: usize,
    /// Valid records in the slot at offset 0.
    pub count_slot_0: usize,
    /// Valid records in the slot at offset `capacity`.
    pub count_slot_1: usize,
}

impl TraceBufferView {
    /// Number of valid records in the slot at `offset`.
    pub open spec fn count_at(self, offset: usize) -> usize {
        if offset > 0 {
            self.count_slot_1
        } else {
            self.count_slot_0
        }
    }

    /// The record at index `index`, counted from the start of slot 0.
    pub open spec fn record(self, index: int) -> Seq<u64> {
        self.words.subrange(index * RECORD_WORDS as int, (index + 1) * RECORD_WORDS as int)
    }

    /// The `count` records from index `first` on, one after the other.
    pub open spec fn records(self, first: int, count: int) -> Seq<u64> {
        self.words.subrange(first * RECORD_WORDS as int, (first + count) * RECORD_WORDS as int)
    }

    /// The valid records of the slot that writers fill.
    pub open spec fn active_records(self) -> Seq<u64> {
        self.records(
            self.active_slot_offset as int,
            self.count_at(self.active_slot_offset) as int,
        )
    }

    /// The store after its active slot was retired and drained: the other
    /// slot is active, and the counter of the retired slot is zero.
    pub open spec fn after_drain(self) -> TraceBufferView {
        if self.active_slot_offset > 0 {
            TraceBufferView { active_slot_offset: 0, count_slot_1: 0, ..self }
        } else {
            TraceBufferView { active_slot_offset: self.capacity, count_slot_0: 0, ..self }
        }
    }

    /// The slot that is not being written holds no valid record: the state
    /// between two drains.
    pub open spec fn is_quiescent(self) -> bool {
        self.count_at(other_offset(self.active_slot_offset, self.capacity)) == 0
    }

    /// Offsets, counters and size fit together.
    pub open spec fn wf(self) -> bool {
        &&& self.words.len() == 2 * self.capacity * RECORD_WORDS
        &&& 2 * self.capacity * RECORD_WORDS <= usize::MAX
        &&& (self.active_slot_offset == 0 || self.active_slot_offset == self.capacity)
        &&& self.count_slot_0 <= self.capacity
        &&& self.count_slot_1 <= self.capacity
    }
}

/// After a drain of a store at rest, both counters are zero, and the store
/// is at rest again.
pub proof fn lemma_drain_leaves_counters_zero(v: TraceBufferView)
    requires
        v.wf(),
        v.is_quiescent(),
    ensures
        v.after_drain().wf(),
        v.after_drain().count_slot_0 == 0,
        v.after_drain().count_slot_1 == 0,
        v.after_drain().is_quiescent(),
{
}

/// A double-buffered store of stack-trace records.
pub struct TraceBuffer {
    words: Vec<u64>,
    capacity: usize,
    active_slot_offset: usize,
    count_slot_0: usize,
    count_slot_1: usize,
}

impl View for TraceBuffer {
    type V = TraceBufferView;

    closed spec fn view(&self) -> TraceBufferView {
        TraceBufferView {
            words: self.words@,
            capacity: self.capacity,
            active_slot_offset: self.active_slot_offset,
            count_slot_0: self.count_slot_0,
            count_slot_1: self.count_slot_1,
        }
    }
}

impl TraceBuffer {
    /// An empty store of two slots of `capacity` records, all words zero,
    /// with the slot at offset 0 active.
    pub fn new(capacity: usize) -> (buf: TraceBuffer)
        requires
            2 * capacity * RECORD_WORDS <= usize::MAX,
        ensures
            buf@.wf(),
            buf@.capacity == capacity,
            buf@.active_slot_offset == 0,
            buf@.count_slot_0 == 0,
            buf@.count_slot_1 == 0,
            buf@.words == Seq::new((2 * capacity * RECORD_WORDS) as nat, |i: int| 0u64),
    {
        let total: usize = 2 * capacity * RECORD_WORDS;
        let mut words: Vec<u64> = Vec::new();
        while words.len() < total
            invariant
                words@.len() <= total,
                forall|i: int| 0 <= i < words@.len() ==> words@[i] == 0,
            decreases total - words@.len(),
        {
            words.push(0);
        }
        proof {
            assert(words@ =~= Seq::new(total as nat, |i: int| 0u64));
        }
        TraceBuffer { words, capacity, active_slot_offset: 0, count_slot_0: 0, count_slot_1: 0 }
    }

    /// Records per slot.
    pub fn capacity(&self) -> (n: usize)
        ensures
            n == self@.capacity,
    {
        self.capacity
    }

    /// Offset of the slot that writers fill.
    pub fn active_slot_offset(&self) -> (offset: usize)
        ensures
            offset == self@.active_slot_offset,
    {
        self.active_slot_offset
    }

    /// Number of valid records in the slot at `offset`.
    pub fn count_at(&self, offset: usize) -> (count: usize)
        ensures
            count == self@.count_at(offset),
    {
        if offset > 0 {
            self.count_slot_1
        } else {
            self.count_slot_0
        }
    }

    /// Stores the stack `frames` captured on `cpu` in the active slot, or
    /// drops it when the slot is full. Never waits. Returns whether the stack
    /// was stored.
    pub fn write(&mut self, cpu: u32, frames: &[u64]) -> (stored: bool)
        requires
            old(self)@.wf(),
        ensures
            final(self)@.wf(),
            old(self)@.is_quiescent() ==> final(self)@.is_quiescent(),
            stored == (old(self)@.count_at(old(self)@.active_slot_offset) < old(self)@.capacity),
            !stored ==> final(self)@ == old(self)@,
            stored ==> {
                let at = old(self)@.active_slot_offset + old(self)@.count_at(
                    old(self)@.active_slot_offset,
                );
                &&& final(self)@.capacity == old(self)@.capacity
                &&& final(self)@.active_slot_offset == old(self)@.active_slot_offset
                &&& final(self)@.count_at(old(self)@.active_slot_offset) == old(self)@.count_at(
                    old(self)@.active_slot_offset,
                ) + 1
                &&& final(self)@.count_at(
                    other_offset(old(self)@.active_slot_offset, old(self)@.capacity),
                ) == old(self)@.count_at(
                    other_offset(old(self)@.active_slot_offset, old(self)@.capacity),
                )
                &&& final(self)@.record(at) == record_of(cpu, frames@)
                &&& forall|k: int|
                    0 <= k < 2 * old(self)@.capacity && k != at ==> #[trigger] final(self)@.record(
                        k,
                    ) == old(self)@.record(k)
            },
    {
        let count = self.count_at(self.active_slot_offset);
        if count >= self.capacity {
            return false;
        }
        let total = self.words.len();
        proof {
            assert(total == 2 * self.capacity * 128);
            assert(self.active_slot_offset + count < 2 * self.capacity);
        }
        let at: usize = self.active_slot_offset + count;
        let base: usize = at * RECORD_WORDS;
        let n: usize = if frames.len() <= MAX_FRAMES {
            frames.len()
        } else {
            MAX_FRAMES
        };
        let ghost before = self.words@;
        let ghost rec = record_of(cpu, frames@);
        self.words.set(base, pack_header(cpu, n));
        let mut i: usize = 1;
        while i < RECORD_WORDS
            invariant
                1 <= i <= RECORD_WORDS,
                n <= MAX_FRAMES,
                n <= frames@.len(),
                n == frames@.len() || (n == MAX_FRAMES && frames@.len() > MAX_FRAMES),
                base + RECORD_WORDS <= self.words@.len() <= usize::MAX,
                self.words@.len() == before.len(),
                rec == record_of(cpu, frames@),
                forall|j: int| 0 <= j < i ==> self.words@[base + j] == rec[j],
                forall|j: int|
                    0 <= j < before.len() && !(base <= j < base + RECORD_WORDS) ==> self.words@[j]
                        == before[j],
                self.capacity == old(self).capacity,
                self.active_slot_offset == old(self).active_slot_offset,
                self.count_slot_0 == old(self).count_slot_0,
                self.count_slot_1 == old(self).count_slot_1,
            decreases RECORD_WORDS - i,
        {
            let word: u64 = if i <= n {
                frames[i - 1]
            } else {
                0
            };
            proof {
                assert(MAX_FRAMES == 127 && RECORD_WORDS == 128);
                assert(rec.len() == 128);
                assert(rec[i as int] == word);
            }
            self.words.set(base + i, word);
            i += 1;
        }
        if self.active_slot_offset > 0 {
            self.count_slot_1 = count + 1;
        } else {
            self.count_slot_0 = count + 1;
        }
        proof {
            assert(self@.record(at as int) =~= rec);
            assert forall|k: int| 0 <= k < 2 * old(self)@.capacity && k != at implies #[trigger] self@.record(
                k,
            ) == old(self)@.record(k) by {
                assert(self@.record(k) =~= old(self)@.record(k));
            }
        }
        true
    }

    /// Makes the other slot the active one and returns the offset of the slot
    /// that was retired with the number of valid records in it.
    pub fn swap_and_count(&mut self) -> (retired: (usize, usize))
        requires
            old(self)@.wf(),
        ensures
            final(self)@.wf(),
            retired.0 == old(self)@.active_slot_offset,
            retired.1 == old(self)@.count_at(retired.0),
            retired.1 <= old(self)@.capacity,
            final(self)@ == (TraceBufferView {
                active_slot_offset: other_offset(
                    old(self)@.active_slot_offset,
                    old(self)@.capacity,
                ),
                ..old(self)@
            }),
    {
        let offset = self.active_slot_offset;
        self.active_slot_offset = next_slot_offset(offset, self.capacity);
        let count = self.count_at(offset);
        (offset, count)
    }

    /// The record at index `index`, counted from the start of slot 0.
    pub fn record(&self, index: usize) -> (record: &[u64])
        requires
            self@.wf(),
            index < 2 * self@.capacity,
        ensures
            record@ == self@.record(index as int),
            record@.len() == RECORD_WORDS,
    {
        let total = self.words.len();
        proof {
            assert(total == 2 * self.capacity * 128);
        }
        let from: usize = index * RECORD_WORDS;
        let slice = self.words.as_slice();
        let record = vstd::slice::slice_subrange(slice, from, from + RECORD_WORDS);
        record
    }

    /// The `count` records from index `first` on, one after the other.
    pub fn records(&self, first: usize, count: usize) -> (words: &[u64])
        requires
            self@.wf(),
            first + count <= 2 * self@.capacity,
        ensures
            words@ == self@.records(first as int, count as int),
            words@.len() == count * RECORD_WORDS,
    {
        let total = self.words.len();
        proof {
            assert(total == 2 * self.capacity * 128);
        }
        let from: usize = first * RECORD_WORDS;
        let to: usize = (first + count) * RECORD_WORDS;
        vstd::slice::slice_subrange(self.words.as_slice(), from, to)
    }

    /// Zeroes the counter of the slot at `offset`.
    pub fn reset_count(&mut self, offset: usize)
        requires
            old(self)@.wf(),
        ensures
            final(self)@.wf(),
            final(self)@ == if offset > 0 {
                TraceBufferView { count_slot_1: 0, ..old(self)@ }
            } else {
                TraceBufferView { count_slot_0: 0, ..old(self)@ }
            },
    {
        if offset > 0 {
            self.count_slot_1 = 0;
        } else {
            self.count_slot_0 = 0;
        }
    }
}

} // verus!
