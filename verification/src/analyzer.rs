//! The periodic analysis: one round turns the records of the retired slot,
//! the cumulative times of the events and the readings of the energy meter
//! and of the kernel's CPU accounting into the updates that are published.

use vstd::prelude::*;
use vstd::slice::slice_subrange;
use vstd::string::StringSliceAdditionalSpecFns;
use crate::breakdown::{cpu_updates, lemma_cpu_updates_shape, push_cpu_updates, UPDATES_PER_CPU};
use crate::counts::Counts;
use crate::events::{delta, EventTimes};
use crate::classifier::{lemma_presence_fields, CountField};
use crate::ksyms::{lemma_trace_counts_is_presence, trace_counts, KSyms, KSymsVal};
use crate::collector::{updates_view, MetricUpdate, MetricUpdateView, SubmitUpdate};
use crate::metrics::{NetPower, Ratio};
use crate::procstat::{parse_proc_stat, proc_stat_ticks, PROCFS_METRICS};
use crate::transport::{
    header_cpu, header_frames, other_offset, unpack_header, TraceBuffer, TraceBufferView,
    MAX_FRAMES, RECORD_WORDS,
};

verus! {

/// Greatest number of CPUs that an analyzer can serve: a record names its
/// CPU in 32 bits.
pub const MAX_CPUS: usize = 0xffff_ffff;

/// Nanoseconds per second.
pub const NANOS_PER_SEC: i128 = 1_000_000_000;

/// Why a round was given up. Nothing has changed when a round fails.
#[derive(Clone, Copy, Debug, PartialEq, Eq, Structural)]
pub enum TickError {
    /// The cumulative times of the events could not be had.
    MissingPerCpuData,
    /// A tick count of the kernel's CPU accounting is no integer.
    InvalidProcStat,
}

/// The state of an analyzer as contracts see it.
pub struct TraceAnalyzerView {
    /// Events seen in the stacks of the current round, for each CPU.
    pub counts: Seq<Counts>,
    /// The recognised kernel symbols.
    pub ksyms: Seq<KSymsVal>,
    /// Ticks per second of the kernel's CPU accounting.
    pub ticks_per_second: u64,
    /// Tick counts of the kernel's CPU accounting at the previous round.
    pub procfs_metrics_old: Seq<i64>,
    /// Time of the previous round, in nanoseconds of a monotonic clock.
    pub prev_update_ts: u64,
    /// Cumulative times of the events at the previous round, for each CPU.
    pub prev_total_times: Seq<EventTimes>,
    /// Reading of the energy meter at the previous round, in microjoules.
    pub prev_total_energy: u64,
}

impl TraceAnalyzerView {
    /// Number of CPUs that the analyzer serves.
    pub open spec fn num_cpus(self) -> int {
        self.counts.len() as int
    }

    /// The per-CPU state covers the same CPUs throughout, and there is a
    /// previous count for each tick count that is read.
    pub open spec fn wf(self) -> bool {
        &&& self.counts.len() == self.prev_total_times.len()
        &&& self.counts.len() <= MAX_CPUS
        &&& self.procfs_metrics_old.len() == PROCFS_METRICS
    }
}

/// The number of frames that are walked of a record with header `word`.
pub open spec fn record_frames(word: u64) -> int {
    if header_frames(word) <= MAX_FRAMES {
        header_frames(word)
    } else {
        MAX_FRAMES as int
    }
}

/// The per-CPU counts after the events of `record` were added to those of
/// the CPU that its header names. A record for a CPU that is not served is
/// dropped.
pub open spec fn with_record(counts: Seq<Counts>, entries: Seq<KSymsVal>, record: Seq<u64>) -> Seq<
    Counts,
> {
    if record.len() > 0 && header_cpu(record[0]) < counts.len() {
        let cpu = header_cpu(record[0]);
        counts.update(
            cpu,
            counts[cpu].plus(trace_counts(entries, record.skip(1), record_frames(record[0]))),
        )
    } else {
        counts
    }
}

/// The per-CPU counts after the first `n` records of `words` were added.
pub open spec fn drained(counts: Seq<Counts>, entries: Seq<KSymsVal>, words: Seq<u64>, n: int)
    -> Seq<Counts>
    decreases n,
{
    if n <= 0 {
        counts
    } else {
        with_record(
            drained(counts, entries, words, n - 1),
            entries,
            words.subrange((n - 1) * RECORD_WORDS as int, n * RECORD_WORDS as int),
        )
    }
}

/// `n` records of all-zero counts.
pub open spec fn zero_counts(n: nat) -> Seq<Counts> {
    Seq::new(n, |i: int| Counts::zero())
}

/// The cumulative times kept for the next round: those just read, for the
/// CPUs that were read.
pub open spec fn next_times(prev: Seq<EventTimes>, stats: Seq<EventTimes>) -> Seq<EventTimes> {
    Seq::new(
        prev.len(),
        |i: int|
            if i < stats.len() {
                stats[i]
            } else {
                prev[i]
            },
    )
}

/// The time that the first `m` CPUs spent in all events together since the
/// previous round.
pub open spec fn busy_ns(stats: Seq<EventTimes>, prev: Seq<EventTimes>, m: int) -> int
    decreases m,
{
    if m <= 0 {
        0
    } else {
        busy_ns(stats, prev, m - 1) + stats[m - 1].since(prev[m - 1]).total()
    }
}

/// The updates of one round for the first `m` CPUs, CPU by CPU.
pub open spec fn all_updates(
    stats: Seq<EventTimes>,
    prev: Seq<EventTimes>,
    delta_t: u64,
    counts: Seq<Counts>,
    m: int,
) -> Seq<MetricUpdateView>
    decreases m,
{
    if m <= 0 {
        Seq::empty()
    } else {
        all_updates(stats, prev, delta_t, counts, m - 1) + cpu_updates(
            (m - 1) as usize,
            stats[m - 1].since(prev[m - 1]),
            delta_t,
            counts[m - 1],
        )
    }
}

/// The smaller of two lengths.
pub open spec fn min_len(a: int, b: int) -> int {
    if a <= b {
        a
    } else {
        b
    }
}

/// The tick counts kept for the next round: those just read, as far as they
/// go.
pub open spec fn next_ticks(old_ticks: Seq<i64>, ticks: Seq<i64>) -> Seq<i64> {
    Seq::new(
        old_ticks.len(),
        |i: int|
            if i < ticks.len() {
                ticks[i]
            } else {
                old_ticks[i]
            },
    )
}

/// The share of all CPU time that a tick count gained: ticks gained over
/// ticks per second times seconds passed.
pub open spec fn procfs_ratio(old_tick: i64, tick: i64, ticks_per_second: u64, delta_t: u64)
    -> Ratio {
    Ratio {
        num: ((tick - old_tick) * NANOS_PER_SEC) as i128,
        den: (ticks_per_second * delta_t) as u128,
    }
}

/// The shares of all the tick counts that were read.
pub open spec fn procfs_ratios(
    old_ticks: Seq<i64>,
    ticks: Seq<i64>,
    ticks_per_second: u64,
    delta_t: u64,
) -> Seq<Ratio> {
    Seq::new(
        min_len(old_ticks.len() as int, ticks.len() as int) as nat,
        |i: int| procfs_ratio(old_ticks[i], ticks[i], ticks_per_second, delta_t),
    )
}

/// The power drawn by networking: the power of all sockets, from the energy
/// gained in microjoules over the nanoseconds passed, and the share of the
/// time of all CPUs that went into networking.
pub open spec fn net_power(delta_e: u64, busy: int, delta_t: u64, num_cpus: int) -> NetPower {
    NetPower {
        socket_power_w: Ratio { num: (delta_e * 1000) as i128, den: delta_t as u128 },
        net_fraction: Ratio { num: busy as i128, den: (delta_t * num_cpus) as u128 },
    }
}

/// The readings of the energy meters of all sockets added up.
pub open spec fn energy_sum(readings: Seq<u64>) -> int
    decreases readings.len(),
{
    if readings.len() == 0 {
        0
    } else {
        energy_sum(readings.drop_last()) + readings.last()
    }
}

/// Adds up the readings of the energy meters of all sockets, in
/// microjoules. A sum that does not fit 64 bits is given as the largest
/// value that does.
pub fn total_energy(readings: &[u64]) -> (total: u64)
    ensures
        total == if energy_sum(readings@) <= u64::MAX {
            energy_sum(readings@)
        } else {
            u64::MAX as int
        },
{
    let mut total: u64 = 0;
    let mut i: usize = 0;
    proof {
        assert(readings@.take(0) =~= Seq::<u64>::empty());
    }
    while i < readings.len()
        invariant
            i <= readings@.len(),
            0 <= energy_sum(readings@.take(i as int)),
            total == if energy_sum(readings@.take(i as int)) <= u64::MAX {
                energy_sum(readings@.take(i as int))
            } else {
                u64::MAX as int
            },
        decreases readings@.len() - i,
    {
        proof {
            assert(readings@.take(i + 1).drop_last() =~= readings@.take(i as int));
            assert(readings@.take(i + 1).last() == readings@[i as int]);
        }
        total = total.saturating_add(readings[i]);
        i += 1;
    }
    proof {
        assert(readings@.take(i as int) =~= readings@);
    }
    total
}

/// What a round hands out, as contracts see it.
pub struct TickView {
    pub updates: Seq<MetricUpdateView>,
    pub net_power_w: Option<NetPower>,
    pub procfs_metrics: Seq<Ratio>,
    pub delta_time_ns: u64,
}

/// What a round hands out.
#[derive(Debug)]
pub struct Tick {
    /// The updates of the round, CPU by CPU.
    pub updates: Vec<MetricUpdate>,
    /// Power drawn by networking; `None` without a reading of the energy
    /// meter.
    pub net_power_w: Option<NetPower>,
    /// Shares of the tick counts of the kernel's CPU accounting.
    pub procfs_metrics: Vec<Ratio>,
    /// Nanoseconds since the previous round.
    pub delta_time_ns: u64,
}

impl View for Tick {
    type V = TickView;

    open spec fn view(&self) -> TickView {
        TickView {
            updates: updates_view(self.updates@),
            net_power_w: self.net_power_w,
            procfs_metrics: self.procfs_metrics@,
            delta_time_ns: self.delta_time_ns,
        }
    }
}

impl Tick {
    /// Closes the round: the figures that go out with the request to
    /// publish, with the share of the time since the previous round that the
    /// analysis itself took.
    pub fn submit(self, elapsed_ns: u64) -> (msg: SubmitUpdate)
        ensures
            msg.net_power_w == self.net_power_w,
            msg.user_space_overhead == (Ratio {
                num: elapsed_ns as i128,
                den: self.delta_time_ns as u128,
            }),
            msg.procfs_metrics == self.procfs_metrics,
    {
        SubmitUpdate {
            net_power_w: self.net_power_w,
            user_space_overhead: Ratio {
                num: elapsed_ns as i128,
                den: self.delta_time_ns as u128,
            },
            procfs_metrics: self.procfs_metrics,
        }
    }
}

/// What is wrong with the input of a round, if anything: missing times of
/// the events come before unreadable tick counts.
pub open spec fn tick_error(per_cpu: Option<Seq<EventTimes>>, proc_stat: Seq<u8>) -> Option<
    TickError,
> {
    if per_cpu is None {
        Some(TickError::MissingPerCpuData)
    } else if proc_stat_ticks(proc_stat) is None {
        Some(TickError::InvalidProcStat)
    } else {
        None
    }
}

/// The state after a round that did not fail.
pub open spec fn state_after_tick(
    before: TraceAnalyzerView,
    now_ns: u64,
    energy_uj: Option<u64>,
    records: Seq<u64>,
    stats: Seq<EventTimes>,
    ticks: Seq<i64>,
) -> TraceAnalyzerView {
    TraceAnalyzerView {
        counts: drained(
            zero_counts(before.counts.len()),
            before.ksyms,
            records,
            records.len() as int / RECORD_WORDS as int,
        ),
        ksyms: before.ksyms,
        ticks_per_second: before.ticks_per_second,
        procfs_metrics_old: next_ticks(before.procfs_metrics_old, ticks),
        prev_update_ts: now_ns,
        prev_total_times: next_times(before.prev_total_times, stats),
        prev_total_energy: match energy_uj {
            Some(e) => e,
            None => before.prev_total_energy,
        },
    }
}

/// What a round that did not fail hands out.
pub open spec fn tick_of(
    before: TraceAnalyzerView,
    now_ns: u64,
    energy_uj: Option<u64>,
    records: Seq<u64>,
    stats: Seq<EventTimes>,
    ticks: Seq<i64>,
) -> TickView {
    let delta_t = delta(now_ns, before.prev_update_ts);
    let m = min_len(stats.len() as int, before.num_cpus());
    let counts = state_after_tick(before, now_ns, energy_uj, records, stats, ticks).counts;
    TickView {
        updates: all_updates(stats, before.prev_total_times, delta_t, counts, m),
        net_power_w: match energy_uj {
            Some(e) => Some(
                net_power(
                    delta(e, before.prev_total_energy),
                    busy_ns(stats, before.prev_total_times, m),
                    delta_t,
                    before.num_cpus(),
                ),
            ),
            None => None,
        },
        procfs_metrics: procfs_ratios(
            before.procfs_metrics_old,
            ticks,
            before.ticks_per_second,
            delta_t,
        ),
        delta_time_ns: delta_t,
    }
}

/// In one round every served CPU that was read gets eighteen updates, and
/// they stand CPU by CPU: the update at place `k` of those for `cpu` stands
/// at place `cpu * 18 + k` of all.
pub proof fn lemma_all_updates_at(
    stats: Seq<EventTimes>,
    prev: Seq<EventTimes>,
    delta_t: u64,
    counts: Seq<Counts>,
    m: int,
    cpu: int,
    k: int,
)
    requires
        0 <= cpu < m <= usize::MAX,
        0 <= k < UPDATES_PER_CPU,
    ensures
        all_updates(stats, prev, delta_t, counts, m).len() == m * UPDATES_PER_CPU,
        all_updates(stats, prev, delta_t, counts, m)[cpu * UPDATES_PER_CPU + k] == cpu_updates(
            cpu as usize,
            stats[cpu].since(prev[cpu]),
            delta_t,
            counts[cpu],
        )[k],
        all_updates(stats, prev, delta_t, counts, m)[cpu * UPDATES_PER_CPU + k].cpuid == cpu,
    decreases m,
{
    let last = cpu_updates(
        (m - 1) as usize,
        stats[m - 1].since(prev[m - 1]),
        delta_t,
        counts[m - 1],
    );
    lemma_cpu_updates_shape(
        (m - 1) as usize,
        stats[m - 1].since(prev[m - 1]),
        delta_t,
        counts[m - 1],
    );
    lemma_all_updates_len(stats, prev, delta_t, counts, m - 1);
    if cpu < m - 1 {
        lemma_all_updates_at(stats, prev, delta_t, counts, m - 1, cpu, k);
    } else {
        assert(last[k].cpuid == (m - 1) as usize);
    }
}

/// In one round every served CPU that was read gets eighteen updates.
pub proof fn lemma_all_updates_len(
    stats: Seq<EventTimes>,
    prev: Seq<EventTimes>,
    delta_t: u64,
    counts: Seq<Counts>,
    m: int,
)
    requires
        0 <= m,
    ensures
        all_updates(stats, prev, delta_t, counts, m).len() == m * UPDATES_PER_CPU,
    decreases m,
{
    if m > 0 {
        lemma_all_updates_len(stats, prev, delta_t, counts, m - 1);
        lemma_cpu_updates_shape(
            (m - 1) as usize,
            stats[m - 1].since(prev[m - 1]),
            delta_t,
            counts[m - 1],
        );
    }
}

/// One record raises each counter of a CPU by one at most.
pub proof fn lemma_record_adds_at_most_one(
    counts: Seq<Counts>,
    entries: Seq<KSymsVal>,
    record: Seq<u64>,
    cpu: int,
    field: CountField,
)
    requires
        0 <= cpu < counts.len(),
    ensures
        with_record(counts, entries, record).len() == counts.len(),
        counts[cpu].field(field) <= with_record(counts, entries, record)[cpu].field(field)
            <= counts[cpu].field(field) + 1,
{
    if record.len() > 0 && header_cpu(record[0]) < counts.len() {
        let found = trace_counts(entries, record.skip(1), record_frames(record[0]));
        lemma_trace_counts_is_presence(entries, record.skip(1), record_frames(record[0]));
        lemma_presence_fields(found, field);
    }
}

/// After `n` records were added to counts that were all zero, no counter
/// exceeds `n`.
pub proof fn lemma_drained_counts_are_bounded(
    num_cpus: nat,
    entries: Seq<KSymsVal>,
    words: Seq<u64>,
    n: int,
    cpu: int,
    field: CountField,
)
    requires
        0 <= n,
        0 <= cpu < num_cpus,
    ensures
        drained(zero_counts(num_cpus), entries, words, n).len() == num_cpus,
        drained(zero_counts(num_cpus), entries, words, n)[cpu].field(field) <= n,
    decreases n,
{
    if n > 0 {
        lemma_drained_counts_are_bounded(num_cpus, entries, words, n - 1, cpu, field);
        lemma_record_adds_at_most_one(
            drained(zero_counts(num_cpus), entries, words, n - 1),
            entries,
            words.subrange((n - 1) * RECORD_WORDS as int, n * RECORD_WORDS as int),
            cpu,
            field,
        );
    }
}

/// Draining keeps the number of CPUs.
pub proof fn lemma_drained_len(
    counts: Seq<Counts>,
    entries: Seq<KSymsVal>,
    words: Seq<u64>,
    n: int,
)
    ensures
        drained(counts, entries, words, n).len() == counts.len(),
    decreases n,
{
    if n > 0 {
        lemma_drained_len(counts, entries, words, n - 1);
    }
}

/// The time that CPUs spent in events is bounded by their number.
pub proof fn lemma_busy_bound(stats: Seq<EventTimes>, prev: Seq<EventTimes>, m: int)
    requires
        0 <= m,
    ensures
        0 <= busy_ns(stats, prev, m) <= m * 5 * 0xffff_ffff_ffff_ffff,
    decreases m,
{
    if m > 0 {
        lemma_busy_bound(stats, prev, m - 1);
    }
}

/// Actor-free core of the analysis: the state that is carried from round to
/// round.
pub struct TraceAnalyzer {
    counts: Vec<Counts>,
    ksyms: KSyms,
    ticks_per_second: u64,
    procfs_metrics_old: Vec<i64>,
    prev_update_ts: u64,
    prev_total_times: Vec<EventTimes>,
    prev_total_energy: u64,
}

impl View for TraceAnalyzer {
    type V = TraceAnalyzerView;

    closed spec fn view(&self) -> TraceAnalyzerView {
        TraceAnalyzerView {
            counts: self.counts@,
            ksyms: self.ksyms@,
            ticks_per_second: self.ticks_per_second,
            procfs_metrics_old: self.procfs_metrics_old@,
            prev_update_ts: self.prev_update_ts,
            prev_total_times: self.prev_total_times@,
            prev_total_energy: self.prev_total_energy,
        }
    }
}

impl TraceAnalyzer {
    /// Builds an analyzer for `num_possible_cpus` CPUs that starts its first
    /// round from the time `now_ns`, with all previous readings zero.
    pub fn new(num_possible_cpus: usize, ksyms: KSyms, ticks_per_second: u64, now_ns: u64) -> (a:
        TraceAnalyzer)
        requires
            num_possible_cpus <= MAX_CPUS,
        ensures
            a@.wf(),
            a@ == (TraceAnalyzerView {
                counts: zero_counts(num_possible_cpus as nat),
                ksyms: ksyms@,
                ticks_per_second,
                procfs_metrics_old: Seq::new(PROCFS_METRICS as nat, |i: int| 0i64),
                prev_update_ts: now_ns,
                prev_total_times: Seq::new(num_possible_cpus as nat, |i: int| EventTimes::zero()),
                prev_total_energy: 0,
            }),
    {
        let mut counts: Vec<Counts> = Vec::new();
        let mut prev_total_times: Vec<EventTimes> = Vec::new();
        while counts.len() < num_possible_cpus
            invariant
                counts@.len() == prev_total_times@.len(),
                counts@.len() <= num_possible_cpus,
                forall|i: int| 0 <= i < counts@.len() ==> counts@[i] == Counts::zero(),
                forall|i: int|
                    0 <= i < prev_total_times@.len() ==> prev_total_times@[i] == EventTimes::zero(),
            decreases num_possible_cpus - counts@.len(),
        {
            counts.push(Counts::default());
            prev_total_times.push(EventTimes::new());
        }
        let mut procfs_metrics_old: Vec<i64> = Vec::new();
        while procfs_metrics_old.len() < PROCFS_METRICS
            invariant
                procfs_metrics_old@.len() <= PROCFS_METRICS,
                forall|i: int| 0 <= i < procfs_metrics_old@.len() ==> procfs_metrics_old@[i] == 0,
            decreases PROCFS_METRICS - procfs_metrics_old@.len(),
        {
            procfs_metrics_old.push(0);
        }
        proof {
            assert(counts@ =~= zero_counts(num_possible_cpus as nat));
            assert(prev_total_times@ =~= Seq::new(
                num_possible_cpus as nat,
                |i: int| EventTimes::zero(),
            ));
            assert(procfs_metrics_old@ =~= Seq::new(PROCFS_METRICS as nat, |i: int| 0i64));
        }
        TraceAnalyzer {
            counts,
            ksyms,
            ticks_per_second,
            procfs_metrics_old,
            prev_update_ts: now_ns,
            prev_total_times,
            prev_total_energy: 0,
        }
    }

    /// Number of CPUs that the analyzer serves.
    pub fn num_possible_cpus(&self) -> (n: usize)
        ensures
            n == self@.num_cpus(),
    {
        self.counts.len()
    }

    /// The events seen in the stacks of the current round, for each CPU.
    pub fn counts(&self) -> (counts: &[Counts])
        ensures
            counts@ == self@.counts,
    {
        self.counts.as_slice()
    }

    /// Sets the counts of all CPUs to zero.
    pub fn reset_counts(&mut self)
        ensures
            old(self)@.wf() ==> final(self)@.wf(),
            final(self)@ == (TraceAnalyzerView {
                counts: zero_counts(old(self)@.counts.len()),
                ..old(self)@
            }),
    {
        let n = self.counts.len();
        let mut i: usize = 0;
        while i < n
            invariant
                i <= n,
                self.counts@.len() == n,
                forall|j: int| 0 <= j < i ==> self.counts@[j] == Counts::zero(),
                self.ksyms == old(self).ksyms,
                self.ticks_per_second == old(self).ticks_per_second,
                self.procfs_metrics_old == old(self).procfs_metrics_old,
                self.prev_update_ts == old(self).prev_update_ts,
                self.prev_total_times == old(self).prev_total_times,
                self.prev_total_energy == old(self).prev_total_energy,
            decreases n - i,
        {
            self.counts.set(i, Counts::default());
            i += 1;
        }
        proof {
            assert(self.counts@ =~= zero_counts(old(self)@.counts.len()));
        }
    }

    /// Adds the events of one record to the counts of the CPU that its
    /// header names. A record for a CPU that is not served is dropped.
    pub fn acc_record(&mut self, record: &[u64])
        ensures
            old(self)@.wf() ==> final(self)@.wf(),
            final(self)@ == (TraceAnalyzerView {
                counts: with_record(old(self)@.counts, old(self)@.ksyms, record@),
                ..old(self)@
            }),
    {
        if record.len() == 0 {
            return ;
        }
        let (frames, cpu) = unpack_header(record[0]);
        let cpu = cpu as usize;
        if cpu < self.counts.len() {
            let max_frames: usize = if frames <= MAX_FRAMES as u64 {
                frames as usize
            } else {
                MAX_FRAMES
            };
            let tail = slice_subrange(record, 1, record.len());
            let ghost before = self.counts@;
            proof {
                assert(tail@ =~= record@.skip(1));
            }
            self.counts[cpu].acc_trace(&self.ksyms, tail, max_frames);
            proof {
                assert(self.counts@ =~= before.update(cpu as int, self.counts@[cpu as int]));
            }
        }
    }

    /// Adds the events of all the records of `records` to the counts. The
    /// records follow each other without gaps; words after the last whole
    /// record are not looked at.
    pub fn drain_records(&mut self, records: &[u64])
        ensures
            old(self)@.wf() ==> final(self)@.wf(),
            final(self)@ == (TraceAnalyzerView {
                counts: drained(
                    old(self)@.counts,
                    old(self)@.ksyms,
                    records@,
                    records@.len() as int / RECORD_WORDS as int,
                ),
                ..old(self)@
            }),
    {
        let n: usize = records.len() / RECORD_WORDS;
        let mut k: usize = 0;
        while k < n
            invariant
                k <= n,
                n == records@.len() as int / RECORD_WORDS as int,
                n * RECORD_WORDS <= records@.len() <= usize::MAX,
                old(self)@.wf() ==> self@.wf(),
                self@ == (TraceAnalyzerView {
                    counts: drained(old(self)@.counts, old(self)@.ksyms, records@, k as int),
                    ..old(self)@
                }),
            decreases n - k,
        {
            let record = slice_subrange(records, k * RECORD_WORDS, (k + 1) * RECORD_WORDS);
            self.acc_record(record);
            k += 1;
        }
    }

    /// Turns the cumulative times of the events into the updates of the
    /// round, for as many CPUs as were read and are served, and keeps the
    /// times for the next round. Returns the updates with the time that
    /// those CPUs spent in all events together.
    pub fn event_round(&mut self, stats: &[EventTimes], delta_t: u64) -> (round: (
        Vec<MetricUpdate>,
        i128,
    ))
        requires
            old(self)@.wf(),
        ensures
            final(self)@.wf(),
            final(self)@ == (TraceAnalyzerView {
                prev_total_times: next_times(old(self)@.prev_total_times, stats@),
                ..old(self)@
            }),
            updates_view(round.0@) == all_updates(
                stats@,
                old(self)@.prev_total_times,
                delta_t,
                old(self)@.counts,
                min_len(stats@.len() as int, old(self)@.num_cpus()),
            ),
            round.1 == busy_ns(
                stats@,
                old(self)@.prev_total_times,
                min_len(stats@.len() as int, old(self)@.num_cpus()),
            ),
    {
        let ghost prev = self.prev_total_times@;
        let m: usize = if stats.len() <= self.counts.len() {
            stats.len()
        } else {
            self.counts.len()
        };
        let mut updates: Vec<MetricUpdate> = Vec::new();
        let mut busy: i128 = 0;
        let mut i: usize = 0;
        proof {
            assert(updates_view(updates@) =~= Seq::<MetricUpdateView>::empty());
        }
        while i < m
            invariant
                i <= m,
                m == min_len(stats@.len() as int, old(self)@.num_cpus()),
                m <= MAX_CPUS,
                prev == old(self)@.prev_total_times,
                self.prev_total_times@.len() == prev.len(),
                prev.len() == self.counts@.len(),
                forall|j: int| 0 <= j < i ==> self.prev_total_times@[j] == stats@[j],
                forall|j: int| i <= j < prev.len() ==> self.prev_total_times@[j] == prev[j],
                self.counts == old(self).counts,
                self.ksyms == old(self).ksyms,
                self.ticks_per_second == old(self).ticks_per_second,
                self.procfs_metrics_old == old(self).procfs_metrics_old,
                self.prev_update_ts == old(self).prev_update_ts,
                self.prev_total_energy == old(self).prev_total_energy,
                updates_view(updates@) == all_updates(
                    stats@,
                    prev,
                    delta_t,
                    self.counts@,
                    i as int,
                ),
                busy == busy_ns(stats@, prev, i as int),
            decreases m - i,
        {
            let gained = stats[i].elapsed_since(&self.prev_total_times[i]);
            self.prev_total_times.set(i, stats[i]);
            push_cpu_updates(&mut updates, i, &gained, delta_t, &self.counts[i]);
            proof {
                lemma_busy_bound(stats@, prev, i as int);
                assert(i * 5 * 0xffff_ffff_ffff_ffff <= 0xffff_ffff * 5 * 0xffff_ffff_ffff_ffff)
                    by (nonlinear_arith)
                    requires
                        0 <= i <= 0xffff_ffff,
                ;
            }
            busy = busy + (gained.sock_sendmsg as i128) + (gained.sock_recvmsg as i128) + (
            gained.net_tx_softirq as i128) + (gained.net_rx_softirq as i128) + (
            gained.io_worker as i128);
            i += 1;
        }
        proof {
            assert(self.prev_total_times@ =~= next_times(prev, stats@));
        }
        (updates, busy)
    }

    /// Turns the tick counts of the kernel's CPU accounting into shares of
    /// all CPU time, as far as there are previous counts for them, and keeps
    /// the counts for the next round.
    pub fn procfs_round(&mut self, ticks: &[i64], delta_t: u64) -> (shares: Vec<Ratio>)
        ensures
            old(self)@.wf() ==> final(self)@.wf(),
            final(self)@ == (TraceAnalyzerView {
                procfs_metrics_old: next_ticks(old(self)@.procfs_metrics_old, ticks@),
                ..old(self)@
            }),
            shares@ == procfs_ratios(
                old(self)@.procfs_metrics_old,
                ticks@,
                old(self)@.ticks_per_second,
                delta_t,
            ),
    {
        let ghost prev = self.procfs_metrics_old@;
        let m: usize = if ticks.len() <= self.procfs_metrics_old.len() {
            ticks.len()
        } else {
            self.procfs_metrics_old.len()
        };
        let hz = self.ticks_per_second;
        proof {
            assert(hz * delta_t <= 0xffff_ffff_ffff_ffff * 0xffff_ffff_ffff_ffff)
                by (nonlinear_arith)
                requires
                    0 <= hz <= 0xffff_ffff_ffff_ffff,
                    0 <= delta_t <= 0xffff_ffff_ffff_ffff,
            ;
        }
        let den: u128 = (hz as u128) * (delta_t as u128);
        let mut shares: Vec<Ratio> = Vec::new();
        let mut i: usize = 0;
        while i < m
            invariant
                i <= m,
                m == min_len(prev.len() as int, ticks@.len() as int),
                prev == old(self)@.procfs_metrics_old,
                hz == old(self)@.ticks_per_second,
                den == hz * delta_t,
                self.procfs_metrics_old@.len() == prev.len(),
                forall|j: int| 0 <= j < i ==> self.procfs_metrics_old@[j] == ticks@[j],
                forall|j: int| i <= j < prev.len() ==> self.procfs_metrics_old@[j] == prev[j],
                self.counts == old(self).counts,
                self.ksyms == old(self).ksyms,
                self.ticks_per_second == old(self).ticks_per_second,
                self.prev_total_times == old(self).prev_total_times,
                self.prev_update_ts == old(self).prev_update_ts,
                self.prev_total_energy == old(self).prev_total_energy,
                shares@.len() == i,
                forall|j: int|
                    0 <= j < i ==> shares@[j] == procfs_ratio(prev[j], ticks@[j], hz, delta_t),
            decreases m - i,
        {
            let gained: i128 = (ticks[i] as i128) - (self.procfs_metrics_old[i] as i128);
            proof {
                assert(-0x1_0000_0000_0000_0000 * 1_000_000_000 <= gained * 1_000_000_000
                    <= 0x1_0000_0000_0000_0000 * 1_000_000_000) by (nonlinear_arith)
                    requires
                        -0x1_0000_0000_0000_0000 <= gained <= 0x1_0000_0000_0000_0000,
                ;
            }
            shares.push(Ratio { num: gained * NANOS_PER_SEC, den });
            self.procfs_metrics_old.set(i, ticks[i]);
            i += 1;
        }
        proof {
            assert(self.procfs_metrics_old@ =~= next_ticks(prev, ticks@));
            assert(shares@ =~= procfs_ratios(prev, ticks@, hz, delta_t));
        }
        shares
    }

    /// Runs one round of the analysis.
    ///
    /// `now_ns` is the time of the round on a monotonic clock, `energy_uj`
    /// the reading of the energy meter where there is one, `records` the
    /// valid records of the slot that was just retired, `per_cpu` the
    /// cumulative times of the events for each CPU, and `proc_stat` the text
    /// of the kernel's CPU accounting.
    ///
    /// The round fails, and changes nothing, when `per_cpu` is missing or a
    /// tick count cannot be read. Otherwise the counts are taken afresh from
    /// `records`, all readings are kept for the next round, and the result
    /// holds the updates for every CPU that was read and is served, the
    /// power drawn by networking, and the shares of the tick counts. A
    /// reading that went backwards counts as no gain.
    pub fn run_interval(
        &mut self,
        now_ns: u64,
        energy_uj: Option<u64>,
        records: &[u64],
        per_cpu: Option<&[EventTimes]>,
        proc_stat: &str,
    ) -> (round: Result<Tick, TickError>)
        requires
            old(self)@.wf(),
        ensures
            final(self)@.wf(),
            match tick_error(
                match per_cpu {
                    Some(stats) => Some(stats@),
                    None => None,
                },
                proc_stat.spec_bytes(),
            ) {
                Some(e) => round == Err::<Tick, TickError>(e) && final(self)@ == old(self)@,
                None => {
                    &&& round is Ok
                    &&& final(self)@ == state_after_tick(
                        old(self)@,
                        now_ns,
                        energy_uj,
                        records@,
                        per_cpu->0@,
                        proc_stat_ticks(proc_stat.spec_bytes())->0,
                    )
                    &&& round->Ok_0@ == tick_of(
                        old(self)@,
                        now_ns,
                        energy_uj,
                        records@,
                        per_cpu->0@,
                        proc_stat_ticks(proc_stat.spec_bytes())->0,
                    )
                },
            },
    {
        let stats = match per_cpu {
            Some(stats) => stats,
            None => {
                return Err(TickError::MissingPerCpuData);
            },
        };
        let ticks = match parse_proc_stat(proc_stat.as_bytes()) {
            Some(ticks) => ticks,
            None => {
                return Err(TickError::InvalidProcStat);
            },
        };
        let num_cpus = self.counts.len();
        let delta_t = now_ns.saturating_sub(self.prev_update_ts);
        self.prev_update_ts = now_ns;
        let delta_e = match energy_uj {
            Some(e) => {
                let gained = e.saturating_sub(self.prev_total_energy);
                self.prev_total_energy = e;
                Some(gained)
            },
            None => None,
        };
        self.reset_counts();
        self.drain_records(records);
        proof {
            lemma_drained_len(
                zero_counts(old(self)@.counts.len()),
                old(self)@.ksyms,
                records@,
                records@.len() as int / RECORD_WORDS as int,
            );
        }
        let (updates, busy) = self.event_round(stats, delta_t);
        let procfs_metrics = self.procfs_round(ticks.as_slice(), delta_t);
        let net_power_w = match delta_e {
            Some(gained) => {
                proof {
                    assert(delta_t * num_cpus <= 0xffff_ffff_ffff_ffff * 0xffff_ffff)
                        by (nonlinear_arith)
                        requires
                            0 <= delta_t <= 0xffff_ffff_ffff_ffff,
                            0 <= num_cpus <= 0xffff_ffff,
                    ;
                }
                Some(
                    NetPower {
                        socket_power_w: Ratio {
                            num: (gained as i128) * 1000,
                            den: delta_t as u128,
                        },
                        net_fraction: Ratio {
                            num: busy,
                            den: (delta_t as u128) * (num_cpus as u128),
                        },
                    },
                )
            },
            None => None,
        };
        Ok(Tick { updates, net_power_w, procfs_metrics, delta_time_ns: delta_t })
    }

    /// Runs one round of the analysis on the store `buf`: swaps its slots,
    /// reads the count of the slot just retired, runs the round on the
    /// records of that slot, and zeroes the counter of the slot.
    ///
    /// A round that fails changes nothing on the analyzer and leaves the
    /// store with its slots swapped and its counters as they were. After a
    /// round that does not fail, the counter of the retired slot is zero;
    /// so are both counters if the store was at rest and nothing was written
    /// meanwhile.
    pub fn tick(
        &mut self,
        buf: &mut TraceBuffer,
        now_ns: u64,
        energy_uj: Option<u64>,
        per_cpu: Option<&[EventTimes]>,
        proc_stat: &str,
    ) -> (round: Result<Tick, TickError>)
        requires
            old(self)@.wf(),
            old(buf)@.wf(),
        ensures
            final(self)@.wf(),
            final(buf)@.wf(),
            match tick_error(
                match per_cpu {
                    Some(stats) => Some(stats@),
                    None => None,
                },
                proc_stat.spec_bytes(),
            ) {
                Some(e) => {
                    &&& round == Err::<Tick, TickError>(e)
                    &&& final(self)@ == old(self)@
                    &&& final(buf)@ == (TraceBufferView {
                        active_slot_offset: other_offset(
                            old(buf)@.active_slot_offset,
                            old(buf)@.capacity,
                        ),
                        ..old(buf)@
                    })
                },
                None => {
                    &&& round is Ok
                    &&& final(buf)@ == old(buf)@.after_drain()
                    &&& final(buf)@.count_at(old(buf)@.active_slot_offset) == 0
                    &&& old(buf)@.is_quiescent() ==> final(buf)@.count_slot_0 == 0
                        && final(buf)@.count_slot_1 == 0
                    &&& final(self)@ == state_after_tick(
                        old(self)@,
                        now_ns,
                        energy_uj,
                        old(buf)@.active_records(),
                        per_cpu->0@,
                        proc_stat_ticks(proc_stat.spec_bytes())->0,
                    )
                    &&& round->Ok_0@ == tick_of(
                        old(self)@,
                        now_ns,
                        energy_uj,
                        old(buf)@.active_records(),
                        per_cpu->0@,
                        proc_stat_ticks(proc_stat.spec_bytes())->0,
                    )
                },
            },
    {
        let (offset, count) = buf.swap_and_count();
        let records = buf.records(offset, count);
        match self.run_interval(now_ns, energy_uj, records, per_cpu, proc_stat) {
            Ok(round) => {
                buf.reset_count(offset);
                Ok(round)
            },
            Err(e) => Err(e),
        }
    }

    /// Retires the active slot of `buf` and adds the events of all its
    /// records to the counts; the counter of the retired slot is zero
    /// afterwards, and zero are both counters if the store was at rest.
    pub fn drain(&mut self, buf: &mut TraceBuffer)
        requires
            old(buf)@.wf(),
        ensures
            old(self)@.wf() ==> final(self)@.wf(),
            final(buf)@.wf(),
            final(buf)@ == old(buf)@.after_drain(),
            final(buf)@.count_at(old(buf)@.active_slot_offset) == 0,
            old(buf)@.is_quiescent() ==> final(buf)@.count_slot_0 == 0 && final(buf)@.count_slot_1
                == 0 && final(buf)@.is_quiescent(),
            final(self)@ == (TraceAnalyzerView {
                counts: drained(
                    old(self)@.counts,
                    old(self)@.ksyms,
                    old(buf)@.active_records(),
                    old(buf)@.count_at(old(buf)@.active_slot_offset) as int,
                ),
                ..old(self)@
            }),
    {
        let (offset, count) = buf.swap_and_count();
        let records = buf.records(offset, count);
        self.drain_records(records);
        buf.reset_count(offset);
    }
}

} // verus!
