//! The table of recognised kernel symbols and the walk of a stack against it.

use vstd::prelude::*;
use crate::classifier::{Classifier, CountField, TraceState};
use crate::counts::Counts;
use crate::kallsyms::{parse_lines, parse_symbols, LoadError, Symbol};
use vstd::string::StringSliceAdditionalSpecFns;

verus! {

/// One recognised symbol: the addresses it covers and what a frame inside
/// them means.
#[derive(Clone, Copy, Debug, PartialEq, Eq, Structural)]
pub struct KSymsVal {
    /// Address of the symbol.
    pub range_start: u64,
    /// Last address that still belongs to the symbol: one below the start of
    /// the next known symbol.
    pub range_last: u64,
    pub classifier: Classifier,
}

impl KSymsVal {
    /// First address past the symbol.
    pub open spec fn range_end(self) -> int {
        self.range_last + 1
    }

    /// `ip` lies inside the symbol.
    pub open spec fn covers(self, ip: u64) -> bool {
        self.range_start <= ip < self.range_end()
    }
}

/// The starts of `entries` strictly increase.
pub open spec fn sorted_by_start(entries: Seq<KSymsVal>) -> bool {
    forall|i: int, j: int|
        0 <= i < j < entries.len() ==> #[trigger] entries[i].range_start
            < #[trigger] entries[j].range_start
}

/// The classifier that `ip` resolves to: of the entries that start at or
/// below `ip`, the one with the greatest start decides, and it matches only
/// if `ip` is still inside its range.
pub open spec fn classify(entries: Seq<KSymsVal>, ip: u64) -> Option<Classifier>
    decreases entries.len(),
{
    if entries.len() == 0 {
        None
    } else {
        let e = entries.last();
        if e.range_start <= ip {
            if e.covers(ip) {
                Some(e.classifier)
            } else {
                None
            }
        } else {
            classify(entries.drop_last(), ip)
        }
    }
}

/// The state of a walk after all of `frames`, innermost first, were seen.
pub open spec fn walk(entries: Seq<KSymsVal>, frames: Seq<u64>) -> TraceState
    decreases frames.len(),
{
    if frames.len() == 0 {
        TraceState::start()
    } else {
        let before = walk(entries, frames.drop_last());
        match classify(entries, frames.last()) {
            Some(c) => c.step(before),
            None => before,
        }
    }
}

/// Where a walk that has reached index `from` stops: at the first zero word,
/// after `max_frames` words, or at the end of `trace`.
pub open spec fn walked_len(trace: Seq<u64>, max_frames: int, from: int) -> int
    decreases trace.len() - from,
{
    if from < 0 || from >= trace.len() || from >= max_frames || trace[from] == 0 {
        from
    } else {
        walked_len(trace, max_frames, from + 1)
    }
}

/// The frames of `trace` that a walk looks at.
pub open spec fn walked_frames(trace: Seq<u64>, max_frames: int) -> Seq<u64> {
    trace.take(walked_len(trace, max_frames, 0))
}

/// The event flags of one stack.
pub open spec fn trace_counts(entries: Seq<KSymsVal>, trace: Seq<u64>, max_frames: int) -> Counts {
    walk(entries, walked_frames(trace, max_frames)).counts
}

/// The flags of a walk are presence flags: each is zero or one.
pub proof fn lemma_walk_is_presence(entries: Seq<KSymsVal>, frames: Seq<u64>)
    ensures
        walk(entries, frames).is_presence(),
    decreases frames.len(),
{
    if frames.len() > 0 {
        lemma_walk_is_presence(entries, frames.drop_last());
        match classify(entries, frames.last()) {
            Some(c) => {
                c.lemma_step_keeps_presence(walk(entries, frames.drop_last()));
            },
            None => {},
        }
    }
}

/// For any single stack, each of its event flags is zero or one.
pub proof fn lemma_trace_counts_is_presence(
    entries: Seq<KSymsVal>,
    trace: Seq<u64>,
    max_frames: int,
)
    ensures
        trace_counts(entries, trace, max_frames).is_presence(),
{
    lemma_walk_is_presence(entries, walked_frames(trace, max_frames));
}

/// Where no symbol of the table can raise a counter, no stack raises it: a
/// counter whose symbols are absent stays zero.
pub proof fn lemma_absent_symbol_leaves_zero(
    entries: Seq<KSymsVal>,
    frames: Seq<u64>,
    field: CountField,
)
    requires
        forall|i: int|
            0 <= i < entries.len() ==> !(#[trigger] entries[i]).classifier.may_raise(field),
    ensures
        walk(entries, frames).counts.field(field) == 0,
    decreases frames.len(),
{
    if frames.len() > 0 {
        lemma_absent_symbol_leaves_zero(entries, frames.drop_last(), field);
        lemma_classify_is_of_an_entry(entries, frames.last());
        match classify(entries, frames.last()) {
            Some(c) => {
                c.lemma_step_leaves_zero(walk(entries, frames.drop_last()), field);
            },
            None => {},
        }
    }
}

/// What an address resolves to is the classifier of an entry that covers it.
pub proof fn lemma_classify_is_of_an_entry(entries: Seq<KSymsVal>, ip: u64)
    ensures
        classify(entries, ip) is Some ==> exists|i: int|
            0 <= i < entries.len() && (#[trigger] entries[i]).covers(ip) && entries[i].classifier
                == classify(entries, ip)->0,
    decreases entries.len(),
{
    if entries.len() > 0 {
        let last = entries.len() - 1;
        if entries.last().range_start <= ip {
            if entries.last().covers(ip) {
                assert(entries[last].covers(ip));
            }
        } else {
            lemma_classify_is_of_an_entry(entries.drop_last(), ip);
            if classify(entries, ip) is Some {
                let i = choose|i: int|
                    0 <= i < entries.drop_last().len() && (#[trigger] entries.drop_last()[i]).covers(
                        ip,
                    ) && entries.drop_last()[i].classifier == classify(entries.drop_last(), ip)->0;
                assert(entries[i] == entries.drop_last()[i]);
            }
        }
    }
}

/// Walking the same frames again gives the same event flags: what a walk
/// finds depends on the table and on the frames it looks at, and on nothing
/// else, be it the words behind the end of the stack or what was walked
/// before.
pub proof fn lemma_rewalk_gives_same_counts(
    entries: Seq<KSymsVal>,
    first: Seq<u64>,
    first_max: int,
    second: Seq<u64>,
    second_max: int,
)
    requires
        walked_frames(first, first_max) == walked_frames(second, second_max),
    ensures
        trace_counts(entries, first, first_max) == trace_counts(entries, second, second_max),
{
}

/// In a sorted table the entry at `idx` decides for `ip` when it starts at or
/// below `ip` and every later entry starts above it.
pub proof fn lemma_classify_at(entries: Seq<KSymsVal>, ip: u64, idx: int)
    requires
        sorted_by_start(entries),
        0 <= idx < entries.len(),
        entries[idx].range_start <= ip,
        forall|j: int| idx < j < entries.len() ==> (#[trigger] entries[j]).range_start > ip,
    ensures
        classify(entries, ip) == if entries[idx].covers(ip) {
            Some(entries[idx].classifier)
        } else {
            None
        },
    decreases entries.len(),
{
    if idx < entries.len() - 1 {
        assert(entries.last().range_start > ip);
        lemma_classify_at(entries.drop_last(), ip, idx);
    }
}

/// Entry `i` starts at or below `ip`, and no entry that does so starts
/// higher.
pub open spec fn is_greatest_start(entries: Seq<KSymsVal>, ip: u64, i: int) -> bool {
    &&& 0 <= i < entries.len()
    &&& entries[i].range_start <= ip
    &&& forall|j: int|
        0 <= j < entries.len() && (#[trigger] entries[j]).range_start <= ip
            ==> entries[j].range_start <= entries[i].range_start
}

/// In a table ordered by address, the entry with the greatest start at or
/// below an address decides what the address resolves to: its classifier if
/// it covers the address, nothing otherwise.
pub proof fn lemma_classify_is_greatest_start(entries: Seq<KSymsVal>, ip: u64, i: int)
    requires
        sorted_by_start(entries),
        is_greatest_start(entries, ip, i),
    ensures
        classify(entries, ip) == if entries[i].covers(ip) {
            Some(entries[i].classifier)
        } else {
            None
        },
{
    assert forall|j: int| i < j < entries.len() implies (#[trigger] entries[j]).range_start
        > ip by {
        assert(entries[i].range_start < entries[j].range_start);
    }
    lemma_classify_at(entries, ip, i);
}

/// No entry decides for `ip` when all of them start above it.
pub proof fn lemma_classify_none(entries: Seq<KSymsVal>, ip: u64)
    requires
        forall|j: int| 0 <= j < entries.len() ==> (#[trigger] entries[j]).range_start > ip,
    ensures
        classify(entries, ip) == None::<Classifier>,
    decreases entries.len(),
{
    if entries.len() > 0 {
        assert(entries.last().range_start > ip);
        lemma_classify_none(entries.drop_last(), ip);
    }
}

/// Line `i` decides what lives at its address: no later line of the listing
/// names the same address.
pub open spec fn is_last_at(symbols: Seq<Symbol>, i: int) -> bool {
    &&& 0 <= i < symbols.len()
    &&& forall|j: int| i < j < symbols.len() ==> (#[trigger] symbols[j]).addr != symbols[i].addr
}

/// The smallest address of `symbols` above `addr`, if there is one.
pub open spec fn next_above(symbols: Seq<Symbol>, addr: u64) -> Option<u64>
    decreases symbols.len(),
{
    if symbols.len() == 0 {
        None
    } else {
        let a = symbols.last().addr;
        match next_above(symbols.drop_last(), addr) {
            Some(m) => if addr < a && a < m {
                Some(a)
            } else {
                Some(m)
            },
            None => if addr < a {
                Some(a)
            } else {
                None
            },
        }
    }
}

/// Last address of the symbol at `addr`: one below the next symbol of the
/// listing, or `addr` itself when no symbol follows.
pub open spec fn range_last_of(symbols: Seq<Symbol>, addr: u64) -> u64 {
    match next_above(symbols, addr) {
        Some(next) => (next - 1) as u64,
        None => addr,
    }
}

/// The table entry that line `i` gives rise to: one for every line that
/// decides its address and names a recognised symbol.
pub open spec fn entry_at(symbols: Seq<Symbol>, i: int) -> Option<KSymsVal> {
    if is_last_at(symbols, i) {
        match symbols[i].classifier {
            Some(classifier) => Some(
                KSymsVal {
                    range_start: symbols[i].addr,
                    range_last: range_last_of(symbols, symbols[i].addr),
                    classifier,
                },
            ),
            None => None,
        }
    } else {
        None
    }
}

/// `entries` is the table of the listing `symbols`: ordered by address, and
/// holding exactly the entries that the lines give rise to.
pub open spec fn is_table_of(entries: Seq<KSymsVal>, symbols: Seq<Symbol>) -> bool {
    &&& sorted_by_start(entries)
    &&& forall|e: KSymsVal|
        entries.contains(e) <==> exists|i: int|
            0 <= i < symbols.len() && #[trigger] entry_at(symbols, i) == Some(e)
}

/// `next_above` is the least address of the listing above `addr`.
pub proof fn lemma_next_above_is_least(symbols: Seq<Symbol>, addr: u64)
    ensures
        match next_above(symbols, addr) {
            Some(next) => {
                &&& addr < next
                &&& exists|i: int| 0 <= i < symbols.len() && (#[trigger] symbols[i]).addr == next
                &&& forall|i: int|
                    0 <= i < symbols.len() && addr < (#[trigger] symbols[i]).addr ==> next
                        <= symbols[i].addr
            },
            None => forall|i: int| 0 <= i < symbols.len() ==> (#[trigger] symbols[i]).addr <= addr,
        },
    decreases symbols.len(),
{
    if symbols.len() > 0 {
        let init = symbols.drop_last();
        lemma_next_above_is_least(init, addr);
        assert forall|i: int| 0 <= i < init.len() implies init[i] == symbols[i] by {}
        match next_above(init, addr) {
            Some(m) => {
                let w = choose|i: int| 0 <= i < init.len() && (#[trigger] init[i]).addr == m;
                assert(symbols[w].addr == m);
                assert(symbols[symbols.len() - 1] == symbols.last());
                assert forall|i: int|
                    0 <= i < symbols.len() && addr < (#[trigger] symbols[i]).addr implies next_above(
                    symbols,
                    addr,
                )->0 <= symbols[i].addr by {
                    if i < init.len() {
                        assert(init[i].addr == symbols[i].addr);
                    }
                }
            },
            None => {
                assert(symbols[symbols.len() - 1] == symbols.last());
                assert forall|i: int| 0 <= i < symbols.len() implies (#[trigger] symbols[i]).addr
                    <= addr || next_above(symbols, addr) is Some by {
                    if i < init.len() {
                        assert(init[i].addr == symbols[i].addr);
                    }
                }
            },
        }
    }
}

/// Tells whether a later line names the address of line `i` again.
fn named_again(symbols: &[Symbol], i: usize) -> (again: bool)
    requires
        i < symbols@.len(),
    ensures
        again == !is_last_at(symbols@, i as int),
{
    let addr = symbols[i].addr;
    let mut j: usize = i + 1;
    while j < symbols.len()
        invariant
            i < j <= symbols@.len(),
            addr == symbols@[i as int].addr,
            forall|k: int| i < k < j ==> (#[trigger] symbols@[k]).addr != addr,
        decreases symbols@.len() - j,
    {
        if symbols[j].addr == addr {
            return true;
        }
        j += 1;
    }
    false
}

/// Computes the last address of the symbol at `addr`.
fn range_last_in(symbols: &[Symbol], addr: u64) -> (last: u64)
    ensures
        last == range_last_of(symbols@, addr),
        addr <= last,
{
    let mut best: Option<u64> = None;
    let mut j: usize = 0;
    proof {
        assert(symbols@.take(0) =~= Seq::<Symbol>::empty());
    }
    while j < symbols.len()
        invariant
            j <= symbols@.len(),
            best == next_above(symbols@.take(j as int), addr),
            best is Some ==> best->0 > addr,
        decreases symbols@.len() - j,
    {
        let a = symbols[j].addr;
        proof {
            assert(symbols@.take(j + 1).drop_last() =~= symbols@.take(j as int));
            assert(symbols@.take(j + 1).last() == symbols@[j as int]);
        }
        match best {
            Some(m) => {
                if addr < a && a < m {
                    best = Some(a);
                }
            },
            None => {
                if addr < a {
                    best = Some(a);
                }
            },
        }
        j += 1;
    }
    proof {
        assert(symbols@.take(j as int) =~= symbols@);
    }
    match best {
        Some(next) => next - 1,
        None => addr,
    }
}

/// Puts `entry` at its place in a table ordered by address.
fn insert_entry(syms: &mut Vec<KSymsVal>, entry: KSymsVal)
    requires
        sorted_by_start(old(syms)@),
        forall|k: int|
            0 <= k < old(syms)@.len() ==> (#[trigger] old(syms)@[k]).range_start
                != entry.range_start,
    ensures
        sorted_by_start(final(syms)@),
        forall|e: KSymsVal| final(syms)@.contains(e) <==> (old(syms)@.contains(e) || e == entry),
{
    let ghost before = syms@;
    let mut at: usize = syms.len();
    while at > 0 && syms[at - 1].range_start > entry.range_start
        invariant
            at <= syms@.len(),
            syms@ == before,
            forall|k: int| at <= k < syms@.len() ==> (#[trigger] syms@[k]).range_start
                > entry.range_start,
        decreases at,
    {
        at -= 1;
    }
    syms.insert(at, entry);
    proof {
        let after = syms@;
        assert(after == before.insert(at as int, entry));
        assert(after.len() == before.len() + 1);
        assert(after[at as int] == entry);
        assert forall|k: int| 0 <= k < at implies after[k] == before[k] by {}
        assert forall|k: int| at < k < after.len() implies after[k] == before[k - 1] by {}
        if at > 0 {
            assert(before[at - 1].range_start < entry.range_start);
        }
        assert forall|i: int, j: int| 0 <= i < j < after.len() implies (#[trigger] after[i]).range_start
            < (#[trigger] after[j]).range_start by {
            if j < at {
                assert(before[i].range_start < before[j].range_start);
            } else if j == at {
                assert(before[i].range_start <= before[at - 1].range_start) by {
                    if i < at - 1 {
                        assert(before[i].range_start < before[at - 1].range_start);
                    }
                }
            } else if i < at {
                assert(before[i].range_start < before[j - 1].range_start);
            } else if i == at {
                assert(before[j - 1].range_start > entry.range_start);
            } else {
                assert(before[i - 1].range_start < before[j - 1].range_start);
            }
        }
        assert forall|e: KSymsVal| after.contains(e) <==> (before.contains(e) || e == entry) by {
            if after.contains(e) {
                let k = choose|k: int| 0 <= k < after.len() && after[k] == e;
                if k < at {
                    assert(before[k] == e);
                } else if k > at {
                    assert(before[k - 1] == e);
                }
            }
            if before.contains(e) {
                let k = choose|k: int| 0 <= k < before.len() && before[k] == e;
                if k < at {
                    assert(after[k] == e);
                } else {
                    assert(after[k + 1] == e);
                }
            }
        }
    }
}

/// Helper to hold and query the kernel symbols that the analysis recognises.
pub struct KSyms {
    syms: Vec<KSymsVal>,
}

impl View for KSyms {
    type V = Seq<KSymsVal>;

    closed spec fn view(&self) -> Seq<KSymsVal> {
        self.syms@
    }
}

impl KSyms {
    /// The entries are ordered by strictly increasing start, and none ends
    /// before it starts.
    #[verifier::type_invariant]
    pub closed spec fn wf(&self) -> bool {
        &&& sorted_by_start(self.syms@)
        &&& forall|i: int|
            0 <= i < self.syms@.len() ==> (#[trigger] self.syms@[i]).range_start
                <= self.syms@[i].range_last
    }

    /// A table that recognises nothing.
    pub fn new() -> (ks: KSyms)
        ensures
            ks@ == Seq::<KSymsVal>::empty(),
    {
        KSyms { syms: Vec::new() }
    }

    /// Builds the table of a listing.
    ///
    /// Every line that names a recognised symbol gets an entry, unless a
    /// later line names the same address: then the later line decides. An
    /// entry reaches up to the next address of the listing, recognised or
    /// not; the symbol with the highest address covers that address alone.
    pub fn from_symbols(symbols: &[Symbol]) -> (ks: KSyms)
        ensures
            is_table_of(ks@, symbols@),
    {
        let mut syms: Vec<KSymsVal> = Vec::new();
        let mut i: usize = 0;
        while i < symbols.len()
            invariant
                i <= symbols@.len(),
                sorted_by_start(syms@),
                forall|k: int|
                    0 <= k < syms@.len() ==> (#[trigger] syms@[k]).range_start
                        <= syms@[k].range_last,
                forall|e: KSymsVal|
                    syms@.contains(e) <==> exists|k: int|
                        0 <= k < i && #[trigger] entry_at(symbols@, k) == Some(e),
            decreases symbols@.len() - i,
        {
            let ghost before = syms@;
            let sym = symbols[i];
            match sym.classifier {
                Some(classifier) => {
                    if !named_again(symbols, i) {
                        let range_last = range_last_in(symbols, sym.addr);
                        let entry = KSymsVal { range_start: sym.addr, range_last, classifier };
                        proof {
                            assert(entry_at(symbols@, i as int) == Some(entry));
                            assert forall|k: int| 0 <= k < before.len() implies (#[trigger] before[k]).range_start
                                != entry.range_start by {
                                assert(before.contains(before[k]));
                                let w = choose|w: int|
                                    0 <= w < i && #[trigger] entry_at(symbols@, w) == Some(before[k]);
                                assert(is_last_at(symbols@, w));
                                assert(symbols@[i as int].addr != symbols@[w].addr);
                            }
                        }
                        insert_entry(&mut syms, entry);
                        proof {
                            assert forall|k: int| 0 <= k < syms@.len() implies (#[trigger] syms@[k]).range_start
                                <= syms@[k].range_last by {
                                assert(syms@.contains(syms@[k]));
                                if syms@[k] != entry {
                                    let w = choose|w: int|
                                        0 <= w < before.len() && before[w] == syms@[k];
                                    assert(before[w].range_start <= before[w].range_last);
                                }
                            }
                        }
                    }
                },
                None => {},
            }
            proof {
                let now = syms@;
                assert forall|e: KSymsVal|
                    now.contains(e) <==> exists|k: int|
                        0 <= k < i + 1 && #[trigger] entry_at(symbols@, k) == Some(e) by {
                    if now.contains(e) {
                        if before.contains(e) {
                            let w = choose|w: int|
                                0 <= w < i && #[trigger] entry_at(symbols@, w) == Some(e);
                            assert(0 <= w < i + 1 && entry_at(symbols@, w) == Some(e));
                        } else {
                            assert(entry_at(symbols@, i as int) == Some(e));
                        }
                    }
                    if exists|k: int| 0 <= k < i + 1 && #[trigger] entry_at(symbols@, k) == Some(e) {
                        let w = choose|w: int|
                            0 <= w < i + 1 && #[trigger] entry_at(symbols@, w) == Some(e);
                        if w < i {
                            assert(before.contains(e));
                        }
                    }
                }
            }
            i += 1;
        }
        KSyms { syms }
    }

    /// Loads the recognised kernel symbols from the text of a symbol listing.
    ///
    /// Fails when a line of the listing cannot be read, with the error of the
    /// first such line; otherwise the result is the table of the listing.
    pub fn load(kallsyms: &str) -> (loaded: Result<KSyms, LoadError>)
        ensures
            match parse_lines(kallsyms.spec_bytes(), 0) {
                Ok(symbols) => loaded is Ok && is_table_of(loaded->Ok_0@, symbols),
                Err(e) => loaded is Err && loaded->Err_0 == e,
            },
    {
        match parse_symbols(kallsyms.as_bytes()) {
            Ok(symbols) => Ok(KSyms::from_symbols(symbols.as_slice())),
            Err(e) => Err(e),
        }
    }

    /// Number of recognised symbols.
    pub fn len(&self) -> (n: usize)
        ensures
            n == self@.len(),
    {
        self.syms.len()
    }

    /// The classifier of the symbol that `ip` falls into, if it is a
    /// recognised one.
    pub fn lookup(&self, ip: u64) -> (found: Option<Classifier>)
        ensures
            found == classify(self@, ip),
    {
        proof {
            use_type_invariant(self);
        }
        let mut lo: usize = 0;
        let mut hi: usize = self.syms.len();
        while lo < hi
            invariant
                0 <= lo <= hi <= self.syms@.len(),
                sorted_by_start(self.syms@),
                forall|j: int| 0 <= j < lo ==> (#[trigger] self.syms@[j]).range_start <= ip,
                forall|j: int|
                    hi <= j < self.syms@.len() ==> (#[trigger] self.syms@[j]).range_start > ip,
            decreases hi - lo,
        {
            let mid: usize = lo + (hi - lo) / 2;
            if self.syms[mid].range_start <= ip {
                lo = mid + 1;
            } else {
                hi = mid;
            }
        }
        if lo == 0 {
            proof {
                lemma_classify_none(self.syms@, ip);
            }
            None
        } else {
            let e = self.syms[lo - 1];
            proof {
                lemma_classify_at(self.syms@, ip, lo - 1);
            }
            if ip <= e.range_last {
                Some(e.classifier)
            } else {
                None
            }
        }
    }
}

impl Default for KSyms {
    fn default() -> (ks: KSyms)
        ensures
            ks@ == Seq::<KSymsVal>::empty(),
    {
        KSyms::new()
    }
}

impl Counts {
    /// Walks the frames of one stack, innermost first, and adds the events
    /// found in it to this record.
    ///
    /// The walk looks at no more than `max_frames` words of `trace` and stops
    /// early at a zero word. Each event counts once per stack, however many
    /// of its frames the stack holds.
    pub fn acc_trace(&mut self, ksyms: &KSyms, trace: &[u64], max_frames: usize)
        ensures
            *final(self) == old(self).plus(trace_counts(ksyms@, trace@, max_frames as int)),
    {
        let mut st = TraceState::new();
        let mut frame_idx: usize = 0;
        proof {
            assert(trace@.take(0) =~= Seq::<u64>::empty());
        }
        while frame_idx < max_frames && frame_idx < trace.len() && trace[frame_idx] != 0
            invariant
                0 <= frame_idx <= trace@.len(),
                frame_idx <= max_frames,
                walked_len(trace@, max_frames as int, 0) == walked_len(
                    trace@,
                    max_frames as int,
                    frame_idx as int,
                ),
                st == walk(ksyms@, trace@.take(frame_idx as int)),
            decreases trace@.len() - frame_idx,
        {
            let ip = trace[frame_idx];
            proof {
                assert(trace@.take(frame_idx + 1).drop_last() =~= trace@.take(frame_idx as int));
                assert(trace@.take(frame_idx + 1).last() == ip);
            }
            match ksyms.lookup(ip) {
                Some(c) => {
                    c.apply(&mut st);
                },
                None => {},
            }
            frame_idx += 1;
        }
        self.add_assign(st.counts);
    }
}

} // verus!
