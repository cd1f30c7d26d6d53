//! The accounting that the kernel probe keeps for one CPU.
//!
//! For each event the probe holds the timestamp at which the interval that
//! is under way began, zero when none is, and the cumulative time of all
//! intervals that have ended. Context switches end and resume intervals, so
//! that only time spent on the CPU is accounted.

use vstd::prelude::*;
use crate::events::{Event, EventTimes};
use crate::transport::TraceBuffer;

verus! {

/// Sum of two times that sticks at the largest value instead of wrapping.
pub open spec fn sat_add_ns(a: u64, b: u64) -> u64 {
    if a + b > u64::MAX {
        u64::MAX
    } else {
        (a + b) as u64
    }
}

/// Length of the interval from `start` to `now`; zero when `now` lies before
/// `start`.
pub open spec fn interval(start: u64, now: u64) -> u64 {
    if now >= start {
        (now - start) as u64
    } else {
        0
    }
}

/// What a task keeps across context switches: the event that it is
/// executing, if any.
#[derive(Clone, Copy, Debug, PartialEq, Eq, Structural)]
pub struct TaskState {
    pub in_event: Option<Event>,
}

/// The accumulators of one CPU.
#[derive(Clone, Copy, Debug, PartialEq, Eq, Structural)]
pub struct CpuProbe {
    /// For each event, the start of the interval under way; zero for none.
    pub prev_ts: EventTimes,
    /// For each event, the cumulative nanoseconds spent in it.
    pub total_time: EventTimes,
}

/// Something that happens on a CPU and that the probe accounts.
#[derive(Clone, Copy, Debug, PartialEq, Eq, Structural)]
pub enum ProbeStep {
    /// Event `event` is entered at time `now`.
    Enter { event: Event, now: u64 },
    /// Event `event` is left at time `now`.
    Exit { event: Event, now: u64 },
    /// A task that is executing `in_event` is switched out at time `now`.
    SwitchOut { in_event: Option<Event>, now: u64 },
    /// A task that was executing `in_event` is switched in at time `now`.
    SwitchIn { in_event: Option<Event>, now: u64 },
}

impl CpuProbe {
    /// No time accounted and no interval under way.
    pub open spec fn zero() -> CpuProbe {
        CpuProbe { prev_ts: EventTimes::zero(), total_time: EventTimes::zero() }
    }

    /// An interval is under way for some event.
    pub open spec fn in_any_event(self) -> bool {
        exists|e: Event| self.prev_ts.of(e) != 0
    }

    /// The accumulators after `event` was entered at `now`: the interval
    /// starts unless one is under way already.
    pub open spec fn entered(self, event: Event, now: u64) -> CpuProbe {
        if self.prev_ts.of(event) == 0 {
            CpuProbe { prev_ts: self.prev_ts.with(event, now), ..self }
        } else {
            self
        }
    }

    /// The accumulators after the interval of `event` was ended at `now`:
    /// its length is added to the cumulative time, if one was under way.
    pub open spec fn ended(self, event: Event, now: u64) -> CpuProbe {
        if self.prev_ts.of(event) != 0 {
            CpuProbe {
                prev_ts: self.prev_ts.with(event, 0),
                total_time: self.total_time.with(
                    event,
                    sat_add_ns(
                        self.total_time.of(event),
                        interval(self.prev_ts.of(event), now),
                    ),
                ),
            }
        } else {
            self
        }
    }

    /// The accumulators after a task was switched in at `now`: the interval
    /// of the event that it was executing starts afresh.
    pub open spec fn resumed(self, in_event: Option<Event>, now: u64) -> CpuProbe {
        match in_event {
            Some(event) => CpuProbe { prev_ts: self.prev_ts.with(event, now), ..self },
            None => self,
        }
    }

    /// The accumulators after one step.
    pub open spec fn after(self, step: ProbeStep) -> CpuProbe {
        match step {
            ProbeStep::Enter { event, now } => self.entered(event, now),
            ProbeStep::Exit { event, now } => self.ended(event, now),
            ProbeStep::SwitchOut { in_event, now } => match in_event {
                Some(event) => self.ended(event, now),
                None => self,
            },
            ProbeStep::SwitchIn { in_event, now } => self.resumed(in_event, now),
        }
    }

    /// The accumulators after all of `steps`, in order.
    pub open spec fn after_all(self, steps: Seq<ProbeStep>) -> CpuProbe
        decreases steps.len(),
    {
        if steps.len() == 0 {
            self
        } else {
            self.after_all(steps.drop_last()).after(steps.last())
        }
    }

    /// Accumulators with no time accounted and no interval under way.
    pub fn new() -> (p: CpuProbe)
        ensures
            p == CpuProbe::zero(),
    {
        CpuProbe { prev_ts: EventTimes::new(), total_time: EventTimes::new() }
    }

    /// Accounts the entry into `event` at `now` by `task`.
    pub fn enter(&mut self, task: &mut TaskState, event: Event, now: u64)
        ensures
            *final(self) == old(self).entered(event, now),
            final(task).in_event == if old(self).prev_ts.of(event) == 0 {
                Some(event)
            } else {
                old(task).in_event
            },
    {
        if self.prev_ts.get(event) == 0 {
            self.prev_ts.set(event, now);
            task.in_event = Some(event);
        }
    }

    /// Ends the interval of `event` at `now`.
    fn end(&mut self, event: Event, now: u64)
        ensures
            *final(self) == old(self).ended(event, now),
    {
        let start = self.prev_ts.get(event);
        if start != 0 {
            let length = now.saturating_sub(start);
            let total = self.total_time.get(event).saturating_add(length);
            self.total_time.set(event, total);
            self.prev_ts.set(event, 0);
        }
    }

    /// Accounts the exit from `event` at `now` by `task`.
    pub fn exit(&mut self, task: &mut TaskState, event: Event, now: u64)
        ensures
            *final(self) == old(self).ended(event, now),
            final(task).in_event == None::<Event>,
    {
        self.end(event, now);
        task.in_event = None;
    }

    /// Accounts that `task` is switched out at `now`: the interval of the
    /// event that it is executing ends. The task stays in its event.
    pub fn switch_out(&mut self, task: &TaskState, now: u64)
        ensures
            *final(self) == old(self).after(ProbeStep::SwitchOut { in_event: task.in_event, now }),
    {
        match task.in_event {
            Some(event) => {
                self.end(event, now);
            },
            None => {},
        }
    }

    /// Accounts that `task` is switched in at `now`: the interval of the
    /// event that it was executing starts afresh.
    pub fn switch_in(&mut self, task: &TaskState, now: u64)
        ensures
            *final(self) == old(self).resumed(task.in_event, now),
    {
        match task.in_event {
            Some(event) => {
                self.prev_ts.set(event, now);
            },
            None => {},
        }
    }

    /// Tells whether an interval is under way for some event.
    pub fn is_in_event(&self) -> (inside: bool)
        ensures
            inside == self.in_any_event(),
    {
        let inside = self.prev_ts.sock_sendmsg != 0 || self.prev_ts.sock_recvmsg != 0
            || self.prev_ts.net_tx_softirq != 0 || self.prev_ts.net_rx_softirq != 0
            || self.prev_ts.io_worker != 0;
        proof {
            if inside {
                let e = if self.prev_ts.sock_sendmsg != 0 {
                    Event::SockSendmsg
                } else if self.prev_ts.sock_recvmsg != 0 {
                    Event::SockRecvmsg
                } else if self.prev_ts.net_tx_softirq != 0 {
                    Event::NetTxSoftirq
                } else if self.prev_ts.net_rx_softirq != 0 {
                    Event::NetRxSoftirq
                } else {
                    Event::IoWorker
                };
                assert(self.prev_ts.of(e) != 0);
            }
        }
        inside
    }

    /// Takes a sample on `cpu`: while an interval is under way the stack is
    /// stored in `buf`, or dropped if there is no room; otherwise nothing
    /// happens. Returns whether the stack was stored.
    pub fn sample(&self, buf: &mut TraceBuffer, cpu: u32, stack: &[u64]) -> (stored: bool)
        requires
            old(buf)@.wf(),
        ensures
            final(buf)@.wf(),
            !self.in_any_event() ==> !stored,
            !stored ==> final(buf)@ == old(buf)@,
            stored == (self.in_any_event() && old(buf)@.count_at(old(buf)@.active_slot_offset)
                < old(buf)@.capacity),
            stored ==> final(buf)@.record(
                old(buf)@.active_slot_offset + old(buf)@.count_at(old(buf)@.active_slot_offset),
            ) == crate::transport::record_of(cpu, stack@),
    {
        if self.is_in_event() {
            buf.write(cpu, stack)
        } else {
            false
        }
    }

    /// The cumulative time of no event ever goes down in a step.
    pub proof fn lemma_step_keeps_totals(self, step: ProbeStep, e: Event)
        ensures
            self.after(step).total_time.of(e) >= self.total_time.of(e),
    {
    }

    /// For every event, the cumulative time after any run of steps is at
    /// least what it was before.
    pub proof fn lemma_total_time_never_decreases(self, steps: Seq<ProbeStep>, e: Event)
        ensures
            self.after_all(steps).total_time.of(e) >= self.total_time.of(e),
        decreases steps.len(),
    {
        if steps.len() > 0 {
            self.lemma_total_time_never_decreases(steps.drop_last(), e);
            self.after_all(steps.drop_last()).lemma_step_keeps_totals(steps.last(), e);
        }
    }

    /// What is read at a later round is at least what was read at an earlier
    /// one: the steps up to the later round continue those up to the earlier.
    pub proof fn lemma_later_reading_is_no_smaller(
        self,
        earlier: Seq<ProbeStep>,
        between: Seq<ProbeStep>,
        e: Event,
    )
        ensures
            self.after_all(earlier + between).total_time.of(e) >= self.after_all(
                earlier,
            ).total_time.of(e),
        decreases between.len(),
    {
        if between.len() == 0 {
            assert(earlier + between =~= earlier);
        } else {
            assert((earlier + between).drop_last() =~= earlier + between.drop_last());
            assert((earlier + between).last() == between.last());
            self.lemma_later_reading_is_no_smaller(earlier, between.drop_last(), e);
            self.after_all(earlier + between.drop_last()).lemma_step_keeps_totals(
                between.last(),
                e,
            );
        }
    }
}

} // verus!
