//! The stages of receive processing and the updates that one CPU gives rise
//! to in one round.
//!
//! The time of the receive softirq is split among its stages in proportion
//! to how often each stage was seen in the sampled stacks.

use vstd::prelude::*;
use crate::counts::Counts;
use crate::events::{event_name, Event, EventTimes};
use crate::collector::{updates_view, MetricUpdate, MetricUpdateView};
use crate::metrics::Ratio;

verus! {

/// Number of stages that the receive softirq is broken down into.
pub const RX_STAGES: usize = 13;

/// Number of updates that one CPU gives rise to in one round: one for each
/// event and one for each stage.
pub const UPDATES_PER_CPU: usize = 18;

/// A stage of receive processing, in the order of publication.
#[derive(Clone, Copy, Debug, PartialEq, Eq, Structural)]
pub enum RxStage {
    DriverPoll,
    GroOverhead,
    XdpGeneric,
    TcClassify,
    NfIngress,
    NfConntrack,
    Bridging,
    NfPreroutingV4,
    NfPreroutingV6,
    ForwardingV4,
    ForwardingV6,
    LocalDeliveryV4,
    LocalDeliveryV6,
}

/// Difference of two counters, zero where the second exceeds the first.
pub open spec fn sat_sub(a: u16, b: u16) -> u16 {
    if a >= b {
        (a - b) as u16
    } else {
        0
    }
}

/// What the time of the receive softirq is divided by: the number of stacks
/// that held the softirq handler, but at least one.
pub open spec fn rx_denominator(c: Counts) -> u16 {
    if c.net_rx_action >= 1 {
        c.net_rx_action
    } else {
        1
    }
}

impl RxStage {
    /// The stage at place `k` of the order of publication.
    pub open spec fn at(k: int) -> RxStage {
        if k == 0 {
            RxStage::DriverPoll
        } else if k == 1 {
            RxStage::GroOverhead
        } else if k == 2 {
            RxStage::XdpGeneric
        } else if k == 3 {
            RxStage::TcClassify
        } else if k == 4 {
            RxStage::NfIngress
        } else if k == 5 {
            RxStage::NfConntrack
        } else if k == 6 {
            RxStage::Bridging
        } else if k == 7 {
            RxStage::NfPreroutingV4
        } else if k == 8 {
            RxStage::NfPreroutingV6
        } else if k == 9 {
            RxStage::ForwardingV4
        } else if k == 10 {
            RxStage::ForwardingV6
        } else if k == 11 {
            RxStage::LocalDeliveryV4
        } else {
            RxStage::LocalDeliveryV6
        }
    }

    /// The hierarchical name under which the stage is published.
    pub open spec fn spec_name(self) -> Seq<char> {
        match self {
            RxStage::DriverPoll => "RX softirq/Driver poll"@,
            RxStage::GroOverhead => "RX softirq/GRO overhead"@,
            RxStage::XdpGeneric => "RX softirq/XDP generic"@,
            RxStage::TcClassify => "RX softirq/TC classify"@,
            RxStage::NfIngress => "RX softirq/NF ingress"@,
            RxStage::NfConntrack => "RX softirq/NF conntrack"@,
            RxStage::Bridging => "RX softirq/Bridging"@,
            RxStage::NfPreroutingV4 => "RX softirq/NF prerouting/v4"@,
            RxStage::NfPreroutingV6 => "RX softirq/NF prerouting/v6"@,
            RxStage::ForwardingV4 => "RX softirq/Forwarding/v4"@,
            RxStage::ForwardingV6 => "RX softirq/Forwarding/v6"@,
            RxStage::LocalDeliveryV4 => "RX softirq/Local delivery/v4"@,
            RxStage::LocalDeliveryV6 => "RX softirq/Local delivery/v6"@,
        }
    }

    /// How many of the sampled stacks are put down to the stage. Polling the
    /// driver and bridging are counted without the stacks that went on into
    /// the stack proper.
    pub open spec fn spec_numerator(self, c: Counts) -> u16 {
        match self {
            RxStage::DriverPoll => sat_sub(c.__napi_poll, c.netif_receive_skb),
            RxStage::GroOverhead => c.napi_gro_receive_overhead,
            RxStage::XdpGeneric => c.do_xdp_generic,
            RxStage::TcClassify => c.tcf_classify,
            RxStage::NfIngress => c.nf_netdev_ingress,
            RxStage::NfConntrack => c.nf_conntrack_in,
            RxStage::Bridging => sat_sub(c.br_handle_frame, c.netif_receive_skb_sub_br),
            RxStage::NfPreroutingV4 => c.nf_prerouting_v4,
            RxStage::NfPreroutingV6 => c.nf_prerouting_v6,
            RxStage::ForwardingV4 => c.ip_forward,
            RxStage::ForwardingV6 => c.ip6_forward,
            RxStage::LocalDeliveryV4 => c.ip_local_deliver,
            RxStage::LocalDeliveryV6 => c.ip6_input,
        }
    }

    /// The stage at place `k` of the order of publication, if there is one.
    pub fn from_index(k: usize) -> (stage: Option<RxStage>)
        ensures
            stage is Some <==> k < RX_STAGES,
            k < RX_STAGES ==> stage == Some(RxStage::at(k as int)),
    {
        if k == 0 {
            Some(RxStage::DriverPoll)
        } else if k == 1 {
            Some(RxStage::GroOverhead)
        } else if k == 2 {
            Some(RxStage::XdpGeneric)
        } else if k == 3 {
            Some(RxStage::TcClassify)
        } else if k == 4 {
            Some(RxStage::NfIngress)
        } else if k == 5 {
            Some(RxStage::NfConntrack)
        } else if k == 6 {
            Some(RxStage::Bridging)
        } else if k == 7 {
            Some(RxStage::NfPreroutingV4)
        } else if k == 8 {
            Some(RxStage::NfPreroutingV6)
        } else if k == 9 {
            Some(RxStage::ForwardingV4)
        } else if k == 10 {
            Some(RxStage::ForwardingV6)
        } else if k == 11 {
            Some(RxStage::LocalDeliveryV4)
        } else if k == 12 {
            Some(RxStage::LocalDeliveryV6)
        } else {
            None
        }
    }

    /// The hierarchical name under which the stage is published.
    pub fn name(&self) -> (name: &'static str)
        ensures
            name@ == self.spec_name(),
    {
        match self {
            RxStage::DriverPoll => "RX softirq/Driver poll",
            RxStage::GroOverhead => "RX softirq/GRO overhead",
            RxStage::XdpGeneric => "RX softirq/XDP generic",
            RxStage::TcClassify => "RX softirq/TC classify",
            RxStage::NfIngress => "RX softirq/NF ingress",
            RxStage::NfConntrack => "RX softirq/NF conntrack",
            RxStage::Bridging => "RX softirq/Bridging",
            RxStage::NfPreroutingV4 => "RX softirq/NF prerouting/v4",
            RxStage::NfPreroutingV6 => "RX softirq/NF prerouting/v6",
            RxStage::ForwardingV4 => "RX softirq/Forwarding/v4",
            RxStage::ForwardingV6 => "RX softirq/Forwarding/v6",
            RxStage::LocalDeliveryV4 => "RX softirq/Local delivery/v4",
            RxStage::LocalDeliveryV6 => "RX softirq/Local delivery/v6",
        }
    }

    /// How many of the sampled stacks are put down to the stage.
    pub fn numerator(&self, c: &Counts) -> (n: u16)
        ensures
            n == self.spec_numerator(*c),
    {
        match self {
            RxStage::DriverPoll => c.__napi_poll.saturating_sub(c.netif_receive_skb),
            RxStage::GroOverhead => c.napi_gro_receive_overhead,
            RxStage::XdpGeneric => c.do_xdp_generic,
            RxStage::TcClassify => c.tcf_classify,
            RxStage::NfIngress => c.nf_netdev_ingress,
            RxStage::NfConntrack => c.nf_conntrack_in,
            RxStage::Bridging => c.br_handle_frame.saturating_sub(c.netif_receive_skb_sub_br),
            RxStage::NfPreroutingV4 => c.nf_prerouting_v4,
            RxStage::NfPreroutingV6 => c.nf_prerouting_v6,
            RxStage::ForwardingV4 => c.ip_forward,
            RxStage::ForwardingV6 => c.ip6_forward,
            RxStage::LocalDeliveryV4 => c.ip_local_deliver,
            RxStage::LocalDeliveryV6 => c.ip6_input,
        }
    }
}

/// The fraction of a CPU's time that went into an event: the time that the
/// event gained over the time that passed.
pub open spec fn event_fraction(gained_ns: u64, delta_t: u64) -> Ratio {
    Ratio { num: gained_ns as i128, den: delta_t as u128 }
}

/// The fraction of a CPU's time that went into a stage of receive
/// processing: the fraction of the receive softirq, times the stacks put
/// down to the stage, over the stacks that held the softirq handler.
pub open spec fn stage_fraction(stage: RxStage, rx_ns: u64, delta_t: u64, c: Counts) -> Ratio {
    Ratio {
        num: (rx_ns * stage.spec_numerator(c)) as i128,
        den: (delta_t * rx_denominator(c)) as u128,
    }
}

/// The update that reports event `e` for `cpu`.
pub open spec fn event_update(e: Event, cpu: usize, gained: EventTimes, delta_t: u64)
    -> MetricUpdateView {
    MetricUpdateView {
        name: event_name(e),
        cpuid: cpu,
        cpu_frac: event_fraction(gained.of(e), delta_t),
    }
}

/// The update that reports a stage of receive processing for `cpu`.
pub open spec fn stage_update(stage: RxStage, cpu: usize, rx_ns: u64, delta_t: u64, c: Counts)
    -> MetricUpdateView {
    MetricUpdateView {
        name: stage.spec_name(),
        cpuid: cpu,
        cpu_frac: stage_fraction(stage, rx_ns, delta_t, c),
    }
}

/// The updates that report the stages of receive processing for `cpu`.
pub open spec fn stage_updates(cpu: usize, rx_ns: u64, delta_t: u64, c: Counts) -> Seq<
    MetricUpdateView,
> {
    Seq::new(RX_STAGES as nat, |k: int| stage_update(RxStage::at(k), cpu, rx_ns, delta_t, c))
}

/// All updates of one round for `cpu`, in the order of the events; the
/// stages of receive processing come just before the receive softirq itself.
pub open spec fn cpu_updates(cpu: usize, gained: EventTimes, delta_t: u64, c: Counts) -> Seq<
    MetricUpdateView,
> {
    seq![
        event_update(Event::SockSendmsg, cpu, gained, delta_t),
        event_update(Event::SockRecvmsg, cpu, gained, delta_t),
        event_update(Event::NetTxSoftirq, cpu, gained, delta_t),
    ] + stage_updates(cpu, gained.net_rx_softirq, delta_t, c) + seq![
        event_update(Event::NetRxSoftirq, cpu, gained, delta_t),
        event_update(Event::IoWorker, cpu, gained, delta_t),
    ]
}

/// One CPU gives rise to eighteen updates, all of them for that CPU.
pub proof fn lemma_cpu_updates_shape(cpu: usize, gained: EventTimes, delta_t: u64, c: Counts)
    ensures
        cpu_updates(cpu, gained, delta_t, c).len() == UPDATES_PER_CPU,
        forall|i: int|
            0 <= i < UPDATES_PER_CPU ==> (#[trigger] cpu_updates(cpu, gained, delta_t, c)[i]).cpuid
                == cpu,
{
}

/// The fraction of an event lies between zero and one when the event gained
/// no more time than has passed.
pub proof fn lemma_event_fraction_is_unit(gained_ns: u64, delta_t: u64)
    requires
        0 < delta_t,
        gained_ns <= delta_t,
    ensures
        event_fraction(gained_ns, delta_t).is_unit_fraction(),
{
}

/// The fraction of a stage lies between zero and one when the receive
/// softirq gained no more time than has passed and the stage was seen in no
/// more stacks than the softirq handler.
pub proof fn lemma_stage_fraction_is_unit(stage: RxStage, rx_ns: u64, delta_t: u64, c: Counts)
    requires
        0 < delta_t,
        rx_ns <= delta_t,
        stage.spec_numerator(c) <= rx_denominator(c),
    ensures
        stage_fraction(stage, rx_ns, delta_t, c).is_unit_fraction(),
{
    let n = stage.spec_numerator(c);
    let d = rx_denominator(c);
    assert(0 <= rx_ns * n <= delta_t * d) by (nonlinear_arith)
        requires
            0 <= rx_ns <= delta_t,
            0 <= n <= d,
    ;
    assert(delta_t * d > 0) by (nonlinear_arith)
        requires
            delta_t > 0,
            d > 0,
    ;
    assert(delta_t * d <= 0xffff_ffff_ffff_ffff * 0xffff) by (nonlinear_arith)
        requires
            0 <= delta_t <= 0xffff_ffff_ffff_ffff,
            0 <= d <= 0xffff,
    ;
}

/// With no stack that held the softirq handler and none put down to a stage,
/// the fraction of the stage is zero over the time passed: a number, and
/// zero, whenever time has passed.
pub proof fn lemma_empty_rx_gives_zero(stage: RxStage, rx_ns: u64, delta_t: u64, c: Counts)
    requires
        c.net_rx_action == 0,
        stage.spec_numerator(c) == 0,
    ensures
        stage_fraction(stage, rx_ns, delta_t, c) == (Ratio { num: 0, den: delta_t as u128 }),
{
    assert(rx_ns * 0 == 0) by (nonlinear_arith);
    assert(delta_t * 1 == delta_t) by (nonlinear_arith);
}

/// Builds the fraction of a CPU's time that went into an event.
pub fn fraction_of_event(gained_ns: u64, delta_t: u64) -> (frac: Ratio)
    ensures
        frac == event_fraction(gained_ns, delta_t),
{
    Ratio { num: gained_ns as i128, den: delta_t as u128 }
}

/// Builds the fraction of a CPU's time that went into a stage of receive
/// processing.
pub fn fraction_of_stage(stage: RxStage, rx_ns: u64, delta_t: u64, c: &Counts) -> (frac: Ratio)
    ensures
        frac == stage_fraction(stage, rx_ns, delta_t, *c),
{
    let numerator = stage.numerator(c);
    let denominator: u16 = if c.net_rx_action >= 1 {
        c.net_rx_action
    } else {
        1
    };
    proof {
        assert(rx_ns * numerator <= 0xffff_ffff_ffff_ffff * 0xffff) by (nonlinear_arith)
            requires
                0 <= rx_ns <= 0xffff_ffff_ffff_ffff,
                0 <= numerator <= 0xffff,
        ;
        assert(delta_t * denominator <= 0xffff_ffff_ffff_ffff * 0xffff) by (nonlinear_arith)
            requires
                0 <= delta_t <= 0xffff_ffff_ffff_ffff,
                0 <= denominator <= 0xffff,
        ;
    }
    Ratio {
        num: (rx_ns as i128) * (numerator as i128),
        den: (delta_t as u128) * (denominator as u128),
    }
}

/// Appends the updates of one round for `cpu` to `updates`.
pub fn push_cpu_updates(
    updates: &mut Vec<MetricUpdate>,
    cpu: usize,
    gained: &EventTimes,
    delta_t: u64,
    c: &Counts,
)
    ensures
        updates_view(final(updates)@) == updates_view(old(updates)@) + cpu_updates(
            cpu,
            *gained,
            delta_t,
            *c,
        ),
{
    let ghost before = updates_view(updates@);
    let ghost target = cpu_updates(cpu, *gained, delta_t, *c);
    updates.push(
        MetricUpdate {
            name: Event::SockSendmsg.name(),
            cpuid: cpu,
            cpu_frac: fraction_of_event(gained.sock_sendmsg, delta_t),
        },
    );
    updates.push(
        MetricUpdate {
            name: Event::SockRecvmsg.name(),
            cpuid: cpu,
            cpu_frac: fraction_of_event(gained.sock_recvmsg, delta_t),
        },
    );
    updates.push(
        MetricUpdate {
            name: Event::NetTxSoftirq.name(),
            cpuid: cpu,
            cpu_frac: fraction_of_event(gained.net_tx_softirq, delta_t),
        },
    );
    let mut k: usize = 0;
    while k < RX_STAGES
        invariant
            k <= RX_STAGES,
            target == cpu_updates(cpu, *gained, delta_t, *c),
            updates@.len() == before.len() + 3 + k,
            forall|i: int| 0 <= i < before.len() ==> (#[trigger] updates@[i])@ == before[i],
            forall|i: int| 0 <= i < 3 + k ==> (#[trigger] updates@[before.len() + i])@ == target[i],
        decreases RX_STAGES - k,
    {
        let stage = RxStage::from_index(k).unwrap();
        updates.push(
            MetricUpdate {
                name: stage.name(),
                cpuid: cpu,
                cpu_frac: fraction_of_stage(stage, gained.net_rx_softirq, delta_t, c),
            },
        );
        k += 1;
    }
    updates.push(
        MetricUpdate {
            name: Event::NetRxSoftirq.name(),
            cpuid: cpu,
            cpu_frac: fraction_of_event(gained.net_rx_softirq, delta_t),
        },
    );
    updates.push(
        MetricUpdate {
            name: Event::IoWorker.name(),
            cpuid: cpu,
            cpu_frac: fraction_of_event(gained.io_worker, delta_t),
        },
    );
    proof {
        let now = updates_view(updates@);
        let head = seq![
            event_update(Event::SockSendmsg, cpu, *gained, delta_t),
            event_update(Event::SockRecvmsg, cpu, *gained, delta_t),
            event_update(Event::NetTxSoftirq, cpu, *gained, delta_t),
        ];
        let stages = stage_updates(cpu, gained.net_rx_softirq, delta_t, *c);
        let tail = seq![
            event_update(Event::NetRxSoftirq, cpu, *gained, delta_t),
            event_update(Event::IoWorker, cpu, *gained, delta_t),
        ];
        assert(target == head + stages + tail);
        assert(target.len() == 18);
        assert(target[16] == tail[0]);
        assert(target[17] == tail[1]);
        assert(now.len() == before.len() + 18);
        assert forall|i: int| 0 <= i < now.len() implies now[i] == (before + target)[i] by {
            if i < before.len() {
                assert(updates@[i]@ == before[i]);
            } else {
                let j = i - before.len();
                if j < 16 {
                    assert(updates@[before.len() + j]@ == target[j]);
                }
            }
        }
        assert(now =~= before + target);
    }
}

} // verus!
