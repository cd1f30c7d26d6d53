//! The grammar that turns one kernel stack into per-trace event flags.
//!
//! A stack is walked innermost frame first. Every recognised symbol carries a
//! [`Classifier`], a small opcode that updates the per-trace [`Counts`] and two
//! scratch flags. A netfilter hook is only a pending observation until the next
//! outer frame says which hook point it was.

use vstd::prelude::*;
use crate::counts::Counts;

verus! {

/// Selects one counter of a [`Counts`] record.
#[derive(Clone, Copy, Debug, PartialEq, Eq, Structural)]
pub enum CountField {
    NetRxAction,
    NapiPoll,
    NetifReceiveSkb,
    BrHandleFrame,
    NetifReceiveSkbSubBr,
    DoXdpGeneric,
    TcfClassify,
    IpForward,
    Ip6Forward,
    IpLocalDeliver,
    Ip6Input,
    NfNetdevIngress,
    NfPreroutingV4,
    NfPreroutingV6,
    NapiGroReceiveOverhead,
    NfConntrackIn,
}

/// Scratch flags that live for the walk of a single stack.
#[derive(Clone, Copy, Debug, PartialEq, Eq, Structural)]
pub struct PerFrameProps {
    /// A netfilter hook was seen and no outer frame has claimed it yet.
    pub in_nf_hook: u16,
    /// The receive path already passed its `*_rcv_finish` stage.
    pub ip_rcv_finish: u16,
}

/// What a recognised symbol does to the state of a walk.
#[derive(Clone, Copy, Debug, PartialEq, Eq, Structural)]
pub enum Classifier {
    /// Mark the selected counter.
    Count(CountField),
    /// A frame handed to the stack: claim a pending hook as netdev ingress and
    /// mark `netif_receive_skb`.
    ReceiveSkb,
    /// As `ReceiveSkb`, and note GRO overhead when no receive was seen before.
    GroReceive,
    /// Bridging: drop a pending hook, move `netif_receive_skb` into
    /// `netif_receive_skb_sub_br`, mark `br_handle_frame`.
    Bridge,
    /// Routing decision: drop a pending hook and mark the selected counter.
    Route(CountField),
    /// A netfilter hook whose hook point is not known yet.
    NfHook,
    /// IPv4 receive: claim a pending hook as prerouting unless the finish stage
    /// was already seen.
    IpRcv,
    /// IPv6 receive, as `IpRcv`.
    Ip6Rcv,
    /// The finish stage of the receive path.
    RcvFinish,
}

/// The state carried from frame to frame while one stack is walked.
#[derive(Clone, Copy, Debug, PartialEq, Eq, Structural)]
pub struct TraceState {
    pub counts: Counts,
    pub props: PerFrameProps,
}

/// The larger of two counters.
pub open spec fn max_u16(a: u16, b: u16) -> u16 {
    if a >= b {
        a
    } else {
        b
    }
}

impl Counts {
    /// The counter that `field` selects.
    pub open spec fn field(self, field: CountField) -> u16 {
        match field {
            CountField::NetRxAction => self.net_rx_action,
            CountField::NapiPoll => self.__napi_poll,
            CountField::NetifReceiveSkb => self.netif_receive_skb,
            CountField::BrHandleFrame => self.br_handle_frame,
            CountField::NetifReceiveSkbSubBr => self.netif_receive_skb_sub_br,
            CountField::DoXdpGeneric => self.do_xdp_generic,
            CountField::TcfClassify => self.tcf_classify,
            CountField::IpForward => self.ip_forward,
            CountField::Ip6Forward => self.ip6_forward,
            CountField::IpLocalDeliver => self.ip_local_deliver,
            CountField::Ip6Input => self.ip6_input,
            CountField::NfNetdevIngress => self.nf_netdev_ingress,
            CountField::NfPreroutingV4 => self.nf_prerouting_v4,
            CountField::NfPreroutingV6 => self.nf_prerouting_v6,
            CountField::NapiGroReceiveOverhead => self.napi_gro_receive_overhead,
            CountField::NfConntrackIn => self.nf_conntrack_in,
        }
    }

    /// This record with the counter that `field` selects replaced by `value`.
    pub open spec fn with_field(self, field: CountField, value: u16) -> Counts {
        match field {
            CountField::NetRxAction => Counts { net_rx_action: value, ..self },
            CountField::NapiPoll => Counts { __napi_poll: value, ..self },
            CountField::NetifReceiveSkb => Counts { netif_receive_skb: value, ..self },
            CountField::BrHandleFrame => Counts { br_handle_frame: value, ..self },
            CountField::NetifReceiveSkbSubBr => Counts { netif_receive_skb_sub_br: value, ..self },
            CountField::DoXdpGeneric => Counts { do_xdp_generic: value, ..self },
            CountField::TcfClassify => Counts { tcf_classify: value, ..self },
            CountField::IpForward => Counts { ip_forward: value, ..self },
            CountField::Ip6Forward => Counts { ip6_forward: value, ..self },
            CountField::IpLocalDeliver => Counts { ip_local_deliver: value, ..self },
            CountField::Ip6Input => Counts { ip6_input: value, ..self },
            CountField::NfNetdevIngress => Counts { nf_netdev_ingress: value, ..self },
            CountField::NfPreroutingV4 => Counts { nf_prerouting_v4: value, ..self },
            CountField::NfPreroutingV6 => Counts { nf_prerouting_v6: value, ..self },
            CountField::NapiGroReceiveOverhead => Counts {
                napi_gro_receive_overhead: value,
                ..self
            },
            CountField::NfConntrackIn => Counts { nf_conntrack_in: value, ..self },
        }
    }

    /// Every counter is a presence flag: zero or one.
    pub open spec fn is_presence(self) -> bool {
        &&& self.net_rx_action <= 1
        &&& self.__napi_poll <= 1
        &&& self.netif_receive_skb <= 1
        &&& self.br_handle_frame <= 1
        &&& self.netif_receive_skb_sub_br <= 1
        &&& self.do_xdp_generic <= 1
        &&& self.tcf_classify <= 1
        &&& self.ip_forward <= 1
        &&& self.ip6_forward <= 1
        &&& self.ip_local_deliver <= 1
        &&& self.ip6_input <= 1
        &&& self.nf_netdev_ingress <= 1
        &&& self.nf_prerouting_v4 <= 1
        &&& self.nf_prerouting_v6 <= 1
        &&& self.napi_gro_receive_overhead <= 1
        &&& self.nf_conntrack_in <= 1
    }

    /// Reads the counter that `field` selects.
    pub fn get(&self, field: CountField) -> (value: u16)
        ensures
            value == self.field(field),
    {
        match field {
            CountField::NetRxAction => self.net_rx_action,
            CountField::NapiPoll => self.__napi_poll,
            CountField::NetifReceiveSkb => self.netif_receive_skb,
            CountField::BrHandleFrame => self.br_handle_frame,
            CountField::NetifReceiveSkbSubBr => self.netif_receive_skb_sub_br,
            CountField::DoXdpGeneric => self.do_xdp_generic,
            CountField::TcfClassify => self.tcf_classify,
            CountField::IpForward => self.ip_forward,
            CountField::Ip6Forward => self.ip6_forward,
            CountField::IpLocalDeliver => self.ip_local_deliver,
            CountField::Ip6Input => self.ip6_input,
            CountField::NfNetdevIngress => self.nf_netdev_ingress,
            CountField::NfPreroutingV4 => self.nf_prerouting_v4,
            CountField::NfPreroutingV6 => self.nf_prerouting_v6,
            CountField::NapiGroReceiveOverhead => self.napi_gro_receive_overhead,
            CountField::NfConntrackIn => self.nf_conntrack_in,
        }
    }

    /// Writes `value` to the counter that `field` selects; the others keep
    /// their values.
    pub fn set(&mut self, field: CountField, value: u16)
        ensures
            *final(self) == old(self).with_field(field, value),
    {
        match field {
            CountField::NetRxAction => self.net_rx_action = value,
            CountField::NapiPoll => self.__napi_poll = value,
            CountField::NetifReceiveSkb => self.netif_receive_skb = value,
            CountField::BrHandleFrame => self.br_handle_frame = value,
            CountField::NetifReceiveSkbSubBr => self.netif_receive_skb_sub_br = value,
            CountField::DoXdpGeneric => self.do_xdp_generic = value,
            CountField::TcfClassify => self.tcf_classify = value,
            CountField::IpForward => self.ip_forward = value,
            CountField::Ip6Forward => self.ip6_forward = value,
            CountField::IpLocalDeliver => self.ip_local_deliver = value,
            CountField::Ip6Input => self.ip6_input = value,
            CountField::NfNetdevIngress => self.nf_netdev_ingress = value,
            CountField::NfPreroutingV4 => self.nf_prerouting_v4 = value,
            CountField::NfPreroutingV6 => self.nf_prerouting_v6 = value,
            CountField::NapiGroReceiveOverhead => self.napi_gro_receive_overhead = value,
            CountField::NfConntrackIn => self.nf_conntrack_in = value,
        }
    }
}

/// Every counter of a presence record is zero or one.
pub proof fn lemma_presence_fields(c: Counts, f: CountField)
    requires
        c.is_presence(),
    ensures
        c.field(f) <= 1,
{
}

/// Marking one counter of a presence record leaves a presence record.
pub proof fn lemma_with_field_keeps_presence(c: Counts, f: CountField)
    requires
        c.is_presence(),
    ensures
        c.with_field(f, 1).is_presence(),
{
}

impl PerFrameProps {
    /// Both flags clear, as at the start of every walk.
    pub open spec fn cleared() -> PerFrameProps {
        PerFrameProps { in_nf_hook: 0, ip_rcv_finish: 0 }
    }

    /// Both flags are zero or one.
    pub open spec fn is_presence(self) -> bool {
        self.in_nf_hook <= 1 && self.ip_rcv_finish <= 1
    }
}

impl TraceState {
    /// The state in which every walk starts: nothing counted, no flag set.
    pub open spec fn start() -> TraceState {
        TraceState { counts: Counts::zero(), props: PerFrameProps::cleared() }
    }

    /// Every counter and both flags are zero or one.
    pub open spec fn is_presence(self) -> bool {
        self.counts.is_presence() && self.props.is_presence()
    }

    /// A fresh state for the walk of one stack.
    pub fn new() -> (st: TraceState)
        ensures
            st == TraceState::start(),
    {
        TraceState {
            counts: Counts::default(),
            props: PerFrameProps { in_nf_hook: 0, ip_rcv_finish: 0 },
        }
    }
}

impl Classifier {
    /// The state after a frame with this classifier was seen in state `st`.
    pub open spec fn step(self, st: TraceState) -> TraceState {
        let c = st.counts;
        let p = st.props;
        match self {
            Classifier::Count(f) => TraceState { counts: c.with_field(f, 1), props: p },
            Classifier::ReceiveSkb => TraceState {
                counts: Counts {
                    nf_netdev_ingress: max_u16(c.nf_netdev_ingress, p.in_nf_hook),
                    netif_receive_skb: 1,
                    ..c
                },
                props: PerFrameProps { in_nf_hook: 0, ..p },
            },
            Classifier::GroReceive => TraceState {
                counts: Counts {
                    nf_netdev_ingress: max_u16(c.nf_netdev_ingress, p.in_nf_hook),
                    napi_gro_receive_overhead: if c.netif_receive_skb == 0 {
                        1
                    } else {
                        c.napi_gro_receive_overhead
                    },
                    netif_receive_skb: 1,
                    ..c
                },
                props: PerFrameProps { in_nf_hook: 0, ..p },
            },
            Classifier::Bridge => TraceState {
                counts: Counts {
                    netif_receive_skb_sub_br: c.netif_receive_skb,
                    netif_receive_skb: 0,
                    br_handle_frame: 1,
                    ..c
                },
                props: PerFrameProps { in_nf_hook: 0, ..p },
            },
            Classifier::Route(f) => TraceState {
                counts: c.with_field(f, 1),
                props: PerFrameProps { in_nf_hook: 0, ..p },
            },
            Classifier::NfHook => TraceState {
                counts: c,
                props: PerFrameProps { in_nf_hook: 1, ..p },
            },
            Classifier::IpRcv => TraceState {
                counts: Counts {
                    nf_prerouting_v4: if p.ip_rcv_finish == 0 {
                        max_u16(c.nf_prerouting_v4, p.in_nf_hook)
                    } else {
                        c.nf_prerouting_v4
                    },
                    ..c
                },
                props: PerFrameProps { in_nf_hook: 0, ..p },
            },
            Classifier::Ip6Rcv => TraceState {
                counts: Counts {
                    nf_prerouting_v6: if p.ip_rcv_finish == 0 {
                        max_u16(c.nf_prerouting_v6, p.in_nf_hook)
                    } else {
                        c.nf_prerouting_v6
                    },
                    ..c
                },
                props: PerFrameProps { in_nf_hook: 0, ..p },
            },
            Classifier::RcvFinish => TraceState {
                counts: c,
                props: PerFrameProps { ip_rcv_finish: 1, ..p },
            },
        }
    }

    /// Applies this classifier to the state of a walk.
    pub fn apply(&self, st: &mut TraceState)
        ensures
            *final(st) == self.step(*old(st)),
    {
        match *self {
            Classifier::Count(f) => {
                st.counts.set(f, 1);
            },
            Classifier::ReceiveSkb => {
                if st.props.in_nf_hook > st.counts.nf_netdev_ingress {
                    st.counts.nf_netdev_ingress = st.props.in_nf_hook;
                }
                st.props.in_nf_hook = 0;
                st.counts.netif_receive_skb = 1;
            },
            Classifier::GroReceive => {
                if st.props.in_nf_hook > st.counts.nf_netdev_ingress {
                    st.counts.nf_netdev_ingress = st.props.in_nf_hook;
                }
                st.props.in_nf_hook = 0;
                if st.counts.netif_receive_skb == 0 {
                    st.counts.napi_gro_receive_overhead = 1;
                }
                st.counts.netif_receive_skb = 1;
            },
            Classifier::Bridge => {
                st.props.in_nf_hook = 0;
                st.counts.netif_receive_skb_sub_br = st.counts.netif_receive_skb;
                st.counts.netif_receive_skb = 0;
                st.counts.br_handle_frame = 1;
            },
            Classifier::Route(f) => {
                st.props.in_nf_hook = 0;
                st.counts.set(f, 1);
            },
            Classifier::NfHook => {
                st.props.in_nf_hook = 1;
            },
            Classifier::IpRcv => {
                if st.props.ip_rcv_finish == 0 && st.props.in_nf_hook > st.counts.nf_prerouting_v4 {
                    st.counts.nf_prerouting_v4 = st.props.in_nf_hook;
                }
                st.props.in_nf_hook = 0;
            },
            Classifier::Ip6Rcv => {
                if st.props.ip_rcv_finish == 0 && st.props.in_nf_hook > st.counts.nf_prerouting_v6 {
                    st.counts.nf_prerouting_v6 = st.props.in_nf_hook;
                }
                st.props.in_nf_hook = 0;
            },
            Classifier::RcvFinish => {
                st.props.ip_rcv_finish = 1;
            },
        }
    }

    /// Tells whether a frame with this classifier can raise the counter that
    /// `field` selects.
    pub open spec fn may_raise(self, field: CountField) -> bool {
        match self {
            Classifier::Count(f) => field == f,
            Classifier::Route(f) => field == f,
            Classifier::ReceiveSkb => field == CountField::NetifReceiveSkb || field
                == CountField::NfNetdevIngress,
            Classifier::GroReceive => field == CountField::NetifReceiveSkb || field
                == CountField::NfNetdevIngress || field == CountField::NapiGroReceiveOverhead,
            Classifier::Bridge => field == CountField::BrHandleFrame || field
                == CountField::NetifReceiveSkbSubBr,
            Classifier::IpRcv => field == CountField::NfPreroutingV4,
            Classifier::Ip6Rcv => field == CountField::NfPreroutingV6,
            Classifier::NfHook => false,
            Classifier::RcvFinish => false,
        }
    }

    /// A counter that is zero stays zero in a step of a classifier that
    /// cannot raise it.
    pub proof fn lemma_step_leaves_zero(self, st: TraceState, field: CountField)
        requires
            !self.may_raise(field),
            st.counts.field(field) == 0,
        ensures
            self.step(st).counts.field(field) == 0,
    {
    }

    /// Seeing the same frame twice in a row changes nothing more than seeing
    /// it once. Bridging is the exception while a receive is noted: its first
    /// frame moves the note away, so the second finds none to move.
    pub proof fn lemma_repeated_frame_changes_nothing(self, st: TraceState)
        requires
            !(self is Bridge) || st.counts.netif_receive_skb == 0,
        ensures
            self.step(self.step(st)) == self.step(st),
    {
    }

    /// A step keeps every counter and flag within zero and one.
    pub proof fn lemma_step_keeps_presence(self, st: TraceState)
        requires
            st.is_presence(),
        ensures
            self.step(st).is_presence(),
    {
        match self {
            Classifier::Count(f) => {
                lemma_with_field_keeps_presence(st.counts, f);
            },
            Classifier::Route(f) => {
                lemma_with_field_keeps_presence(st.counts, f);
            },
            _ => {},
        }
    }
}

} // verus!
