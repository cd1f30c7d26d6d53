//! Per-CPU tallies of the semantic events recognised in sampled kernel stacks.

use vstd::prelude::*;
use vstd::std_specs::ops::AddSpecImpl;

verus! {

/// Sum of two counters that sticks at `u16::MAX` instead of wrapping.
pub open spec fn sat_add(a: u16, b: u16) -> u16 {
    if a + b > u16::MAX {
        u16::MAX
    } else {
        (a + b) as u16
    }
}

/// Counts instances of symbols in stack traces.
#[allow(non_snake_case)]
#[derive(Clone, Copy, Debug, PartialEq, Eq, Structural)]
pub struct Counts {
    pub net_rx_action: u16,
    pub __napi_poll: u16,
    /// Catch-all for any function that submits frames to the network stack.
    pub netif_receive_skb: u16,
    pub br_handle_frame: u16,
    /// `netif_receive_skb` when called by `br_handle_frame`.
    pub netif_receive_skb_sub_br: u16,
    pub do_xdp_generic: u16,
    pub tcf_classify: u16,
    pub ip_forward: u16,
    pub ip6_forward: u16,
    pub ip_local_deliver: u16,
    pub ip6_input: u16,
    pub nf_netdev_ingress: u16,
    pub nf_prerouting_v4: u16,
    pub nf_prerouting_v6: u16,
    pub napi_gro_receive_overhead: u16,
    pub nf_conntrack_in: u16,
}

impl Counts {
    /// The record with every counter at zero.
    pub open spec fn zero() -> Counts {
        Counts {
            net_rx_action: 0,
            __napi_poll: 0,
            netif_receive_skb: 0,
            br_handle_frame: 0,
            netif_receive_skb_sub_br: 0,
            do_xdp_generic: 0,
            tcf_classify: 0,
            ip_forward: 0,
            ip6_forward: 0,
            ip_local_deliver: 0,
            ip6_input: 0,
            nf_netdev_ingress: 0,
            nf_prerouting_v4: 0,
            nf_prerouting_v6: 0,
            napi_gro_receive_overhead: 0,
            nf_conntrack_in: 0,
        }
    }

    /// Field-wise saturating sum.
    pub open spec fn plus(self, rhs: Counts) -> Counts {
        Counts {
            net_rx_action: sat_add(self.net_rx_action, rhs.net_rx_action),
            __napi_poll: sat_add(self.__napi_poll, rhs.__napi_poll),
            netif_receive_skb: sat_add(self.netif_receive_skb, rhs.netif_receive_skb),
            br_handle_frame: sat_add(self.br_handle_frame, rhs.br_handle_frame),
            netif_receive_skb_sub_br: sat_add(
                self.netif_receive_skb_sub_br,
                rhs.netif_receive_skb_sub_br,
            ),
            do_xdp_generic: sat_add(self.do_xdp_generic, rhs.do_xdp_generic),
            tcf_classify: sat_add(self.tcf_classify, rhs.tcf_classify),
            ip_forward: sat_add(self.ip_forward, rhs.ip_forward),
            ip6_forward: sat_add(self.ip6_forward, rhs.ip6_forward),
            ip_local_deliver: sat_add(self.ip_local_deliver, rhs.ip_local_deliver),
            ip6_input: sat_add(self.ip6_input, rhs.ip6_input),
            nf_netdev_ingress: sat_add(self.nf_netdev_ingress, rhs.nf_netdev_ingress),
            nf_prerouting_v4: sat_add(self.nf_prerouting_v4, rhs.nf_prerouting_v4),
            nf_prerouting_v6: sat_add(self.nf_prerouting_v6, rhs.nf_prerouting_v6),
            napi_gro_receive_overhead: sat_add(
                self.napi_gro_receive_overhead,
                rhs.napi_gro_receive_overhead,
            ),
            nf_conntrack_in: sat_add(self.nf_conntrack_in, rhs.nf_conntrack_in),
        }
    }
}

/// The saturating sum of a sequence of records, taken left to right.
pub open spec fn sum_counts(items: Seq<Counts>) -> Counts
    decreases items.len(),
{
    if items.len() == 0 {
        Counts::zero()
    } else {
        sum_counts(items.drop_last()).plus(items.last())
    }
}

impl Counts {
    /// Adds `rhs` to this record, counter by counter, saturating.
    pub fn add_assign(&mut self, rhs: Counts)
        ensures
            *final(self) == old(self).plus(rhs),
    {
        *self = *self + rhs;
    }

    /// The saturating sum of all the records of `items`; all zero for none.
    pub fn sum(items: &[Counts]) -> (total: Counts)
        ensures
            total == sum_counts(items@),
    {
        let mut total = Counts::default();
        let mut i: usize = 0;
        while i < items.len()
            invariant
                i <= items.len(),
                total == sum_counts(items@.take(i as int)),
            decreases items.len() - i,
        {
            proof {
                assert(items@.take(i + 1).drop_last() =~= items@.take(i as int));
            }
            total.add_assign(items[i]);
            i += 1;
        }
        proof {
            assert(items@.take(i as int) =~= items@);
        }
        total
    }
}

impl Default for Counts {
    fn default() -> (c: Counts)
        ensures
            c == Counts::zero(),
    {
        Counts {
            net_rx_action: 0,
            __napi_poll: 0,
            netif_receive_skb: 0,
            br_handle_frame: 0,
            netif_receive_skb_sub_br: 0,
            do_xdp_generic: 0,
            tcf_classify: 0,
            ip_forward: 0,
            ip6_forward: 0,
            ip_local_deliver: 0,
            ip6_input: 0,
            nf_netdev_ingress: 0,
            nf_prerouting_v4: 0,
            nf_prerouting_v6: 0,
            napi_gro_receive_overhead: 0,
            nf_conntrack_in: 0,
        }
    }
}

impl AddSpecImpl for Counts {
    open spec fn obeys_add_spec() -> bool {
        true
    }

    open spec fn add_req(self, rhs: Counts) -> bool {
        true
    }

    open spec fn add_spec(self, rhs: Counts) -> Counts {
        self.plus(rhs)
    }
}

impl std::ops::Add for Counts {
    type Output = Counts;

    fn add(self, rhs: Counts) -> (sum: Counts) {
        Counts {
            net_rx_action: self.net_rx_action.saturating_add(rhs.net_rx_action),
            __napi_poll: self.__napi_poll.saturating_add(rhs.__napi_poll),
            netif_receive_skb: self.netif_receive_skb.saturating_add(rhs.netif_receive_skb),
            br_handle_frame: self.br_handle_frame.saturating_add(rhs.br_handle_frame),
            netif_receive_skb_sub_br: self.netif_receive_skb_sub_br.saturating_add(
                rhs.netif_receive_skb_sub_br,
            ),
            do_xdp_generic: self.do_xdp_generic.saturating_add(rhs.do_xdp_generic),
            tcf_classify: self.tcf_classify.saturating_add(rhs.tcf_classify),
            ip_forward: self.ip_forward.saturating_add(rhs.ip_forward),
            ip6_forward: self.ip6_forward.saturating_add(rhs.ip6_forward),
            ip_local_deliver: self.ip_local_deliver.saturating_add(rhs.ip_local_deliver),
            ip6_input: self.ip6_input.saturating_add(rhs.ip6_input),
            nf_netdev_ingress: self.nf_netdev_ingress.saturating_add(rhs.nf_netdev_ingress),
            nf_prerouting_v4: self.nf_prerouting_v4.saturating_add(rhs.nf_prerouting_v4),
            nf_prerouting_v6: self.nf_prerouting_v6.saturating_add(rhs.nf_prerouting_v6),
            napi_gro_receive_overhead: self.napi_gro_receive_overhead.saturating_add(
                rhs.napi_gro_receive_overhead,
            ),
            nf_conntrack_in: self.nf_conntrack_in.saturating_add(rhs.nf_conntrack_in),
        }
    }
}

} // verus!
