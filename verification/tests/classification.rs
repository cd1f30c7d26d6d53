use netto::counts::Counts;
use netto::ksyms::KSyms;

const LISTING: &str = "\
ffffffff81000000 T _stext
ffffffff81001000 T net_rx_action
ffffffff81002000 T __napi_poll
ffffffff81003000 T netif_receive_skb
ffffffff81004000 T napi_gro_receive
ffffffff81005000 T br_handle_frame
ffffffff81006000 T nf_hook_slow
ffffffff81007000 T ip_rcv
ffffffff81008000 T ip_rcv_finish
ffffffff81009000 T ip6_rcv
ffffffff8100a000 T do_xdp_generic
ffffffff8100b000 T unrelated_function
ffffffff8100c000 t nf_conntrack_in\t[nf_conntrack]
";

const NET_RX_ACTION: u64 = 0xffffffff81001000;
const NAPI_POLL: u64 = 0xffffffff81002000;
const NETIF_RECEIVE_SKB: u64 = 0xffffffff81003000;
const NAPI_GRO_RECEIVE: u64 = 0xffffffff81004000;
const BR_HANDLE_FRAME: u64 = 0xffffffff81005000;
const NF_HOOK_SLOW: u64 = 0xffffffff81006000;
const IP_RCV: u64 = 0xffffffff81007000;
const IP_RCV_FINISH: u64 = 0xffffffff81008000;
const UNRELATED: u64 = 0xffffffff8100b000;

fn table() -> KSyms {
    KSyms::load(LISTING).expect("the listing is well formed")
}

fn counts_of(trace: &[u64]) -> Counts {
    let mut c = Counts::default();
    c.acc_trace(&table(), trace, trace.len());
    c
}

#[test]
fn single_frame_napi_poll() {
    let mut trace = vec![0u64; 127];
    trace[0] = NAPI_POLL + 0x10;
    let c = counts_of(&trace);
    let expected = Counts { __napi_poll: 1, ..Counts::default() };
    assert_eq!(c, expected);
}

#[test]
fn nf_hook_promoted_to_prerouting_v4() {
    let c = counts_of(&[NF_HOOK_SLOW + 4, IP_RCV + 8]);
    let expected = Counts { nf_prerouting_v4: 1, ..Counts::default() };
    assert_eq!(c, expected);
}

#[test]
fn nf_hook_after_rcv_finish_is_not_prerouting() {
    let c = counts_of(&[NF_HOOK_SLOW, IP_RCV_FINISH, IP_RCV]);
    assert_eq!(c, Counts::default());
}

#[test]
fn nf_hook_is_cleared_once_claimed() {
    // The hook is claimed by ip_rcv; the receive frame above it finds none.
    let c = counts_of(&[NF_HOOK_SLOW, IP_RCV, NETIF_RECEIVE_SKB]);
    let expected = Counts { nf_prerouting_v4: 1, netif_receive_skb: 1, ..Counts::default() };
    assert_eq!(c, expected);
}

#[test]
fn nf_hook_promoted_to_netdev_ingress() {
    let c = counts_of(&[NF_HOOK_SLOW, NETIF_RECEIVE_SKB]);
    let expected = Counts { nf_netdev_ingress: 1, netif_receive_skb: 1, ..Counts::default() };
    assert_eq!(c, expected);
}

#[test]
fn bridging_subtracts_prior_netif_receive_skb() {
    let c = counts_of(&[NETIF_RECEIVE_SKB + 1, BR_HANDLE_FRAME + 1]);
    assert_eq!(c.br_handle_frame, 1);
    assert_eq!(c.netif_receive_skb, 0);
    assert_eq!(c.netif_receive_skb_sub_br, 1);
    let expected =
        Counts { br_handle_frame: 1, netif_receive_skb_sub_br: 1, ..Counts::default() };
    assert_eq!(c, expected);
}

#[test]
fn gro_only_path() {
    let c = counts_of(&[NAPI_GRO_RECEIVE]);
    let expected =
        Counts { napi_gro_receive_overhead: 1, netif_receive_skb: 1, ..Counts::default() };
    assert_eq!(c, expected);
}

#[test]
fn gro_after_receive_is_no_overhead() {
    let c = counts_of(&[NETIF_RECEIVE_SKB, NAPI_GRO_RECEIVE]);
    let expected = Counts { netif_receive_skb: 1, ..Counts::default() };
    assert_eq!(c, expected);
}

#[test]
fn repeated_frames_count_once() {
    let c = counts_of(&[NAPI_POLL, NAPI_POLL + 8, NET_RX_ACTION, NET_RX_ACTION + 16]);
    let expected = Counts { __napi_poll: 1, net_rx_action: 1, ..Counts::default() };
    assert_eq!(c, expected);
}

#[test]
fn same_frame_twice_in_a_row_counts_like_once() {
    for ip in [NET_RX_ACTION, NAPI_POLL, NETIF_RECEIVE_SKB, NAPI_GRO_RECEIVE, NF_HOOK_SLOW, IP_RCV] {
        assert_eq!(counts_of(&[NF_HOOK_SLOW, ip, ip]), counts_of(&[NF_HOOK_SLOW, ip]));
    }
    assert_eq!(counts_of(&[BR_HANDLE_FRAME, BR_HANDLE_FRAME]), counts_of(&[BR_HANDLE_FRAME]));
}

#[test]
fn second_bridge_frame_finds_no_receive_to_move() {
    let once = counts_of(&[NETIF_RECEIVE_SKB, BR_HANDLE_FRAME]);
    assert_eq!(once.netif_receive_skb_sub_br, 1);
    let twice = counts_of(&[NETIF_RECEIVE_SKB, BR_HANDLE_FRAME, BR_HANDLE_FRAME]);
    let expected = Counts { br_handle_frame: 1, ..Counts::default() };
    assert_eq!(twice, expected);
}

#[test]
fn walk_stops_at_zero_word() {
    let c = counts_of(&[NAPI_POLL, 0, NET_RX_ACTION]);
    let expected = Counts { __napi_poll: 1, ..Counts::default() };
    assert_eq!(c, expected);
}

#[test]
fn walk_stops_after_max_frames() {
    let mut c = Counts::default();
    c.acc_trace(&table(), &[NAPI_POLL, NET_RX_ACTION], 1);
    let expected = Counts { __napi_poll: 1, ..Counts::default() };
    assert_eq!(c, expected);
}

#[test]
fn frames_outside_recognised_symbols_count_nothing() {
    // Before the first symbol, in an unrecognised symbol, and at the start of
    // the symbol that follows a recognised one.
    let c = counts_of(&[0x1000, UNRELATED + 4, 0xffffffff81000010]);
    assert_eq!(c, Counts::default());
}

#[test]
fn range_ends_where_next_symbol_starts() {
    let last_in = counts_of(&[NAPI_POLL + 0xfff]);
    assert_eq!(last_in.__napi_poll, 1);
    let first_out = counts_of(&[NAPI_POLL + 0x1000]);
    assert_eq!(first_out.__napi_poll, 0);
    assert_eq!(first_out.netif_receive_skb, 1);
}

#[test]
fn highest_symbol_covers_its_own_address_only() {
    let at = counts_of(&[0xffffffff8100c000]);
    assert_eq!(at.nf_conntrack_in, 1);
    let past = counts_of(&[0xffffffff8100c001]);
    assert_eq!(past, Counts::default());
}

#[test]
fn rewalking_a_trace_gives_identical_counts() {
    let trace = [NF_HOOK_SLOW, IP_RCV, NETIF_RECEIVE_SKB, BR_HANDLE_FRAME, NET_RX_ACTION];
    assert_eq!(counts_of(&trace), counts_of(&trace));
}

#[test]
fn every_flag_of_a_trace_is_zero_or_one() {
    let trace = [
        NAPI_GRO_RECEIVE,
        NF_HOOK_SLOW,
        NETIF_RECEIVE_SKB,
        NETIF_RECEIVE_SKB,
        BR_HANDLE_FRAME,
        NF_HOOK_SLOW,
        IP_RCV,
        NAPI_POLL,
        NAPI_POLL,
        NET_RX_ACTION,
    ];
    let c = counts_of(&trace);
    for v in [
        c.net_rx_action,
        c.__napi_poll,
        c.netif_receive_skb,
        c.br_handle_frame,
        c.netif_receive_skb_sub_br,
        c.do_xdp_generic,
        c.tcf_classify,
        c.ip_forward,
        c.ip6_forward,
        c.ip_local_deliver,
        c.ip6_input,
        c.nf_netdev_ingress,
        c.nf_prerouting_v4,
        c.nf_prerouting_v6,
        c.napi_gro_receive_overhead,
        c.nf_conntrack_in,
    ] {
        assert!(v <= 1);
    }
}

#[test]
fn traces_accumulate_across_calls() {
    let ks = table();
    let mut c = Counts::default();
    c.acc_trace(&ks, &[NAPI_POLL, NET_RX_ACTION], 2);
    c.acc_trace(&ks, &[NAPI_POLL, NET_RX_ACTION], 2);
    c.acc_trace(&ks, &[NET_RX_ACTION], 1);
    let expected = Counts { __napi_poll: 2, net_rx_action: 3, ..Counts::default() };
    assert_eq!(c, expected);
}

#[test]
fn counts_saturate() {
    let a = Counts { net_rx_action: u16::MAX - 1, tcf_classify: 7, ..Counts::default() };
    let b = Counts { net_rx_action: 5, tcf_classify: 8, ..Counts::default() };
    let sum = a + b;
    assert_eq!(sum.net_rx_action, u16::MAX);
    assert_eq!(sum.tcf_classify, 15);
    assert_eq!(Counts::sum(&[a, b, b]).tcf_classify, 23);
    assert_eq!(Counts::sum(&[]), Counts::default());
}
