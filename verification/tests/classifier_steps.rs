use netto::classifier::{Classifier, CountField, PerFrameProps, TraceState};
use netto::counts::Counts;

const FIELDS: [CountField; 16] = [
    CountField::NetRxAction,
    CountField::NapiPoll,
    CountField::NetifReceiveSkb,
    CountField::BrHandleFrame,
    CountField::NetifReceiveSkbSubBr,
    CountField::DoXdpGeneric,
    CountField::TcfClassify,
    CountField::IpForward,
    CountField::Ip6Forward,
    CountField::IpLocalDeliver,
    CountField::Ip6Input,
    CountField::NfNetdevIngress,
    CountField::NfPreroutingV4,
    CountField::NfPreroutingV6,
    CountField::NapiGroReceiveOverhead,
    CountField::NfConntrackIn,
];

#[test]
fn fresh_state_is_all_zero() {
    let st = TraceState::new();
    assert_eq!(st.counts, Counts::default());
    assert_eq!(st.props, PerFrameProps { in_nf_hook: 0, ip_rcv_finish: 0 });
}

#[test]
fn selectors_reach_distinct_counters() {
    for (i, f) in FIELDS.iter().enumerate() {
        let mut c = Counts::default();
        c.set(*f, 7);
        for (j, g) in FIELDS.iter().enumerate() {
            assert_eq!(c.get(*g), if i == j { 7 } else { 0 });
        }
    }
    let mut c = Counts::default();
    c.set(CountField::NapiPoll, 3);
    assert_eq!(c.__napi_poll, 3);
    c.set(CountField::NfConntrackIn, 4);
    assert_eq!(c.nf_conntrack_in, 4);
}

#[test]
fn count_marks_its_counter() {
    let mut st = TraceState::new();
    Classifier::Count(CountField::TcfClassify).apply(&mut st);
    Classifier::Count(CountField::TcfClassify).apply(&mut st);
    assert_eq!(st.counts, Counts { tcf_classify: 1, ..Counts::default() });
    assert_eq!(st.props, PerFrameProps { in_nf_hook: 0, ip_rcv_finish: 0 });
}

#[test]
fn route_drops_a_pending_hook() {
    for (field, expected) in [
        (CountField::IpForward, Counts { ip_forward: 1, ..Counts::default() }),
        (CountField::Ip6Forward, Counts { ip6_forward: 1, ..Counts::default() }),
        (CountField::IpLocalDeliver, Counts { ip_local_deliver: 1, ..Counts::default() }),
        (CountField::Ip6Input, Counts { ip6_input: 1, ..Counts::default() }),
    ] {
        let mut st = TraceState::new();
        Classifier::NfHook.apply(&mut st);
        assert_eq!(st.props.in_nf_hook, 1);
        Classifier::Route(field).apply(&mut st);
        assert_eq!(st.props.in_nf_hook, 0);
        assert_eq!(st.counts, expected);
    }
}

#[test]
fn bridge_moves_the_receive_flag() {
    let mut st = TraceState::new();
    Classifier::NfHook.apply(&mut st);
    Classifier::Bridge.apply(&mut st);
    assert_eq!(st.counts, Counts { br_handle_frame: 1, ..Counts::default() });
    assert_eq!(st.props.in_nf_hook, 0);
    Classifier::ReceiveSkb.apply(&mut st);
    Classifier::Bridge.apply(&mut st);
    assert_eq!(
        st.counts,
        Counts { br_handle_frame: 1, netif_receive_skb_sub_br: 1, ..Counts::default() }
    );
}

#[test]
fn v6_receive_claims_prerouting_v6() {
    let mut st = TraceState::new();
    Classifier::NfHook.apply(&mut st);
    Classifier::Ip6Rcv.apply(&mut st);
    assert_eq!(st.counts, Counts { nf_prerouting_v6: 1, ..Counts::default() });
    assert_eq!(st.props.in_nf_hook, 0);

    let mut st = TraceState::new();
    Classifier::RcvFinish.apply(&mut st);
    assert_eq!(st.props.ip_rcv_finish, 1);
    Classifier::NfHook.apply(&mut st);
    Classifier::Ip6Rcv.apply(&mut st);
    assert_eq!(st.counts, Counts::default());
    assert_eq!(st.props, PerFrameProps { in_nf_hook: 0, ip_rcv_finish: 1 });
}

#[test]
fn receive_without_pending_hook_keeps_ingress() {
    let mut st = TraceState::new();
    Classifier::NfHook.apply(&mut st);
    Classifier::GroReceive.apply(&mut st);
    assert_eq!(
        st.counts,
        Counts {
            nf_netdev_ingress: 1,
            napi_gro_receive_overhead: 1,
            netif_receive_skb: 1,
            ..Counts::default()
        }
    );
    Classifier::ReceiveSkb.apply(&mut st);
    assert_eq!(st.counts.nf_netdev_ingress, 1);
    assert_eq!(st.props.in_nf_hook, 0);
}
