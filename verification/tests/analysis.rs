use netto::analyzer::{TickError, TraceAnalyzer};
use netto::breakdown::{fraction_of_event, fraction_of_stage, RxStage};
use netto::counts::Counts;
use netto::events::EventTimes;
use netto::ksyms::KSyms;
use netto::collector::MetricUpdate;
use netto::metrics::{NetPower, Ratio};
use netto::procstat::parse_proc_stat;
use netto::transport::{pack_header, TraceBuffer};

const LISTING: &str = "\
ffffffff81001000 T net_rx_action
ffffffff81002000 T __napi_poll
ffffffff81003000 T netif_receive_skb
ffffffff81004000 T do_xdp_generic
ffffffff81005000 T something_else
";

const NET_RX_ACTION: u64 = 0xffffffff81001000;
const NAPI_POLL: u64 = 0xffffffff81002000;
const NETIF_RECEIVE_SKB: u64 = 0xffffffff81003000;
const DO_XDP_GENERIC: u64 = 0xffffffff81004000;

const STAT: &str = "cpu  100 200 300 400 500 600 700 800 900 1000\ncpu0 1 2 3 4 5 6 7 8 9 10\n";

fn record(cpu: u32, frames: &[u64]) -> Vec<u64> {
    let mut r = vec![0u64; 128];
    r[0] = pack_header(cpu, frames.len());
    r[1..1 + frames.len()].copy_from_slice(frames);
    r
}

fn value(r: &Ratio) -> f64 {
    r.num as f64 / r.den as f64
}

fn find<'a>(updates: &'a [MetricUpdate], name: &str, cpu: usize) -> &'a MetricUpdate {
    let hits: Vec<&MetricUpdate> =
        updates.iter().filter(|u| u.name == name && u.cpuid == cpu).collect();
    assert_eq!(hits.len(), 1, "exactly one update for {name} on CPU {cpu}");
    hits[0]
}

fn analyzer(num_cpus: usize) -> TraceAnalyzer {
    TraceAnalyzer::new(num_cpus, KSyms::load(LISTING).unwrap(), 100, 0)
}

/// Ten stacks on CPU 0: all hold the softirq handler and the driver poll,
/// eight went on into the stack, four passed generic XDP.
fn ten_stacks() -> Vec<u64> {
    let mut words = Vec::new();
    for i in 0..10 {
        let frames: Vec<u64> = if i < 4 {
            vec![DO_XDP_GENERIC, NETIF_RECEIVE_SKB, NAPI_POLL, NET_RX_ACTION]
        } else if i < 8 {
            vec![NETIF_RECEIVE_SKB, NAPI_POLL, NET_RX_ACTION]
        } else {
            vec![NAPI_POLL, NET_RX_ACTION]
        };
        words.extend(record(0, &frames));
    }
    words
}

#[test]
fn tick_breaks_down_rx_softirq() {
    let mut a = analyzer(2);
    let stats = [
        EventTimes { net_rx_softirq: 100_000_000, ..EventTimes::new() },
        EventTimes::new(),
    ];
    let tick = a
        .run_interval(500_000_000, None, &ten_stacks(), Some(&stats), STAT)
        .expect("the round succeeds");

    let c = a.counts()[0];
    assert_eq!(c.net_rx_action, 10);
    assert_eq!(c.__napi_poll, 10);
    assert_eq!(c.netif_receive_skb, 8);
    assert_eq!(c.do_xdp_generic, 4);
    assert_eq!(a.counts()[1], Counts::default());

    assert_eq!(tick.delta_time_ns, 500_000_000);
    let rx = find(&tick.updates, "RX softirq", 0);
    assert_eq!(rx.cpu_frac, Ratio { num: 100_000_000, den: 500_000_000 });
    assert_eq!(value(&rx.cpu_frac), 0.20);
    let poll = find(&tick.updates, "RX softirq/Driver poll", 0);
    assert_eq!(poll.cpu_frac, Ratio { num: 200_000_000, den: 5_000_000_000 });
    assert_eq!(value(&poll.cpu_frac), 0.04);
    let xdp = find(&tick.updates, "RX softirq/XDP generic", 0);
    assert_eq!(xdp.cpu_frac, Ratio { num: 400_000_000, den: 5_000_000_000 });
    assert_eq!(value(&xdp.cpu_frac), 0.08);
}

#[test]
fn empty_rx_traces_give_zero_without_nan() {
    let mut a = analyzer(1);
    let stats = [EventTimes { net_rx_softirq: 100_000_000, ..EventTimes::new() }];
    let tick = a.run_interval(500_000_000, None, &[], Some(&stats), STAT).unwrap();
    assert_eq!(a.counts()[0].net_rx_action, 0);
    for u in tick.updates.iter().filter(|u| u.name.starts_with("RX softirq/")) {
        assert_eq!(u.cpu_frac, Ratio { num: 0, den: 500_000_000 });
        let v = value(&u.cpu_frac);
        assert!(!v.is_nan());
        assert_eq!(v, 0.0);
    }
    assert_eq!(
        tick.updates.iter().filter(|u| u.name.starts_with("RX softirq/")).count(),
        13
    );
}

#[test]
fn every_metric_is_reported_once_per_cpu_in_order() {
    let mut a = analyzer(3);
    let stats = [EventTimes::new(); 3];
    let tick = a.run_interval(1_000, None, &[], Some(&stats), STAT).unwrap();
    let names = [
        "TX syscalls",
        "RX syscalls",
        "TX softirq",
        "RX softirq/Driver poll",
        "RX softirq/GRO overhead",
        "RX softirq/XDP generic",
        "RX softirq/TC classify",
        "RX softirq/NF ingress",
        "RX softirq/NF conntrack",
        "RX softirq/Bridging",
        "RX softirq/NF prerouting/v4",
        "RX softirq/NF prerouting/v6",
        "RX softirq/Forwarding/v4",
        "RX softirq/Forwarding/v6",
        "RX softirq/Local delivery/v4",
        "RX softirq/Local delivery/v6",
        "RX softirq",
        "IO workers",
    ];
    assert_eq!(tick.updates.len(), 3 * names.len());
    for cpu in 0..3 {
        for (k, name) in names.iter().enumerate() {
            let u = &tick.updates[cpu * names.len() + k];
            assert_eq!(u.name, *name);
            assert_eq!(u.cpuid, cpu);
        }
    }
}

#[test]
fn deltas_are_taken_against_the_previous_round() {
    let mut a = analyzer(1);
    let first = [EventTimes { sock_sendmsg: 1_000, io_worker: 50, ..EventTimes::new() }];
    a.run_interval(10_000, Some(5_000_000), &[], Some(&first), STAT).unwrap();
    let second = [EventTimes { sock_sendmsg: 4_000, io_worker: 50, ..EventTimes::new() }];
    let stat2 = "cpu  150 200 300 400 500 600 700 800 900 1000\n";
    let tick = a.run_interval(30_000, Some(7_000_000), &[], Some(&second), stat2).unwrap();
    assert_eq!(tick.delta_time_ns, 20_000);
    assert_eq!(find(&tick.updates, "TX syscalls", 0).cpu_frac, Ratio { num: 3_000, den: 20_000 });
    assert_eq!(find(&tick.updates, "IO workers", 0).cpu_frac, Ratio { num: 0, den: 20_000 });
    assert_eq!(
        tick.net_power_w,
        Some(NetPower {
            socket_power_w: Ratio { num: 2_000_000 * 1000, den: 20_000 },
            net_fraction: Ratio { num: 3_000, den: 20_000 },
        })
    );
    // 50 ticks at 100 ticks per second over 20 microseconds.
    assert_eq!(tick.procfs_metrics.len(), 10);
    assert_eq!(tick.procfs_metrics[0], Ratio { num: 50 * 1_000_000_000, den: 100 * 20_000 });
    assert_eq!(tick.procfs_metrics[1], Ratio { num: 0, den: 100 * 20_000 });
}

#[test]
fn net_power_scales_socket_power_by_networking_share() {
    let mut a = analyzer(2);
    let stats = [
        EventTimes { net_rx_softirq: 100_000_000, sock_sendmsg: 50_000_000, ..EventTimes::new() },
        EventTimes { net_tx_softirq: 50_000_000, ..EventTimes::new() },
    ];
    // 10 J in half a second: 20 W for all sockets; a fifth of all CPU time
    // was networking.
    let tick = a.run_interval(500_000_000, Some(10_000_000), &[], Some(&stats), STAT).unwrap();
    let p = tick.net_power_w.expect("an energy reading was given");
    assert_eq!(p.socket_power_w, Ratio { num: 10_000_000_000, den: 500_000_000 });
    assert_eq!(p.net_fraction, Ratio { num: 200_000_000, den: 1_000_000_000 });
    assert_eq!(value(&p.socket_power_w) * value(&p.net_fraction), 4.0);
}

#[test]
fn fractions_of_a_plausible_round_lie_in_the_unit_interval() {
    let mut a = analyzer(2);
    let stats = [
        EventTimes {
            sock_sendmsg: 10_000_000,
            sock_recvmsg: 20_000_000,
            net_tx_softirq: 30_000_000,
            net_rx_softirq: 400_000_000,
            io_worker: 0,
        },
        EventTimes { net_rx_softirq: 500_000_000, ..EventTimes::new() },
    ];
    let mut words = ten_stacks();
    words.extend(record(1, &[NAPI_POLL, NET_RX_ACTION]));
    let tick = a.run_interval(500_000_000, None, &words, Some(&stats), STAT).unwrap();
    assert_eq!(tick.updates.len(), 36);
    for u in &tick.updates {
        assert!(0 <= u.cpu_frac.num);
        assert!(u.cpu_frac.den > 0);
        assert!(u.cpu_frac.num as u128 <= u.cpu_frac.den);
        let v = value(&u.cpu_frac);
        assert!((0.0..=1.0).contains(&v));
    }
    assert_eq!(value(&find(&tick.updates, "RX softirq", 1).cpu_frac), 1.0);
    assert_eq!(value(&find(&tick.updates, "RX softirq/Driver poll", 1).cpu_frac), 1.0);
}

#[test]
fn no_energy_reading_gives_no_power() {
    let mut a = analyzer(1);
    let tick = a.run_interval(1, None, &[], Some(&[EventTimes::new()]), STAT).unwrap();
    assert_eq!(tick.net_power_w, None);
}

#[test]
fn missing_per_cpu_data_fails_the_round() {
    let mut a = analyzer(1);
    let r = a.run_interval(500, None, &ten_stacks(), None, STAT);
    assert!(matches!(r, Err(TickError::MissingPerCpuData)));
    // Nothing has changed: the next round still measures from time zero.
    let tick = a.run_interval(700, None, &[], Some(&[EventTimes::new()]), STAT).unwrap();
    assert_eq!(tick.delta_time_ns, 700);
}

#[test]
fn unreadable_tick_count_fails_the_round() {
    let mut a = analyzer(1);
    let r = a.run_interval(500, None, &[], Some(&[EventTimes::new()]), "cpu 1 2 x 4\n");
    assert!(matches!(r, Err(TickError::InvalidProcStat)));
    let r = a.run_interval(500, None, &[], None, "cpu 1 2 x 4\n");
    assert!(matches!(r, Err(TickError::MissingPerCpuData)));
}

#[test]
fn counts_are_reset_every_round() {
    let mut a = analyzer(1);
    let stats = [EventTimes::new()];
    a.run_interval(1, None, &ten_stacks(), Some(&stats), STAT).unwrap();
    assert_eq!(a.counts()[0].net_rx_action, 10);
    a.run_interval(2, None, &record(0, &[NET_RX_ACTION]), Some(&stats), STAT).unwrap();
    assert_eq!(a.counts()[0].net_rx_action, 1);
}

#[test]
fn records_for_unknown_cpus_are_dropped() {
    let mut a = analyzer(2);
    let mut words = record(7, &[NET_RX_ACTION]);
    words.extend(record(1, &[NET_RX_ACTION]));
    a.drain_records(&words);
    assert_eq!(a.counts()[0], Counts::default());
    assert_eq!(a.counts()[1].net_rx_action, 1);
}

#[test]
fn user_space_overhead_is_elapsed_over_delta() {
    let mut a = analyzer(1);
    let tick = a.run_interval(500_000_000, None, &[], Some(&[EventTimes::new()]), STAT).unwrap();
    let msg = tick.submit(2_500_000);
    assert_eq!(msg.user_space_overhead, Ratio { num: 2_500_000, den: 500_000_000 });
    assert_eq!(value(&msg.user_space_overhead), 0.005);
    assert_eq!(msg.net_power_w, None);
    assert_eq!(msg.procfs_metrics.len(), 10);
}

#[test]
fn stage_fraction_formula() {
    let c = Counts {
        net_rx_action: 10,
        __napi_poll: 10,
        netif_receive_skb: 8,
        br_handle_frame: 3,
        netif_receive_skb_sub_br: 5,
        ..Counts::default()
    };
    assert_eq!(
        fraction_of_stage(RxStage::DriverPoll, 100, 500, &c),
        Ratio { num: 200, den: 5000 }
    );
    // A stage that was seen less often than what is taken off it is clamped.
    assert_eq!(fraction_of_stage(RxStage::Bridging, 100, 500, &c), Ratio { num: 0, den: 5000 });
    assert_eq!(fraction_of_event(100, 500), Ratio { num: 100, den: 500 });
    assert_eq!(RxStage::from_index(12), Some(RxStage::LocalDeliveryV6));
    assert_eq!(RxStage::from_index(13), None);
}

#[test]
fn drain_leaves_both_counters_zero() {
    let mut buf = TraceBuffer::new(4);
    assert!(buf.write(0, &[NAPI_POLL, NET_RX_ACTION]));
    assert!(buf.write(1, &[NET_RX_ACTION]));
    assert!(buf.write(0, &[NET_RX_ACTION]));
    let mut a = analyzer(2);
    a.drain(&mut buf);
    assert_eq!(a.counts()[0].net_rx_action, 2);
    assert_eq!(a.counts()[0].__napi_poll, 1);
    assert_eq!(a.counts()[1].net_rx_action, 1);
    assert_eq!(buf.count_at(0), 0);
    assert_eq!(buf.count_at(4), 0);
    assert_eq!(buf.active_slot_offset(), 4);

    // The next round reads the other slot.
    assert!(buf.write(1, &[NAPI_POLL]));
    a.reset_counts();
    a.drain(&mut buf);
    assert_eq!(a.counts()[1].__napi_poll, 1);
    assert_eq!(a.counts()[0], Counts::default());
    assert_eq!(buf.count_at(0), 0);
    assert_eq!(buf.count_at(4), 0);
    assert_eq!(buf.active_slot_offset(), 0);
}

#[test]
fn round_on_a_store_swaps_drains_and_zeroes() {
    let mut buf = TraceBuffer::new(16);
    for _ in 0..3 {
        assert!(buf.write(0, &[NAPI_POLL, NET_RX_ACTION]));
    }
    let mut a = analyzer(1);
    let stats = [EventTimes { net_rx_softirq: 300, ..EventTimes::new() }];
    let tick = a.tick(&mut buf, 1_000, None, Some(&stats), STAT).unwrap();
    assert_eq!(a.counts()[0].net_rx_action, 3);
    assert_eq!(
        find(&tick.updates, "RX softirq/Driver poll", 0).cpu_frac,
        Ratio { num: 900, den: 3_000 }
    );
    assert_eq!(buf.active_slot_offset(), 16);
    assert_eq!(buf.count_at(0), 0);
    assert_eq!(buf.count_at(16), 0);

    // What is written during the next period lands in the other slot.
    assert!(buf.write(0, &[NET_RX_ACTION]));
    assert_eq!(buf.count_at(16), 1);
    let tick = a.tick(&mut buf, 2_000, None, Some(&stats), STAT).unwrap();
    assert_eq!(a.counts()[0].net_rx_action, 1);
    assert_eq!(a.counts()[0].__napi_poll, 0);
    assert_eq!(find(&tick.updates, "RX softirq", 0).cpu_frac, Ratio { num: 0, den: 1_000 });
    assert_eq!(buf.active_slot_offset(), 0);
    assert_eq!(buf.count_at(0), 0);
    assert_eq!(buf.count_at(16), 0);
}

#[test]
fn failed_round_on_a_store_keeps_the_records() {
    let mut buf = TraceBuffer::new(4);
    assert!(buf.write(0, &[NET_RX_ACTION]));
    let mut a = analyzer(1);
    let r = a.tick(&mut buf, 1_000, None, None, STAT);
    assert!(matches!(r, Err(TickError::MissingPerCpuData)));
    assert_eq!(a.counts()[0], Counts::default());
    assert_eq!(buf.active_slot_offset(), 4);
    assert_eq!(buf.count_at(0), 1);
    assert_eq!(buf.records(0, 1).len(), 128);
}

#[test]
fn proc_stat_first_line_only_and_ten_counts_at_most() {
    assert_eq!(
        parse_proc_stat(b"cpu  1 2 3 4 5 6 7 8 9 10 11 12\ncpu0 9 9\n"),
        Some(vec![1, 2, 3, 4, 5, 6, 7, 8, 9, 10])
    );
    assert_eq!(parse_proc_stat(b"cpu 5 -6 +7"), Some(vec![5, -6, 7]));
    assert_eq!(parse_proc_stat(b""), Some(vec![]));
    assert_eq!(parse_proc_stat(b"cpu\n1 2 3\n"), Some(vec![]));
    assert_eq!(parse_proc_stat(b"cpu 1 2x 3\n"), None);
    assert_eq!(parse_proc_stat(b"cpu 9223372036854775807 -9223372036854775808"),
        Some(vec![i64::MAX, i64::MIN]));
    assert_eq!(parse_proc_stat(b"cpu 9223372036854775808"), None);
    assert_eq!(parse_proc_stat(b"cpu -"), None);
    // What lies past the tenth count is not looked at.
    assert_eq!(
        parse_proc_stat(b"cpu 1 2 3 4 5 6 7 8 9 10 oops"),
        Some(vec![1, 2, 3, 4, 5, 6, 7, 8, 9, 10])
    );
}
