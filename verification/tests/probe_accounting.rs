use netto::events::{Event, EventTimes};
use netto::probe::{CpuProbe, TaskState};
use netto::transport::{unpack_header, TraceBuffer};

fn idle_task() -> TaskState {
    TaskState { in_event: None }
}

#[test]
fn interval_is_added_on_exit() {
    let mut p = CpuProbe::new();
    let mut t = idle_task();
    p.enter(&mut t, Event::NetRxSoftirq, 1_000);
    assert_eq!(t.in_event, Some(Event::NetRxSoftirq));
    assert_eq!(p.prev_ts.net_rx_softirq, 1_000);
    assert_eq!(p.total_time, EventTimes::new());
    p.exit(&mut t, Event::NetRxSoftirq, 1_750);
    assert_eq!(t.in_event, None);
    assert_eq!(p.prev_ts.net_rx_softirq, 0);
    assert_eq!(p.total_time.net_rx_softirq, 750);
    p.enter(&mut t, Event::NetRxSoftirq, 2_000);
    p.exit(&mut t, Event::NetRxSoftirq, 2_100);
    assert_eq!(p.total_time.net_rx_softirq, 850);
    assert_eq!(p.total_time.get(Event::SockSendmsg), 0);
}

#[test]
fn entry_during_an_interval_keeps_its_start() {
    let mut p = CpuProbe::new();
    let mut t = idle_task();
    p.enter(&mut t, Event::SockSendmsg, 100);
    p.enter(&mut t, Event::SockSendmsg, 150);
    assert_eq!(p.prev_ts.sock_sendmsg, 100);
    p.exit(&mut t, Event::SockSendmsg, 300);
    assert_eq!(p.total_time.sock_sendmsg, 200);
}

#[test]
fn exit_without_interval_changes_nothing() {
    let mut p = CpuProbe::new();
    let mut t = idle_task();
    p.exit(&mut t, Event::IoWorker, 500);
    assert_eq!(p, CpuProbe::new());
}

#[test]
fn time_off_cpu_is_not_accounted() {
    let mut p = CpuProbe::new();
    let mut t = idle_task();
    p.enter(&mut t, Event::SockRecvmsg, 1_000);
    p.switch_out(&t, 1_200);
    assert_eq!(p.total_time.sock_recvmsg, 200);
    assert_eq!(p.prev_ts.sock_recvmsg, 0);
    assert!(!p.is_in_event());
    // Another task runs meanwhile; switching it in and out accounts nothing.
    let other = idle_task();
    p.switch_in(&other, 1_200);
    p.switch_out(&other, 5_000);
    assert_eq!(p.total_time.sock_recvmsg, 200);
    p.switch_in(&t, 5_000);
    assert_eq!(p.prev_ts.sock_recvmsg, 5_000);
    p.exit(&mut t, Event::SockRecvmsg, 5_300);
    assert_eq!(p.total_time.sock_recvmsg, 500);
}

#[test]
fn total_time_never_decreases() {
    let mut p = CpuProbe::new();
    let mut t = idle_task();
    let mut last = 0;
    // The clock of the last exit lies before the entry: no time is added.
    for (enter, exit) in [(10u64, 20u64), (30, 31), (40, 40), (u64::MAX - 1, u64::MAX), (50, 7)] {
        p.enter(&mut t, Event::NetTxSoftirq, enter);
        p.exit(&mut t, Event::NetTxSoftirq, exit);
        assert!(p.total_time.net_tx_softirq >= last);
        last = p.total_time.net_tx_softirq;
    }
    assert_eq!(last, 10 + 1 + 0 + 1 + 0);
}

#[test]
fn total_time_sticks_at_the_largest_value() {
    let mut p = CpuProbe::new();
    p.total_time.io_worker = u64::MAX - 5;
    let mut t = idle_task();
    p.enter(&mut t, Event::IoWorker, 1);
    p.exit(&mut t, Event::IoWorker, 100);
    assert_eq!(p.total_time.io_worker, u64::MAX);
}

#[test]
fn samples_are_taken_only_inside_events() {
    let mut buf = TraceBuffer::new(1);
    let mut p = CpuProbe::new();
    let mut t = idle_task();
    assert!(!p.sample(&mut buf, 3, &[0xabc]));
    assert_eq!(buf.count_at(0), 0);
    p.enter(&mut t, Event::NetRxSoftirq, 10);
    assert!(p.is_in_event());
    assert!(p.sample(&mut buf, 3, &[0xabc, 0xdef]));
    assert_eq!(buf.count_at(0), 1);
    assert_eq!(unpack_header(buf.record(0)[0]), (2, 3));
    // The slot is full: the sample is dropped.
    assert!(!p.sample(&mut buf, 3, &[0x123]));
    assert_eq!(buf.count_at(0), 1);
    assert_eq!(buf.record(0)[1], 0xabc);
}

#[test]
fn events_are_numbered_in_a_fixed_order() {
    let all = [
        Event::SockSendmsg,
        Event::SockRecvmsg,
        Event::NetTxSoftirq,
        Event::NetRxSoftirq,
        Event::IoWorker,
    ];
    for (i, e) in all.iter().enumerate() {
        assert_eq!(e.index(), i);
        assert_eq!(Event::from_index(i), Some(*e));
    }
    assert_eq!(Event::from_index(5), None);
    assert_eq!(Event::NetRxSoftirq.name(), "RX softirq");
    assert_eq!(Event::SockSendmsg.name(), "TX syscalls");
    assert_eq!(Event::SockRecvmsg.name(), "RX syscalls");
    assert_eq!(Event::NetTxSoftirq.name(), "TX softirq");
    assert_eq!(Event::IoWorker.name(), "IO workers");
}

#[test]
fn gains_are_clamped_at_zero() {
    let now = EventTimes { sock_sendmsg: 10, sock_recvmsg: 5, ..EventTimes::new() };
    let prev = EventTimes { sock_sendmsg: 4, sock_recvmsg: 9, ..EventTimes::new() };
    let gained = now.elapsed_since(&prev);
    assert_eq!(gained, EventTimes { sock_sendmsg: 6, ..EventTimes::new() });
    let mut t = EventTimes::new();
    t.set(Event::IoWorker, 9);
    assert_eq!(t.get(Event::IoWorker), 9);
    assert_eq!(t.io_worker, 9);
}
