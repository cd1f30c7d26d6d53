use netto::analyzer::total_energy;
use netto::exposition::flatten_name;
use netto::logfile::{encode_header, encode_record};
use netto::collector::MetricsCollector;
use netto::sizing::stack_traces_max_entries;

#[test]
fn default_sizing() {
    // 1000 Hz on one CPU for half a second: 500 samples, 550 with a tenth on
    // top, twice that for the two slots.
    assert_eq!(stack_traces_max_entries(1000, 1, 500), Some(1100));
    assert_eq!(stack_traces_max_entries(1000, 8, 500), Some(8800));
}

#[test]
fn sizing_rounds_up() {
    // 3 samples in a period: 3.3 with the margin, 4 records, 8 for two slots.
    assert_eq!(stack_traces_max_entries(3, 1, 1000), Some(8));
    assert_eq!(stack_traces_max_entries(1, 1, 1), Some(2));
    assert_eq!(stack_traces_max_entries(10, 1, 1000), Some(22));
}

#[test]
fn sizing_of_nothing_is_zero() {
    assert_eq!(stack_traces_max_entries(0, 4, 500), Some(0));
    assert_eq!(stack_traces_max_entries(1000, 0, 500), Some(0));
    assert_eq!(stack_traces_max_entries(u64::MAX, usize::MAX, 0), Some(0));
}

#[test]
fn sizing_that_does_not_fit_is_refused() {
    assert_eq!(stack_traces_max_entries(u64::MAX, 1, 1), None);
    assert_eq!(stack_traces_max_entries(1, usize::MAX, 1), None);
    assert_eq!(stack_traces_max_entries(1_000_000, 1_000, 1_000_000), None);
    // The largest number that fits: 2147483647 records per slot.
    assert_eq!(stack_traces_max_entries(1_952_257_860, 1, 1000), Some(4_294_967_292));
    assert_eq!(stack_traces_max_entries(1_952_257_862, 1, 1000), None);
}

#[test]
fn every_slot_has_a_tenth_of_headroom() {
    for (f, c, p) in [(1000u64, 1usize, 500u64), (997, 3, 501), (1, 1, 1), (4999, 64, 250)] {
        let n = stack_traces_max_entries(f, c, p).unwrap() as u128;
        let samples_x1000 = f as u128 * c as u128 * p as u128;
        assert!((n / 2) * 10 * 1000 >= 11 * samples_x1000);
        assert_eq!(n % 2, 0);
    }
}

#[test]
fn log_header_is_the_period_least_significant_byte_first() {
    assert_eq!(encode_header(500), vec![0xf4, 0x01, 0, 0, 0, 0, 0, 0]);
    assert_eq!(encode_header(0x0102030405060708), vec![8, 7, 6, 5, 4, 3, 2, 1]);
}

#[test]
fn log_record_is_length_then_snapshot() {
    assert_eq!(encode_record(&[0xaa, 0xbb, 0xcc]), Some(vec![3, 0, 0, 0, 0xaa, 0xbb, 0xcc]));
    assert_eq!(encode_record(&[]), Some(vec![0, 0, 0, 0]));
    let long = vec![7u8; 0x1_02];
    let rec = encode_record(&long).unwrap();
    assert_eq!(&rec[..4], &[0x02, 0x01, 0, 0]);
    assert_eq!(&rec[4..], &long[..]);
}

#[test]
fn names_are_flattened_for_exposition() {
    assert_eq!(flatten_name("RX softirq/NF prerouting/v4"), "rx_softirq__nf_prerouting__v4");
    assert_eq!(flatten_name("TX syscalls"), "tx_syscalls");
    assert_eq!(flatten_name("IO workers"), "io_workers");
    assert_eq!(flatten_name(""), "");
    assert_eq!(flatten_name("AZaz09_@[`{"), "azaz09_@[`{");
    // Only ASCII capitals are lowered.
    assert_eq!(flatten_name("\u{c9}t\u{e9} / X"), "\u{c9}t\u{e9}____x");
}

#[test]
fn energy_of_all_sockets_is_added_up() {
    assert_eq!(total_energy(&[]), 0);
    assert_eq!(total_energy(&[5, 7, 11]), 23);
    assert_eq!(total_energy(&[u64::MAX - 1, 1]), u64::MAX);
    assert_eq!(total_energy(&[u64::MAX, 1, 2]), u64::MAX);
}

#[test]
fn subscribers_form_a_set() {
    let mut c = MetricsCollector::new(1);
    assert!(!c.has_clients());
    c.client_connected(7);
    c.client_connected(9);
    c.client_connected(7);
    assert!(c.has_clients());
    assert!(c.is_subscribed(7));
    assert!(c.is_subscribed(9));
    assert!(!c.is_subscribed(8));
    let mut ids = c.clients().to_vec();
    ids.sort();
    assert_eq!(ids, vec![7, 9]);
    c.client_disconnected(7);
    assert!(!c.is_subscribed(7));
    assert_eq!(c.clients(), &[9]);
    c.client_disconnected(7);
    c.client_disconnected(9);
    assert!(!c.has_clients());
    assert!(c.clients().is_empty());
}
