use netto::collector::{MetricUpdate, MetricsCollector, SubmitUpdate};
use netto::metrics::{Metric, MetricsWrapper, NetPower, Ratio};

// A snapshot in terms of types that serialise as they stand. A structure is
// put on the wire as the sequence of its fields, so a tuple stands for it.
type Leaf = (String, Vec<f64>, Vec<()>);
type Inner = (String, Vec<f64>, Vec<Leaf>);
type Top = (String, Vec<f64>, Vec<Inner>);
type Snapshot = (Vec<Top>, Option<f64>, f64, usize, Vec<f64>);

fn value(r: &Ratio) -> f64 {
    r.num as f64 / r.den as f64
}

fn values(fracs: &[Ratio]) -> Vec<f64> {
    fracs.iter().map(value).collect()
}

fn leaf(m: &Metric) -> Leaf {
    assert!(m.sub_metrics.is_empty());
    (m.name.clone(), values(&m.cpu_fracs), vec![])
}

fn inner(m: &Metric) -> Inner {
    (m.name.clone(), values(&m.cpu_fracs), m.sub_metrics.iter().map(leaf).collect())
}

fn top(m: &Metric) -> Top {
    (m.name.clone(), values(&m.cpu_fracs), m.sub_metrics.iter().map(inner).collect())
}

fn on_the_wire(w: &MetricsWrapper) -> Snapshot {
    (
        w.top_level_metrics.iter().map(top).collect(),
        w.net_power_w.map(|p| value(&p.socket_power_w) * value(&p.net_fraction)),
        value(&w.user_space_overhead),
        w.num_possible_cpus,
        values(&w.procfs_metrics),
    )
}

fn snapshot(net_power_w: Option<NetPower>) -> MetricsWrapper {
    let mut c = MetricsCollector::new(2);
    let updates = [
        ("TX syscalls", 0, 1),
        ("TX syscalls", 1, 2),
        ("RX softirq/Driver poll", 0, 3),
        ("RX softirq/NF prerouting/v4", 1, 4),
        ("RX softirq/NF prerouting/v6", 0, 5),
        ("RX softirq", 0, 60),
        ("RX softirq", 1, 70),
        ("IO workers", 1, 0),
    ];
    for (name, cpuid, num) in updates {
        c.metric_update(&MetricUpdate { name, cpuid, cpu_frac: Ratio { num, den: 128 } });
    }
    c.submit_update(SubmitUpdate {
        net_power_w,
        user_space_overhead: Ratio { num: 3, den: 1024 },
        procfs_metrics: (0..10).map(|i| Ratio { num: i - 2, den: 64 }).collect(),
    })
}

#[test]
fn snapshot_survives_encoding_and_decoding() {
    let power = NetPower {
        socket_power_w: Ratio { num: 45, den: 2 },
        net_fraction: Ratio { num: 1, den: 8 },
    };
    for net_power_w in [Some(power), None] {
        let sent = on_the_wire(&snapshot(net_power_w));
        let bytes = rmp_serde::to_vec(&sent).unwrap();
        let received: Snapshot = rmp_serde::from_slice(&bytes).unwrap();
        assert_eq!(received, sent);
        assert_eq!(received.0.len(), 3);
        assert_eq!(received.0[1].0, "RX softirq");
        assert_eq!(received.0[1].1, vec![60.0 / 128.0, 70.0 / 128.0]);
        assert_eq!(received.0[1].2[1].2[0], ("v4".to_string(), vec![0.0, 4.0 / 128.0], vec![]));
        assert_eq!(received.1, net_power_w.map(|_| 22.5 * 0.125));
        assert_eq!(received.2, 3.0 / 1024.0);
        assert_eq!(received.3, 2);
        assert_eq!(received.4.len(), 10);
        assert_eq!(received.4[0], -2.0 / 64.0);
    }
}

#[test]
fn truncated_snapshot_is_refused() {
    let bytes = rmp_serde::to_vec(&on_the_wire(&snapshot(None))).unwrap();
    assert!(rmp_serde::from_slice::<Snapshot>(&bytes[..bytes.len() - 1]).is_err());
    assert!(rmp_serde::from_slice::<Snapshot>(&[]).is_err());
}
