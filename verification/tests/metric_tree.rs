use netto::collector::{MetricUpdate, MetricsCollector, SubmitUpdate};
use netto::metrics::{split_name, Metric, NetPower, Ratio};

fn frac(num: i128) -> Ratio {
    Ratio { num, den: 100 }
}

fn zero() -> Ratio {
    Ratio { num: 0, den: 1 }
}

fn names(metrics: &[Metric]) -> Vec<&str> {
    metrics.iter().map(|m| m.name.as_str()).collect()
}

#[test]
fn names_split_on_slashes() {
    assert_eq!(split_name("RX softirq/NF prerouting/v4"), vec!["RX softirq", "NF prerouting", "v4"]);
    assert_eq!(split_name("TX syscalls"), vec!["TX syscalls"]);
    assert_eq!(split_name(""), vec![""]);
    assert_eq!(split_name("a//b/"), vec!["a", "", "b", ""]);
    assert_eq!(split_name("/"), vec!["", ""]);
}

#[test]
fn new_collector_has_empty_root() {
    let c = MetricsCollector::new(4);
    assert_eq!(c.num_possible_cpus(), 4);
    assert_eq!(c.metrics_root().name, "/");
    assert!(c.metrics_root().cpu_fracs.is_empty());
    assert!(c.metrics_root().sub_metrics.is_empty());
}

#[test]
fn update_creates_missing_metrics_segment_by_segment() {
    let mut c = MetricsCollector::new(2);
    c.metric_update(&MetricUpdate {
        name: "RX softirq/NF prerouting/v4",
        cpuid: 1,
        cpu_frac: frac(7),
    });
    let root = c.metrics_root();
    assert_eq!(names(&root.sub_metrics), vec!["RX softirq"]);
    let rx = &root.sub_metrics[0];
    assert!(rx.cpu_fracs.is_empty());
    assert_eq!(names(&rx.sub_metrics), vec!["NF prerouting"]);
    let v4 = &rx.sub_metrics[0].sub_metrics[0];
    assert_eq!(v4.name, "v4");
    assert_eq!(v4.cpu_fracs, vec![zero(), frac(7)]);
    assert!(v4.sub_metrics.is_empty());
}

#[test]
fn children_keep_the_order_of_first_observation() {
    let mut c = MetricsCollector::new(1);
    for name in ["TX syscalls", "RX softirq/Bridging", "IO workers", "RX softirq", "TX syscalls"] {
        c.metric_update(&MetricUpdate { name, cpuid: 0, cpu_frac: frac(1) });
    }
    c.metric_update(&MetricUpdate { name: "RX softirq/Driver poll", cpuid: 0, cpu_frac: frac(2) });
    let root = c.metrics_root();
    assert_eq!(names(&root.sub_metrics), vec!["TX syscalls", "RX softirq", "IO workers"]);
    assert_eq!(names(&root.sub_metrics[1].sub_metrics), vec!["Bridging", "Driver poll"]);
    assert_eq!(root.sub_metrics[1].cpu_fracs, vec![frac(1)]);
}

#[test]
fn update_overwrites_one_cpu_and_keeps_the_others() {
    let mut c = MetricsCollector::new(3);
    c.metric_update(&MetricUpdate { name: "TX softirq", cpuid: 0, cpu_frac: frac(10) });
    c.metric_update(&MetricUpdate { name: "TX softirq", cpuid: 2, cpu_frac: frac(30) });
    c.metric_update(&MetricUpdate { name: "TX softirq", cpuid: 0, cpu_frac: frac(11) });
    assert_eq!(c.metrics_root().sub_metrics[0].cpu_fracs, vec![frac(11), zero(), frac(30)]);
}

#[test]
fn snapshot_copies_the_top_level_metrics() {
    let mut c = MetricsCollector::new(2);
    c.metric_update(&MetricUpdate { name: "RX softirq/Bridging", cpuid: 1, cpu_frac: frac(5) });
    c.metric_update(&MetricUpdate { name: "TX softirq", cpuid: 0, cpu_frac: frac(9) });
    let power = NetPower { socket_power_w: frac(2000), net_fraction: frac(20) };
    let snap = c.submit_update(SubmitUpdate {
        net_power_w: Some(power),
        user_space_overhead: frac(1),
        procfs_metrics: vec![frac(3); 10],
    });
    assert_eq!(snap.num_possible_cpus, 2);
    assert_eq!(snap.net_power_w, Some(power));
    assert_eq!(snap.user_space_overhead, frac(1));
    assert_eq!(snap.procfs_metrics, vec![frac(3); 10]);
    assert_eq!(names(&snap.top_level_metrics), vec!["RX softirq", "TX softirq"]);
    assert_eq!(snap.top_level_metrics[0].sub_metrics[0].name, "Bridging");
    assert_eq!(snap.top_level_metrics[0].sub_metrics[0].cpu_fracs, vec![zero(), frac(5)]);
    assert_eq!(snap.top_level_metrics[1].cpu_fracs, vec![frac(9), zero()]);

    // The snapshot is a copy: later updates do not reach it.
    c.metric_update(&MetricUpdate { name: "TX softirq", cpuid: 0, cpu_frac: frac(99) });
    assert_eq!(snap.top_level_metrics[1].cpu_fracs, vec![frac(9), zero()]);
}

#[test]
fn clone_is_deep() {
    let mut m = Metric::new("a".to_string());
    m.set_fraction(&["b".to_string(), "c".to_string()], 0, 0, frac(4), 1);
    let copy = m.clone();
    assert_eq!(copy.name, "a");
    assert_eq!(copy.sub_metrics[0].name, "b");
    assert_eq!(copy.sub_metrics[0].sub_metrics[0].cpu_fracs, vec![frac(4)]);
    assert_eq!(m.find_child(&"b".to_string()), 0);
    assert_eq!(m.find_child(&"zz".to_string()), 1);
}
