//! The collector: it takes in the updates of the analysis, keeps the metric
//! tree, and builds the snapshots that go out to the subscribers.

use vstd::prelude::*;
use vstd::string::StringExecFns;
use crate::metrics::{
    clone_metrics, leaf, lemma_view_children, split_name, split_path, views_of, with_fraction,
    Metric, MetricView, MetricsWrapper, NetPower, Ratio,
};

verus! {

/// An update for a single metric on a single CPU.
#[derive(Clone, Copy, Debug)]
pub struct MetricUpdate {
    /// Hierarchical name of the metric, for example `RX softirq/Bridging`.
    pub name: &'static str,
    /// Index of the CPU that the update is for.
    pub cpuid: usize,
    /// Fraction of that CPU's time.
    pub cpu_frac: Ratio,
}

/// An update as contracts see it.
pub struct MetricUpdateView {
    pub name: Seq<char>,
    pub cpuid: usize,
    pub cpu_frac: Ratio,
}

impl View for MetricUpdate {
    type V = MetricUpdateView;

    open spec fn view(&self) -> MetricUpdateView {
        MetricUpdateView { name: self.name@, cpuid: self.cpuid, cpu_frac: self.cpu_frac }
    }
}

/// The views of a list of updates, in order.
pub open spec fn updates_view(updates: Seq<MetricUpdate>) -> Seq<MetricUpdateView> {
    Seq::new(updates.len(), |i: int| updates[i]@)
}

/// The figures that close a round of updates and ask for its publication.
#[derive(Clone, Debug)]
pub struct SubmitUpdate {
    /// Power drawn by networking; `None` where no energy meter is available.
    pub net_power_w: Option<NetPower>,
    /// Fraction of the CPU time spent by the analysis itself.
    pub user_space_overhead: Ratio,
    /// Overall CPU metrics from the kernel's own accounting, for validation.
    pub procfs_metrics: Vec<Ratio>,
}

/// Keeper of the metric tree.
pub struct MetricsCollector {
    metrics_root: Metric,
    clients: Vec<u64>,
    num_possible_cpus: usize,
}

impl MetricsCollector {
    /// The tree, from its root.
    pub closed spec fn root(&self) -> MetricView {
        self.metrics_root@
    }

    /// Number of CPUs that every metric holds a value for.
    pub closed spec fn num_cpus(&self) -> usize {
        self.num_possible_cpus
    }

    /// No subscriber is held twice.
    pub closed spec fn wf(&self) -> bool {
        self.clients@.no_duplicates()
    }

    /// The subscribers that snapshots go out to.
    pub closed spec fn subscribers(&self) -> Set<u64> {
        Set::new(|id: u64| self.clients@.contains(id))
    }

    /// A collector with an empty tree: a root called `/` and nothing below.
    pub fn new(num_possible_cpus: usize) -> (collector: MetricsCollector)
        ensures
            collector.root() == leaf("/"@),
            collector.num_cpus() == num_possible_cpus,
            collector.subscribers() == Set::<u64>::empty(),
            collector.wf(),
    {
        let collector = MetricsCollector {
            metrics_root: Metric::new(String::from_str("/")),
            clients: Vec::new(),
            num_possible_cpus,
        };
        proof {
            assert(collector.subscribers() =~= Set::<u64>::empty());
        }
        collector
    }

    /// Adds `id` to the subscribers.
    pub fn client_connected(&mut self, id: u64)
        requires
            old(self).wf(),
        ensures
            final(self).wf(),
            final(self).subscribers() == old(self).subscribers().insert(id),
            final(self).root() == old(self).root(),
            final(self).num_cpus() == old(self).num_cpus(),
    {
        if !self.is_subscribed(id) {
            let ghost before = self.clients@;
            self.clients.push(id);
            proof {
                assert(!before.contains(id));
                assert forall|a: int, b: int|
                    0 <= a < self.clients@.len() && 0 <= b < self.clients@.len() && a
                        != b implies self.clients@[a] != self.clients@[b] by {
                    if a < before.len() && b < before.len() {
                        assert(before[a] != before[b]);
                    } else if a < before.len() {
                        assert(before.contains(before[a]));
                    } else {
                        assert(before.contains(before[b]));
                    }
                }
                assert forall|x: u64| self.clients@.contains(x) <==> (before.contains(x) || x
                    == id) by {
                    if before.contains(x) {
                        let k = choose|k: int| 0 <= k < before.len() && before[k] == x;
                        assert(self.clients@[k] == x);
                    }
                    if x == id {
                        assert(self.clients@[before.len() as int] == x);
                    }
                }
                assert(self.subscribers() =~= old(self).subscribers().insert(id));
            }
        } else {
            proof {
                assert(self.subscribers() =~= old(self).subscribers().insert(id));
            }
        }
    }

    /// Takes `id` off the subscribers.
    pub fn client_disconnected(&mut self, id: u64)
        requires
            old(self).wf(),
        ensures
            final(self).wf(),
            final(self).subscribers() == old(self).subscribers().remove(id),
            final(self).root() == old(self).root(),
            final(self).num_cpus() == old(self).num_cpus(),
    {
        let ghost before = self.clients@;
        let mut kept: Vec<u64> = Vec::new();
        let mut i: usize = 0;
        while i < self.clients.len()
            invariant
                i <= self.clients@.len(),
                self.clients@ == before,
                before.no_duplicates(),
                kept@.no_duplicates(),
                self.metrics_root == old(self).metrics_root,
                self.num_possible_cpus == old(self).num_possible_cpus,
                forall|x: u64|
                    kept@.contains(x) <==> (x != id && exists|k: int|
                        0 <= k < i && before[k] == x),
            decreases self.clients@.len() - i,
        {
            let ghost kept_before = kept@;
            let c = self.clients[i];
            if c != id {
                kept.push(c);
            }
            proof {
                if c != id {
                    if kept_before.contains(c) {
                        let k = choose|k: int| 0 <= k < i && before[k] == c;
                        assert(before[k] == before[i as int] && k != i);
                    }
                    assert forall|a: int, b: int|
                        0 <= a < kept@.len() && 0 <= b < kept@.len() && a != b implies kept@[a]
                        != kept@[b] by {
                        if a < kept_before.len() && b < kept_before.len() {
                            assert(kept_before[a] != kept_before[b]);
                        } else if a < kept_before.len() {
                            assert(kept_before.contains(kept_before[a]));
                        } else {
                            assert(kept_before.contains(kept_before[b]));
                        }
                    }
                }
                assert forall|x: u64|
                    kept@.contains(x) <==> (x != id && exists|k: int|
                        0 <= k < i + 1 && before[k] == x) by {
                    if kept@.contains(x) {
                        let j = choose|j: int| 0 <= j < kept@.len() && kept@[j] == x;
                        if j < kept_before.len() {
                            assert(kept_before[j] == x);
                            assert(kept_before.contains(x));
                            let k = choose|k: int| 0 <= k < i && before[k] == x;
                            assert(0 <= k < i + 1 && before[k] == x);
                        } else {
                            assert(before[i as int] == x);
                        }
                    }
                    if x != id && exists|k: int| 0 <= k < i + 1 && before[k] == x {
                        let k = choose|k: int| 0 <= k < i + 1 && before[k] == x;
                        if k < i {
                            assert(kept_before.contains(x));
                            let j = choose|j: int| 0 <= j < kept_before.len() && kept_before[j] == x;
                            assert(kept@[j] == x);
                        } else {
                            assert(kept@[kept@.len() - 1] == x);
                        }
                    }
                }
            }
            i += 1;
        }
        self.clients = kept;
        proof {
            assert forall|x: u64|
                self.subscribers().contains(x) <==> old(self).subscribers().remove(id).contains(
                    x,
                ) by {
                if before.contains(x) && x != id {
                    let k = choose|k: int| 0 <= k < before.len() && before[k] == x;
                    assert(0 <= k < i && before[k] == x);
                }
            }
            assert(self.subscribers() =~= old(self).subscribers().remove(id));
        }
    }

    /// Tells whether `id` is among the subscribers.
    pub fn is_subscribed(&self, id: u64) -> (found: bool)
        ensures
            found == self.subscribers().contains(id),
    {
        let mut i: usize = 0;
        while i < self.clients.len()
            invariant
                i <= self.clients@.len(),
                forall|k: int| 0 <= k < i ==> self.clients@[k] != id,
            decreases self.clients@.len() - i,
        {
            if self.clients[i] == id {
                return true;
            }
            i += 1;
        }
        false
    }

    /// Tells whether there is any subscriber.
    pub fn has_clients(&self) -> (any: bool)
        ensures
            any == (exists|id: u64| self.subscribers().contains(id)),
    {
        let any = self.clients.len() > 0;
        proof {
            if any {
                assert(self.clients@.contains(self.clients@[0]));
                assert(self.subscribers().contains(self.clients@[0]));
            }
        }
        any
    }

    /// The subscribers, each of them once.
    pub fn clients(&self) -> (ids: &[u64])
        requires
            self.wf(),
        ensures
            ids@.no_duplicates(),
            forall|id: u64| ids@.contains(id) <==> self.subscribers().contains(id),
    {
        self.clients.as_slice()
    }

    /// Number of CPUs that every metric holds a value for.
    pub fn num_possible_cpus(&self) -> (n: usize)
        ensures
            n == self.num_cpus(),
    {
        self.num_possible_cpus
    }

    /// The root of the tree.
    pub fn metrics_root(&self) -> (root: &Metric)
        ensures
            root@ == self.root(),
    {
        &self.metrics_root
    }

    /// Takes in one update: the metric that the hierarchical name leads to
    /// gets the fraction as its value for the CPU of the update. Metrics on
    /// the way that do not exist yet are appended to their parents.
    pub fn metric_update(&mut self, msg: &MetricUpdate)
        requires
            msg.cpuid < old(self).num_cpus(),
        ensures
            final(self).wf() == old(self).wf(),
            final(self).num_cpus() == old(self).num_cpus(),
            final(self).subscribers() == old(self).subscribers(),
            final(self).root() == with_fraction(
                old(self).root(),
                split_path(msg.name@, 0),
                0,
                msg.cpuid as int,
                msg.cpu_frac,
                old(self).num_cpus() as int,
            ),
    {
        let path = split_name(msg.name);
        self.metrics_root.set_fraction(
            path.as_slice(),
            0,
            msg.cpuid,
            msg.cpu_frac,
            self.num_possible_cpus,
        );
    }

    /// Builds what is published for the round that `msg` closes: a copy of
    /// the top-level metrics with the figures of `msg`.
    pub fn submit_update(&self, msg: SubmitUpdate) -> (snapshot: MetricsWrapper)
        ensures
            views_of(snapshot.top_level_metrics@) == self.root().sub_metrics,
            snapshot.net_power_w == msg.net_power_w,
            snapshot.user_space_overhead == msg.user_space_overhead,
            snapshot.num_possible_cpus == self.num_cpus(),
            snapshot.procfs_metrics == msg.procfs_metrics,
    {
        proof {
            lemma_view_children(&self.metrics_root);
        }
        MetricsWrapper {
            top_level_metrics: clone_metrics(self.metrics_root.sub_metrics.as_slice()),
            net_power_w: msg.net_power_w,
            user_space_overhead: msg.user_space_overhead,
            num_possible_cpus: self.num_possible_cpus,
            procfs_metrics: msg.procfs_metrics,
        }
    }
}

} // verus!
