//! The hierarchical metric tree and the snapshot published from it.
//!
//! Fractions are kept as exact quotients; turning one into a decimal number
//! is left to whoever displays it.

use vstd::prelude::*;
use vstd::string::{StrSliceExecFns, StringExecFns};

verus! {

/// An exact quotient of two integers. It stands for the number `num / den`,
/// and for no number at all when `den` is zero.
#[derive(Clone, Copy, Debug, PartialEq, Eq, Structural)]
pub struct Ratio {
    pub num: i128,
    pub den: u128,
}

impl Ratio {
    /// The quotient `0 / 1`.
    pub open spec fn zero() -> Ratio {
        Ratio { num: 0, den: 1 }
    }

    /// The quotient lies between zero and one, both included.
    pub open spec fn is_unit_fraction(self) -> bool {
        0 <= self.num <= self.den && self.den > 0
    }

    /// The quotient `0 / 1`.
    pub fn new_zero() -> (r: Ratio)
        ensures
            r == Ratio::zero(),
    {
        Ratio { num: 0, den: 1 }
    }
}

/// A metric with its sub-metrics, as contracts see it.
pub struct MetricView {
    pub name: Seq<char>,
    pub cpu_fracs: Seq<Ratio>,
    pub sub_metrics: Seq<MetricView>,
}

/// A single metric, possibly with a list of sub-metrics.
///
/// A metric is addressed by its hierarchical name, the names on the way from
/// the root joined by `/`, for example `RX softirq/Bridging`.
#[derive(Debug)]
pub struct Metric {
    /// Name of this metric: one segment of its hierarchical name.
    pub name: String,
    /// Fraction of the CPU time for each CPU.
    pub cpu_fracs: Vec<Ratio>,
    /// Sub-metrics, in the order in which they were first seen.
    pub sub_metrics: Vec<Metric>,
}

/// The view of a metric: its name, its values and the views of its
/// sub-metrics.
pub open spec fn metric_view(m: Metric) -> MetricView
    decreases m,
{
    MetricView {
        name: m.name@,
        cpu_fracs: m.cpu_fracs@,
        sub_metrics: Seq::new(
            m.sub_metrics@.len(),
            |i: int|
                if 0 <= i < m.sub_metrics@.len() {
                    metric_view(m.sub_metrics@[i])
                } else {
                    arbitrary()
                },
        ),
    }
}

impl View for Metric {
    type V = MetricView;

    open spec fn view(&self) -> MetricView {
        metric_view(*self)
    }
}

/// The sub-metrics of a metric's view are the views of its sub-metrics.
pub proof fn lemma_view_children(m: &Metric)
    ensures
        m@.name == m.name@,
        m@.cpu_fracs == m.cpu_fracs@,
        m@.sub_metrics == views_of(m.sub_metrics@),
{
    assert(m@.sub_metrics =~= views_of(m.sub_metrics@));
}

/// The views of a list of metrics, in order.
pub open spec fn views_of(metrics: Seq<Metric>) -> Seq<MetricView> {
    Seq::new(metrics.len(), |i: int| metrics[i]@)
}

/// The views of a list of names, in order.
pub open spec fn names_of(names: Seq<String>) -> Seq<Seq<char>> {
    Seq::new(names.len(), |i: int| names[i]@)
}

/// A metric without values and without sub-metrics.
pub open spec fn leaf(name: Seq<char>) -> MetricView {
    MetricView { name, cpu_fracs: Seq::empty(), sub_metrics: Seq::empty() }
}

/// First index at or after `from` whose metric is called `name`, or the
/// length of `children` when none is.
pub open spec fn child_index(children: Seq<MetricView>, name: Seq<char>, from: int) -> int
    decreases children.len() - from,
{
    if 0 <= from < children.len() && children[from].name != name {
        child_index(children, name, from + 1)
    } else {
        from
    }
}

/// `fracs` cut or padded with zeros to `n` values.
pub open spec fn resized(fracs: Seq<Ratio>, n: int) -> Seq<Ratio> {
    Seq::new(
        n as nat,
        |i: int|
            if i < fracs.len() {
                fracs[i]
            } else {
                Ratio::zero()
            },
    )
}

/// The tree under `node` after the metric reached by the segments
/// `path[depth..]` got `frac` as its value for `cpu`. Metrics missing on the
/// way are appended to their parent; the metric reached holds one value per
/// CPU afterwards.
pub open spec fn with_fraction(
    node: MetricView,
    path: Seq<Seq<char>>,
    depth: int,
    cpu: int,
    frac: Ratio,
    num_cpus: int,
) -> MetricView
    decreases path.len() - depth,
{
    if depth < 0 || depth >= path.len() {
        MetricView { cpu_fracs: resized(node.cpu_fracs, num_cpus).update(cpu, frac), ..node }
    } else {
        let at = child_index(node.sub_metrics, path[depth], 0);
        let children = if 0 <= at < node.sub_metrics.len() {
            node.sub_metrics
        } else {
            node.sub_metrics.push(leaf(path[depth]))
        };
        let last = children.len() - 1;
        let at = if 0 <= at < children.len() {
            at
        } else {
            last
        };
        MetricView {
            sub_metrics: children.update(
                at,
                with_fraction(children[at], path, depth + 1, cpu, frac, num_cpus),
            ),
            ..node
        }
    }
}

/// First index at or after `from` that holds a `/`, or the length of `s`.
pub open spec fn segment_end(s: Seq<char>, from: int) -> int
    decreases s.len() - from,
{
    if 0 <= from < s.len() && s[from] != '/' {
        segment_end(s, from + 1)
    } else {
        from
    }
}

/// The segments of the hierarchical name `s[from..]`: the pieces between its
/// slashes, empty ones included.
pub open spec fn split_path(s: Seq<char>, from: int) -> Seq<Seq<char>>
    decreases s.len() - from,
{
    let end = segment_end(s, from);
    if from < 0 || end < from || end >= s.len() {
        seq![s.subrange(from, s.len() as int)]
    } else {
        seq![s.subrange(from, end)] + split_path(s, end + 1)
    }
}

/// The place where a name is found lies between where the search starts and
/// the end of the list.
pub proof fn lemma_child_index_bounds(children: Seq<MetricView>, name: Seq<char>, from: int)
    requires
        0 <= from <= children.len(),
    ensures
        from <= child_index(children, name, from) <= children.len(),
    decreases children.len() - from,
{
    if from < children.len() && children[from].name != name {
        lemma_child_index_bounds(children, name, from + 1);
    }
}

/// The metric that the segments `path[depth..]` lead to from `node`, if all
/// of them name sub-metrics that exist.
pub open spec fn metric_at(node: MetricView, path: Seq<Seq<char>>, depth: int) -> Option<
    MetricView,
>
    decreases path.len() - depth,
{
    if depth < 0 || depth >= path.len() {
        Some(node)
    } else {
        let at = child_index(node.sub_metrics, path[depth], 0);
        if 0 <= at < node.sub_metrics.len() {
            metric_at(node.sub_metrics[at], path, depth + 1)
        } else {
            None
        }
    }
}

/// An update keeps the name of the metric it starts from.
pub proof fn lemma_with_fraction_keeps_name(
    node: MetricView,
    path: Seq<Seq<char>>,
    depth: int,
    cpu: int,
    frac: Ratio,
    num_cpus: int,
)
    ensures
        with_fraction(node, path, depth, cpu, frac, num_cpus).name == node.name,
{
}

/// Where two lists of metrics carry the same names, a name is found at the
/// same place in both.
pub proof fn lemma_child_index_by_names(
    a: Seq<MetricView>,
    b: Seq<MetricView>,
    name: Seq<char>,
    from: int,
)
    requires
        a.len() == b.len(),
        forall|i: int| 0 <= i < a.len() ==> (#[trigger] a[i]).name == b[i].name,
        0 <= from,
    ensures
        child_index(a, name, from) == child_index(b, name, from),
    decreases a.len() - from,
{
    if from < a.len() && a[from].name != name {
        assert(b[from].name != name);
        lemma_child_index_by_names(a, b, name, from + 1);
    }
}

/// A name that is not found in a list is found at its end once a metric of
/// that name was appended.
pub proof fn lemma_child_index_of_appended(children: Seq<MetricView>, name: Seq<char>, from: int)
    requires
        0 <= from <= children.len(),
        child_index(children, name, from) == children.len(),
    ensures
        child_index(children.push(leaf(name)), name, from) == children.len(),
    decreases children.len() - from,
{
    let longer = children.push(leaf(name));
    if from < children.len() {
        assert(longer[from] == children[from]);
        lemma_child_index_bounds(children, name, from + 1);
        if children[from].name != name {
            lemma_child_index_of_appended(children, name, from + 1);
        }
    } else {
        assert(longer[from].name == name);
    }
}

/// After an update the metric that its name leads to exists, holds one value
/// for each CPU, and holds the fraction of the update for the CPU of the
/// update.
pub proof fn lemma_update_reaches_metric(
    node: MetricView,
    path: Seq<Seq<char>>,
    depth: int,
    cpu: int,
    frac: Ratio,
    num_cpus: int,
)
    requires
        0 <= depth <= path.len(),
        0 <= cpu < num_cpus,
    ensures
        metric_at(with_fraction(node, path, depth, cpu, frac, num_cpus), path, depth) is Some,
        metric_at(
            with_fraction(node, path, depth, cpu, frac, num_cpus),
            path,
            depth,
        )->0.cpu_fracs.len() == num_cpus,
        metric_at(
            with_fraction(node, path, depth, cpu, frac, num_cpus),
            path,
            depth,
        )->0.cpu_fracs[cpu] == frac,
    decreases path.len() - depth,
{
    if depth < path.len() {
        let name = path[depth];
        let found = child_index(node.sub_metrics, name, 0);
        lemma_child_index_bounds(node.sub_metrics, name, 0);
        let children = if found < node.sub_metrics.len() {
            node.sub_metrics
        } else {
            node.sub_metrics.push(leaf(name))
        };
        let at = if found < children.len() {
            found
        } else {
            children.len() - 1
        };
        if found == node.sub_metrics.len() {
            lemma_child_index_of_appended(node.sub_metrics, name, 0);
        }
        assert(child_index(children, name, 0) == at);
        let child = with_fraction(children[at], path, depth + 1, cpu, frac, num_cpus);
        let updated = children.update(at, child);
        lemma_with_fraction_keeps_name(children[at], path, depth + 1, cpu, frac, num_cpus);
        lemma_child_index_by_names(children, updated, name, 0);
        lemma_update_reaches_metric(children[at], path, depth + 1, cpu, frac, num_cpus);
        assert(with_fraction(node, path, depth, cpu, frac, num_cpus).sub_metrics == updated);
        assert(updated[at] == child);
    }
}

/// Appending a metric does not move a name that is found before the end.
pub proof fn lemma_child_index_before_appended(
    children: Seq<MetricView>,
    extra: MetricView,
    name: Seq<char>,
    from: int,
)
    requires
        0 <= from <= children.len(),
        child_index(children, name, from) < children.len(),
    ensures
        child_index(children.push(extra), name, from) == child_index(children, name, from),
    decreases children.len() - from,
{
    if from < children.len() {
        assert(children.push(extra)[from] == children[from]);
        if children[from].name != name {
            lemma_child_index_before_appended(children, extra, name, from + 1);
        }
    }
}

/// The metric found at the place of a name carries that name.
pub proof fn lemma_child_index_names(children: Seq<MetricView>, name: Seq<char>, from: int)
    requires
        0 <= from <= children.len(),
        child_index(children, name, from) < children.len(),
    ensures
        children[child_index(children, name, from)].name == name,
    decreases children.len() - from,
{
    if from < children.len() && children[from].name != name {
        lemma_child_index_names(children, name, from + 1);
    }
}

/// An update leaves the values of the other CPUs as they were: those that
/// the metric held stay, and those that it did not hold are zero.
pub proof fn lemma_update_keeps_other_cpus(
    node: MetricView,
    path: Seq<Seq<char>>,
    depth: int,
    cpu: int,
    frac: Ratio,
    num_cpus: int,
    other: int,
)
    requires
        0 <= depth <= path.len(),
        0 <= cpu < num_cpus,
        0 <= other < num_cpus,
        other != cpu,
    ensures
        metric_at(with_fraction(node, path, depth, cpu, frac, num_cpus), path, depth) is Some,
        metric_at(
            with_fraction(node, path, depth, cpu, frac, num_cpus),
            path,
            depth,
        )->0.cpu_fracs[other] == match metric_at(node, path, depth) {
            Some(m) => resized(m.cpu_fracs, num_cpus)[other],
            None => Ratio::zero(),
        },
    decreases path.len() - depth,
{
    lemma_update_reaches_metric(node, path, depth, cpu, frac, num_cpus);
    if depth < path.len() {
        let name = path[depth];
        let found = child_index(node.sub_metrics, name, 0);
        lemma_child_index_bounds(node.sub_metrics, name, 0);
        let children = if found < node.sub_metrics.len() {
            node.sub_metrics
        } else {
            node.sub_metrics.push(leaf(name))
        };
        let at = if found < children.len() {
            found
        } else {
            children.len() - 1
        };
        if found == node.sub_metrics.len() {
            lemma_child_index_of_appended(node.sub_metrics, name, 0);
        }
        let child = with_fraction(children[at], path, depth + 1, cpu, frac, num_cpus);
        let updated = children.update(at, child);
        lemma_with_fraction_keeps_name(children[at], path, depth + 1, cpu, frac, num_cpus);
        lemma_child_index_by_names(children, updated, name, 0);
        lemma_update_keeps_other_cpus(children[at], path, depth + 1, cpu, frac, num_cpus, other);
        assert(with_fraction(node, path, depth, cpu, frac, num_cpus).sub_metrics == updated);
        assert(updated[at] == child);
        if found == node.sub_metrics.len() {
            lemma_missing_metric_is_not_reached(leaf(name), path, depth + 1);
        }
    }
}

/// Below a metric without sub-metrics, only the metric itself is reached.
pub proof fn lemma_missing_metric_is_not_reached(node: MetricView, path: Seq<Seq<char>>, depth: int)
    requires
        node.sub_metrics.len() == 0,
        0 <= depth <= path.len(),
    ensures
        metric_at(node, path, depth) == if depth >= path.len() {
            Some(node)
        } else {
            None
        },
{
}

/// An update leaves every other metric that exists with its name and its
/// values: only the metric that the name of the update leads to is written.
pub proof fn lemma_update_keeps_other_metrics(
    node: MetricView,
    path: Seq<Seq<char>>,
    other: Seq<Seq<char>>,
    depth: int,
    cpu: int,
    frac: Ratio,
    num_cpus: int,
)
    requires
        0 <= depth <= path.len(),
        depth <= other.len(),
        path.skip(depth) != other.skip(depth),
        metric_at(node, other, depth) is Some,
    ensures
        metric_at(with_fraction(node, path, depth, cpu, frac, num_cpus), other, depth) is Some,
        metric_at(with_fraction(node, path, depth, cpu, frac, num_cpus), other, depth)->0.name
            == metric_at(node, other, depth)->0.name,
        metric_at(
            with_fraction(node, path, depth, cpu, frac, num_cpus),
            other,
            depth,
        )->0.cpu_fracs == metric_at(node, other, depth)->0.cpu_fracs,
    decreases path.len() - depth,
{
    let after = with_fraction(node, path, depth, cpu, frac, num_cpus);
    if depth >= path.len() {
        if depth >= other.len() {
            assert(path.skip(depth) =~= other.skip(depth));
        }
    } else if depth < other.len() {
        let name = path[depth];
        let found = child_index(node.sub_metrics, name, 0);
        lemma_child_index_bounds(node.sub_metrics, name, 0);
        let children = if found < node.sub_metrics.len() {
            node.sub_metrics
        } else {
            node.sub_metrics.push(leaf(name))
        };
        let at = if found < children.len() {
            found
        } else {
            children.len() - 1
        };
        let child = with_fraction(children[at], path, depth + 1, cpu, frac, num_cpus);
        let updated = children.update(at, child);
        assert(after.sub_metrics == updated);
        lemma_with_fraction_keeps_name(children[at], path, depth + 1, cpu, frac, num_cpus);

        let wanted = other[depth];
        let at_other = child_index(node.sub_metrics, wanted, 0);
        lemma_child_index_bounds(node.sub_metrics, wanted, 0);
        assert(at_other < node.sub_metrics.len());
        if found == node.sub_metrics.len() {
            lemma_child_index_before_appended(node.sub_metrics, leaf(name), wanted, 0);
        }
        assert(child_index(children, wanted, 0) == at_other);
        lemma_child_index_by_names(children, updated, wanted, 0);
        assert(child_index(updated, wanted, 0) == at_other);
        assert(children[at_other] == node.sub_metrics[at_other]);
        if at_other == at {
            lemma_child_index_names(node.sub_metrics, wanted, 0);
            lemma_child_index_names(node.sub_metrics, name, 0);
            assert(name == wanted);
            assert(path.skip(depth + 1) != other.skip(depth + 1)) by {
                if path.skip(depth + 1) == other.skip(depth + 1) {
                    assert(path.skip(depth) =~= seq![name] + path.skip(depth + 1));
                    assert(other.skip(depth) =~= seq![wanted] + other.skip(depth + 1));
                }
            }
            lemma_update_keeps_other_metrics(
                children[at],
                path,
                other,
                depth + 1,
                cpu,
                frac,
                num_cpus,
            );
        } else {
            assert(updated[at_other] == node.sub_metrics[at_other]);
        }
    }
}

/// Splits a hierarchical name into its segments.
pub fn split_name(name: &str) -> (segments: Vec<String>)
    ensures
        names_of(segments@) == split_path(name@, 0),
{
    let len = name.unicode_len();
    let mut segments: Vec<String> = Vec::new();
    let mut start: usize = 0;
    let mut i: usize = 0;
    proof {
        assert(names_of(segments@) =~= Seq::<Seq<char>>::empty());
    }
    while i < len
        invariant
            len == name@.len(),
            start <= i <= len,
            segment_end(name@, start as int) == segment_end(name@, i as int),
            split_path(name@, 0) == names_of(segments@) + split_path(name@, start as int),
        decreases len - i,
    {
        if name.get_char(i) == '/' {
            let ghost before = names_of(segments@);
            let piece = name.substring_char(start, i);
            segments.push(String::from_str(piece));
            proof {
                let seg = name@.subrange(start as int, i as int);
                assert(names_of(segments@) =~= before.push(seg));
                assert(before + (seq![seg] + split_path(name@, i + 1)) =~= before.push(seg)
                    + split_path(name@, i + 1));
            }
            start = i + 1;
        }
        i += 1;
    }
    let ghost before = names_of(segments@);
    let piece = name.substring_char(start, len);
    segments.push(String::from_str(piece));
    proof {
        let seg = name@.subrange(start as int, len as int);
        assert(names_of(segments@) =~= before.push(seg));
        assert(before + seq![seg] =~= before.push(seg));
    }
    segments
}

impl Clone for Metric {
    /// A copy of the metric with all its sub-metrics.
    fn clone(&self) -> (copy: Metric)
        ensures
            copy@ == self@,
        decreases self,
    {
        let mut cpu_fracs: Vec<Ratio> = Vec::new();
        let mut i: usize = 0;
        while i < self.cpu_fracs.len()
            invariant
                i <= self.cpu_fracs@.len(),
                cpu_fracs@ == self.cpu_fracs@.take(i as int),
            decreases self.cpu_fracs@.len() - i,
        {
            cpu_fracs.push(self.cpu_fracs[i]);
            proof {
                assert(cpu_fracs@ =~= self.cpu_fracs@.take(i + 1));
            }
            i += 1;
        }
        let mut sub_metrics: Vec<Metric> = Vec::new();
        let mut j: usize = 0;
        while j < self.sub_metrics.len()
            invariant
                j <= self.sub_metrics@.len(),
                sub_metrics@.len() == j,
                forall|k: int| 0 <= k < j ==> (#[trigger] sub_metrics@[k])@ == self.sub_metrics@[k]@,
            decreases self.sub_metrics@.len() - j,
        {
            let child = self.sub_metrics[j].clone();
            sub_metrics.push(child);
            j += 1;
        }
        let copy = Metric { name: self.name.clone(), cpu_fracs, sub_metrics };
        proof {
            assert(self.cpu_fracs@.take(i as int) =~= self.cpu_fracs@);
            lemma_view_children(self);
            lemma_view_children(&copy);
            assert forall|k: int| 0 <= k < copy@.sub_metrics.len() implies copy@.sub_metrics[k]
                == self@.sub_metrics[k] by {
                assert(copy.sub_metrics@[k]@ == self.sub_metrics@[k]@);
            }
            assert(copy@.sub_metrics =~= self@.sub_metrics);
        }
        copy
    }
}

/// A copy of a list of metrics, each with all its sub-metrics.
pub fn clone_metrics(metrics: &[Metric]) -> (copy: Vec<Metric>)
    ensures
        views_of(copy@) == views_of(metrics@),
{
    let mut copy: Vec<Metric> = Vec::new();
    let mut j: usize = 0;
    while j < metrics.len()
        invariant
            j <= metrics@.len(),
            copy@.len() == j,
            forall|k: int| 0 <= k < j ==> (#[trigger] copy@[k])@ == metrics@[k]@,
        decreases metrics@.len() - j,
    {
        copy.push(metrics[j].clone());
        j += 1;
    }
    proof {
        assert(views_of(copy@) =~= views_of(metrics@));
    }
    copy
}

impl Metric {
    /// A metric called `name`, without values and without sub-metrics.
    pub fn new(name: String) -> (m: Metric)
        ensures
            m@ == leaf(name@),
    {
        let m = Metric { name, cpu_fracs: Vec::new(), sub_metrics: Vec::new() };
        proof {
            assert(m@.sub_metrics =~= Seq::<MetricView>::empty());
        }
        m
    }

    /// Index of the first sub-metric called `name`, or the number of
    /// sub-metrics when none is.
    pub fn find_child(&self, name: &String) -> (at: usize)
        ensures
            at == child_index(self@.sub_metrics, name@, 0),
            at <= self.sub_metrics@.len(),
    {
        proof {
            lemma_view_children(self);
        }
        let mut at: usize = 0;
        while at < self.sub_metrics.len() && !(self.sub_metrics[at].name == *name)
            invariant
                at <= self.sub_metrics@.len(),
                self@.sub_metrics == views_of(self.sub_metrics@),
                child_index(self@.sub_metrics, name@, 0) == child_index(
                    self@.sub_metrics,
                    name@,
                    at as int,
                ),
            decreases self.sub_metrics@.len() - at,
        {
            proof {
                lemma_view_children(&self.sub_metrics@[at as int]);
            }
            at += 1;
        }
        proof {
            if at < self.sub_metrics@.len() {
                lemma_view_children(&self.sub_metrics@[at as int]);
            }
        }
        at
    }

    /// Cuts or pads the values of this metric to one per CPU.
    fn resize_fracs(&mut self, num_cpus: usize)
        ensures
            final(self).cpu_fracs@ == resized(old(self).cpu_fracs@, num_cpus as int),
            final(self).name == old(self).name,
            final(self).sub_metrics == old(self).sub_metrics,
    {
        let ghost before = self.cpu_fracs@;
        self.cpu_fracs.truncate(num_cpus);
        while self.cpu_fracs.len() < num_cpus
            invariant
                self.cpu_fracs@.len() <= num_cpus,
                before.len() <= self.cpu_fracs@.len() || num_cpus <= self.cpu_fracs@.len(),
                self.name == old(self).name,
                self.sub_metrics == old(self).sub_metrics,
                forall|i: int|
                    0 <= i < self.cpu_fracs@.len() ==> #[trigger] self.cpu_fracs@[i] == resized(
                        before,
                        num_cpus as int,
                    )[i],
            decreases num_cpus - self.cpu_fracs@.len(),
        {
            self.cpu_fracs.push(Ratio::new_zero());
        }
        proof {
            assert(self.cpu_fracs@ =~= resized(before, num_cpus as int));
        }
    }

    /// Records `frac` as the value for `cpu` of the metric that the segments
    /// `path[depth..]` lead to from this one, creating the metrics that are
    /// missing on the way.
    pub fn set_fraction(
        &mut self,
        path: &[String],
        depth: usize,
        cpu: usize,
        frac: Ratio,
        num_cpus: usize,
    )
        requires
            cpu < num_cpus,
        ensures
            final(self)@ == with_fraction(
                old(self)@,
                names_of(path@),
                depth as int,
                cpu as int,
                frac,
                num_cpus as int,
            ),
        decreases path@.len() - depth,
    {
        let ghost before = self@;
        proof {
            lemma_view_children(self);
        }
        if depth >= path.len() {
            self.resize_fracs(num_cpus);
            self.cpu_fracs.set(cpu, frac);
            proof {
                lemma_view_children(self);
            }
        } else {
            let at = self.find_child(&path[depth]);
            if at == self.sub_metrics.len() {
                let ghost kids = self.sub_metrics@;
                self.sub_metrics.push(Metric::new(path[depth].clone()));
                proof {
                    lemma_view_children(self);
                    assert(views_of(self.sub_metrics@) =~= views_of(kids).push(
                        leaf(path@[depth as int]@),
                    ));
                }
            }
            let ghost children = self@.sub_metrics;
            let ghost kids = self.sub_metrics@;
            proof {
                lemma_view_children(self);
            }
            self.sub_metrics[at].set_fraction(path, depth + 1, cpu, frac, num_cpus);
            proof {
                lemma_view_children(self);
                assert(self.sub_metrics@ == kids.update(at as int, self.sub_metrics@[at as int]));
                assert(views_of(self.sub_metrics@) =~= children.update(
                    at as int,
                    self.sub_metrics@[at as int]@,
                ));
            }
        }
    }
}

/// Power drawn by networking, as the product of two quotients.
#[derive(Clone, Copy, Debug, PartialEq, Eq, Structural)]
pub struct NetPower {
    /// Power drawn by all sockets, in watts.
    pub socket_power_w: Ratio,
    /// Share of all CPU time that was spent in networking.
    pub net_fraction: Ratio,
}

/// What is published for one round: the top-level metrics with the figures
/// that came with the request to publish.
#[derive(Debug)]
pub struct MetricsWrapper {
    /// Top-level metrics.
    pub top_level_metrics: Vec<Metric>,
    /// Power drawn by networking; `None` where no energy meter is available.
    pub net_power_w: Option<NetPower>,
    /// Fraction of the CPU time spent by the analysis itself.
    pub user_space_overhead: Ratio,
    /// Number of CPUs.
    pub num_possible_cpus: usize,
    /// Overall CPU metrics from the kernel's own accounting, for validation.
    pub procfs_metrics: Vec<Ratio>,
}

} // verus!
