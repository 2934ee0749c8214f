//! Metrics per plugin, their history, and the health that they show.
//!
//! Rates and averages are the host's to compute. What reaches this module
//! is the memory in use, the request counts, and for each other dimension
//! the level that the host found it at.

use vstd::prelude::*;
use vstd::string::*;
use std::collections::VecDeque;
use std::time::{Duration, Instant};
use crate::clock::duration_nanos;
use crate::text::{lemma_names_push, names_of, str_eq};

verus! {

/// How one dimension of a plugin's metrics stands against its thresholds.
#[derive(Debug, Clone, Copy, PartialEq, Eq, Structural)]
pub enum MetricLevel {
    /// Within the warning threshold.
    Normal,
    /// Above the warning threshold.
    Warning,
    /// Above the critical threshold.
    Critical,
}

/// The health of a plugin.
#[derive(Debug, Clone, Copy, PartialEq, Eq, Structural)]
pub enum HealthStatus {
    Healthy,
    Warning,
    Critical,
    /// No metrics are registered for the plugin.
    Unknown,
}

/// The thresholds that the memory in use is held against, in bytes.
#[derive(Debug, Clone)]
pub struct HealthThresholds {
    /// Above this the memory in use is a warning.
    pub warning_memory: u64,
    /// Above this the memory in use is critical.
    pub critical_memory: u64,
}

impl Default for HealthThresholds {
    fn default() -> (r: Self)
        ensures
            r.warning_memory == 134217728,
            r.critical_memory == 268435456,
    {
        HealthThresholds { warning_memory: 134217728, critical_memory: 268435456 }
    }
}

/// Measures the time that a request takes.
#[derive(Debug)]
pub struct RequestTracker {
    plugin_name: String,
    start_time: Instant,
}

impl RequestTracker {
    /// The plugin that the request goes to.
    pub closed spec fn name(&self) -> Seq<char> {
        self.plugin_name@
    }

    /// Begins to measure a request to `plugin_name`.
    pub fn new(plugin_name: String) -> (r: Self)
        ensures
            r.name() == plugin_name@,
    {
        RequestTracker { plugin_name, start_time: Instant::now() }
    }

    /// The time since the request began.
    pub fn elapsed(&self) -> Duration {
        self.start_time.elapsed()
    }

    /// The plugin that the request goes to.
    pub fn plugin_name(&self) -> (r: &str)
        ensures
            r@ == self.name(),
    {
        self.plugin_name.as_str()
    }
}

/// The metrics of one plugin.
#[derive(Debug)]
pub struct PluginMetrics {
    /// The plugin.
    pub plugin_name: String,
    /// Memory in use, in bytes.
    pub memory_usage: u64,
    /// Where the CPU usage stands.
    pub cpu_level: MetricLevel,
    /// Requests that are being handled.
    pub active_requests: u32,
    /// Requests that were handled.
    pub total_requests: u64,
    /// Where the average latency stands.
    pub latency_level: MetricLevel,
    /// Where the error rate stands.
    pub error_level: MetricLevel,
    /// When the metrics were last updated.
    pub timestamp: Instant,
}

/// The level of the memory in use under `thresholds`.
pub open spec fn memory_level(memory_usage: u64, thresholds: HealthThresholds) -> MetricLevel {
    if memory_usage > thresholds.critical_memory {
        MetricLevel::Critical
    } else if memory_usage > thresholds.warning_memory {
        MetricLevel::Warning
    } else {
        MetricLevel::Normal
    }
}

/// The health that four levels show: the worst of them decides.
pub open spec fn worst_of(a: MetricLevel, b: MetricLevel, c: MetricLevel, d: MetricLevel) -> HealthStatus {
    if a is Critical || b is Critical || c is Critical || d is Critical {
        HealthStatus::Critical
    } else if a is Warning || b is Warning || c is Warning || d is Warning {
        HealthStatus::Warning
    } else {
        HealthStatus::Healthy
    }
}

/// The health that `metrics` show under `thresholds`.
pub open spec fn health_of(metrics: PluginMetrics, thresholds: HealthThresholds) -> HealthStatus {
    worst_of(
        memory_level(metrics.memory_usage, thresholds),
        metrics.cpu_level,
        metrics.error_level,
        metrics.latency_level,
    )
}

/// Memory above the critical threshold makes the health critical,
/// whatever the other dimensions show.
pub proof fn lemma_critical_memory_decides(metrics: PluginMetrics, thresholds: HealthThresholds)
    requires
        metrics.memory_usage > thresholds.critical_memory,
    ensures
        health_of(metrics, thresholds) == HealthStatus::Critical,
{
}

/// One critical dimension makes the health critical; without one, one
/// warning makes it a warning; without either it is healthy.
pub proof fn lemma_worst_wins(a: MetricLevel, b: MetricLevel, c: MetricLevel, d: MetricLevel)
    ensures
        worst_of(a, b, c, d) is Critical <==> (a is Critical || b is Critical || c is Critical || d
            is Critical),
        worst_of(a, b, c, d) is Healthy <==> (a is Normal && b is Normal && c is Normal && d is Normal),
        !(worst_of(a, b, c, d) is Unknown),
{
}

impl HealthStatus {
    /// The health that `metrics` show under `thresholds`: each dimension is
    /// judged by itself, and the worst decides.
    pub fn from_metrics(metrics: &PluginMetrics, thresholds: &HealthThresholds) -> (r: Self)
        ensures
            r == health_of(*metrics, *thresholds),
            metrics.memory_usage > thresholds.critical_memory ==> r == HealthStatus::Critical,
    {
        let mut status = HealthStatus::Healthy;
        if metrics.memory_usage > thresholds.critical_memory {
            return HealthStatus::Critical;
        } else if metrics.memory_usage > thresholds.warning_memory {
            status = HealthStatus::Warning;
        }
        match metrics.cpu_level {
            MetricLevel::Critical => {
                return HealthStatus::Critical;
            },
            MetricLevel::Warning => {
                status = HealthStatus::Warning;
            },
            MetricLevel::Normal => {},
        }
        match metrics.error_level {
            MetricLevel::Critical => {
                return HealthStatus::Critical;
            },
            MetricLevel::Warning => {
                status = HealthStatus::Warning;
            },
            MetricLevel::Normal => {},
        }
        match metrics.latency_level {
            MetricLevel::Critical => {
                return HealthStatus::Critical;
            },
            MetricLevel::Warning => {
                status = HealthStatus::Warning;
            },
            MetricLevel::Normal => {},
        }
        status
    }

    /// The status in lowercase.
    pub fn as_str(&self) -> (r: &'static str)
        ensures
            r@ == match *self {
                HealthStatus::Healthy => "healthy"@,
                HealthStatus::Warning => "warning"@,
                HealthStatus::Critical => "critical"@,
                HealthStatus::Unknown => "unknown"@,
            },
    {
        match self {
            HealthStatus::Healthy => "healthy",
            HealthStatus::Warning => "warning",
            HealthStatus::Critical => "critical",
            HealthStatus::Unknown => "unknown",
        }
    }
}

impl PluginMetrics {
    /// Metrics with nothing used and every level normal.
    pub fn new(plugin_name: String) -> (r: Self)
        ensures
            r.plugin_name == plugin_name,
            r.memory_usage == 0,
            r.cpu_level is Normal,
            r.active_requests == 0,
            r.total_requests == 0,
            r.latency_level is Normal,
            r.error_level is Normal,
    {
        PluginMetrics {
            plugin_name,
            memory_usage: 0,
            cpu_level: MetricLevel::Normal,
            active_requests: 0,
            total_requests: 0,
            latency_level: MetricLevel::Normal,
            error_level: MetricLevel::Normal,
            timestamp: Instant::now(),
        }
    }

    /// Sets the memory in use.
    pub fn update_memory_usage(&mut self, usage: u64)
        ensures
            *final(self) == (PluginMetrics {
                memory_usage: usage,
                timestamp: final(self).timestamp,
                ..*old(self)
            }),
    {
        self.memory_usage = usage;
        self.timestamp = Instant::now();
    }

    /// Sets where the CPU usage stands.
    pub fn update_cpu_level(&mut self, level: MetricLevel)
        ensures
            *final(self) == (PluginMetrics {
                cpu_level: level,
                timestamp: final(self).timestamp,
                ..*old(self)
            }),
    {
        self.cpu_level = level;
        self.timestamp = Instant::now();
    }

    /// Counts a request that begins.
    pub fn start_request(&mut self) -> (r: RequestTracker)
        requires
            old(self).active_requests < u32::MAX,
        ensures
            r.name() == old(self).plugin_name@,
            *final(self) == (PluginMetrics {
                active_requests: (old(self).active_requests + 1) as u32,
                ..*old(self)
            }),
    {
        self.active_requests = self.active_requests + 1;
        RequestTracker::new(self.plugin_name.clone())
    }

    /// Counts a request that has ended, and takes the levels that the host
    /// has found for the latency and the error rate after it.
    pub fn end_request(&mut self, latency_level: MetricLevel, error_level: MetricLevel)
        requires
            old(self).total_requests < u64::MAX,
        ensures
            *final(self) == (PluginMetrics {
                active_requests: if old(self).active_requests > 0 {
                    (old(self).active_requests - 1) as u32
                } else {
                    0
                },
                total_requests: (old(self).total_requests + 1) as u64,
                latency_level,
                error_level,
                timestamp: final(self).timestamp,
                ..*old(self)
            }),
    {
        if self.active_requests > 0 {
            self.active_requests = self.active_requests - 1;
        }
        self.total_requests = self.total_requests + 1;
        self.latency_level = latency_level;
        self.error_level = error_level;
        self.timestamp = Instant::now();
    }

    /// Whether metrics of the age `age` are stale under `threshold`: older
    /// than it.
    pub fn is_stale_at(age: Duration, threshold: Duration) -> (r: bool)
        ensures
            r == (duration_nanos(age) > duration_nanos(threshold)),
    {
        age.as_nanos() > threshold.as_nanos()
    }

    /// Whether the metrics were last updated more than `threshold` ago, by
    /// the age that the clock gives.
    pub fn is_stale(&self, threshold: Duration) -> (r: bool)
        ensures
            exists|age: Duration| r == (duration_nanos(age) > duration_nanos(threshold)),
    {
        let age = self.timestamp.elapsed();
        Self::is_stale_at(age, threshold)
    }

    /// A copy of the metrics.
    pub fn snapshot(&self) -> (r: Self)
        ensures
            r == *self,
    {
        PluginMetrics {
            plugin_name: self.plugin_name.clone(),
            memory_usage: self.memory_usage,
            cpu_level: self.cpu_level,
            active_requests: self.active_requests,
            total_requests: self.total_requests,
            latency_level: self.latency_level,
            error_level: self.error_level,
            timestamp: self.timestamp,
        }
    }
}

/// What stays of a history of at most `max` entries once `item` is added:
/// the newest entries, `item` last.
pub open spec fn bounded_push<T>(history: Seq<T>, item: T, max: nat) -> Seq<T> {
    let all = history.push(item);
    if all.len() > max {
        all.skip(all.len() - max)
    } else {
        all
    }
}

/// Adds `item` to `history` and drops the oldest entries beyond `max`.
pub fn push_bounded<T>(history: &mut VecDeque<T>, item: T, max: usize)
    ensures
        final(history)@ == bounded_push(old(history)@, item, max as nat),
{
    let ghost all = history@.push(item);
    history.push_back(item);
    assert(all.skip(0) =~= all);
    while history.len() > max
        invariant
            history@.len() <= all.len(),
            history@.len() >= max || history@.len() == all.len(),
            history@ == all.skip(all.len() - history@.len()),
        decreases history@.len(),
    {
        let ghost before = history@;
        let _ = history.pop_front();
        assert(history@ =~= all.skip(all.len() - history@.len()));
    }
    assert(all.skip(0) =~= all);
}

/// Counts that describe a metrics collector.
#[derive(Debug, Clone)]
pub struct MetricsCollectorStats {
    /// Number of plugins with metrics.
    pub tracked_plugins: usize,
    /// Number of snapshots in the history.
    pub history_size: usize,
    /// Number of snapshots that the history holds at most.
    pub max_history_size: usize,
    /// Number of subscribers to updates.
    pub subscribers: usize,
}

/// The metrics of all plugins, and snapshots of them over time.
pub struct MetricsCollector {
    metrics: Vec<PluginMetrics>,
    history: VecDeque<Vec<PluginMetrics>>,
    max_history_size: usize,
    aggregation_interval: Duration,
    last_aggregation: Instant,
}

impl MetricsCollector {
    /// The metrics, one entry per plugin.
    pub closed spec fn metrics(&self) -> Seq<PluginMetrics> {
        self.metrics@
    }

    /// The snapshots, oldest first.
    pub closed spec fn history(&self) -> Seq<Vec<PluginMetrics>> {
        self.history@
    }

    /// The number of snapshots that the history holds at most.
    pub closed spec fn capacity(&self) -> nat {
        self.max_history_size as nat
    }

    /// The time that lies between two snapshots at least.
    pub closed spec fn interval(&self) -> Duration {
        self.aggregation_interval
    }

    /// No two entries are for the same plugin.
    pub open spec fn wf(&self) -> bool {
        forall|i: int, j: int|
            0 <= i < j < self.metrics().len() ==> (#[trigger] self.metrics()[i]).plugin_name@ != (
            #[trigger] self.metrics()[j]).plugin_name@
    }

    /// The place of the metrics of `plugin`, if it has any.
    pub open spec fn position(&self, plugin: Seq<char>) -> Option<int> {
        if exists|i: int|
            0 <= i < self.metrics().len() && (#[trigger] self.metrics()[i]).plugin_name@ == plugin {
            Some(
                choose|i: int|
                    0 <= i < self.metrics().len() && (#[trigger] self.metrics()[i]).plugin_name@
                        == plugin,
            )
        } else {
            None
        }
    }

    /// Whether `self` differs from `before` in nothing but the metrics at
    /// `i`, which are for the same plugin.
    pub open spec fn same_but(&self, before: &MetricsCollector, i: int) -> bool {
        &&& self.history() == before.history()
        &&& self.capacity() == before.capacity()
        &&& self.interval() == before.interval()
        &&& self.metrics().len() == before.metrics().len()
        &&& forall|j: int|
            0 <= j < before.metrics().len() && j != i ==> self.metrics()[j] == before.metrics()[j]
        &&& 0 <= i < before.metrics().len() ==> self.metrics()[i].plugin_name@
            == before.metrics()[i].plugin_name@
    }

    /// A collector without plugins and snapshots.
    pub fn new(max_history_size: usize, aggregation_interval: Duration) -> (r: Self)
        ensures
            r.wf(),
            r.metrics().len() == 0,
            r.history().len() == 0,
            r.capacity() == max_history_size,
            r.interval() == aggregation_interval,
    {
        MetricsCollector {
            metrics: Vec::new(),
            history: VecDeque::new(),
            max_history_size,
            aggregation_interval,
            last_aggregation: Instant::now(),
        }
    }

    fn find(&self, plugin: &str) -> (r: Option<usize>)
        requires
            self.wf(),
        ensures
            match r {
                Some(i) => self.position(plugin@) == Some(i as int) && i < self.metrics().len()
                    && self.metrics()[i as int].plugin_name@ == plugin@,
                None => self.position(plugin@) is None,
            },
    {
        let mut i: usize = 0;
        while i < self.metrics.len()
            invariant
                self.wf(),
                i <= self.metrics().len(),
                forall|j: int| 0 <= j < i ==> (#[trigger] self.metrics()[j]).plugin_name@ != plugin@,
            decreases self.metrics().len() - i,
        {
            if str_eq(self.metrics[i].plugin_name.as_str(), plugin) {
                proof {
                    let k = self.position(plugin@)->0;
                    if k < i {
                        assert(self.metrics()[k].plugin_name@ != plugin@);
                    } else if k > i {
                        assert(self.metrics()[i as int].plugin_name@ != self.metrics()[k].plugin_name@);
                    }
                }
                return Some(i);
            }
            i = i + 1;
        }
        None
    }

    /// Replacing the metrics of one plugin keeps the collector well formed.
    proof fn lemma_replaced(&self, before: &MetricsCollector, i: int)
        requires
            before.wf(),
            0 <= i < before.metrics().len(),
            self.history() == before.history(),
            self.capacity() == before.capacity(),
            self.interval() == before.interval(),
            self.metrics().len() == before.metrics().len(),
            forall|j: int|
                0 <= j < before.metrics().len() && j != i ==> self.metrics()[j] == before.metrics()[j],
            self.metrics()[i].plugin_name@ == before.metrics()[i].plugin_name@,
        ensures
            self.wf(),
            self.same_but(before, i),
    {
        assert forall|a: int, b: int| 0 <= a < b < self.metrics().len() implies (
        #[trigger] self.metrics()[a]).plugin_name@ != (#[trigger] self.metrics()[b]).plugin_name@ by {
            assert(before.metrics()[a].plugin_name@ != before.metrics()[b].plugin_name@);
        }
    }

    /// Begins to collect metrics for `plugin_name`, from nothing; metrics
    /// that the plugin had are replaced.
    pub fn register_plugin(&mut self, plugin_name: String)
        requires
            old(self).wf(),
        ensures
            final(self).wf(),
            final(self).history() == old(self).history(),
            final(self).capacity() == old(self).capacity(),
            final(self).interval() == old(self).interval(),
            final(self).position(plugin_name@) is Some,
            match old(self).position(plugin_name@) {
                Some(i) => final(self).same_but(old(self), i) && final(self).metrics()[i].memory_usage
                    == 0 && final(self).metrics()[i].total_requests == 0,
                None => final(self).metrics().len() == old(self).metrics().len() + 1 && final(self).metrics().drop_last() == old(self).metrics() && final(self).metrics().last().plugin_name@ == plugin_name@ && final(self).metrics().last().memory_usage == 0,
            },
    {
        let found = self.find(plugin_name.as_str());
        let fresh = PluginMetrics::new(plugin_name);
        match found {
            Some(i) => {
                self.metrics.set(i, fresh);
                proof {
                    self.lemma_replaced(old(self), i as int);
                    assert(self.metrics()[i as int].plugin_name@ == plugin_name@);
                }
            },
            None => {
                self.metrics.push(fresh);
                proof {
                    assert(self.metrics().drop_last() =~= old(self).metrics());
                    assert forall|a: int, b: int| 0 <= a < b < self.metrics().len() implies (
                    #[trigger] self.metrics()[a]).plugin_name@ != (
                    #[trigger] self.metrics()[b]).plugin_name@ by {
                        assert(self.metrics()[a] == old(self).metrics()[a]);
                        if b < old(self).metrics().len() {
                            assert(self.metrics()[b] == old(self).metrics()[b]);
                        }
                    }
                    assert(self.metrics()[old(self).metrics().len() as int].plugin_name@
                        == plugin_name@);
                }
            },
        }
    }

    /// Stops collecting metrics for `plugin_name`.
    pub fn unregister_plugin(&mut self, plugin_name: &str)
        requires
            old(self).wf(),
        ensures
            final(self).wf(),
            final(self).history() == old(self).history(),
            final(self).capacity() == old(self).capacity(),
            final(self).interval() == old(self).interval(),
            final(self).position(plugin_name@) is None,
            match old(self).position(plugin_name@) {
                Some(i) => final(self).metrics() == old(self).metrics().remove(i),
                None => final(self).metrics() == old(self).metrics(),
            },
    {
        match self.find(plugin_name) {
            None => {},
            Some(i) => {
                let _ = self.metrics.remove(i);
                proof {
                    let before = old(self).metrics();
                    assert forall|k: int| 0 <= k < self.metrics().len() implies #[trigger] self.metrics()[k]
                        == before[if k < i {
                        k
                    } else {
                        k + 1
                    }] by {}
                    assert forall|k: int| 0 <= k < self.metrics().len() implies (
                    #[trigger] self.metrics()[k]).plugin_name@ != plugin_name@ by {
                        if k < i {
                            assert(before[k].plugin_name@ != before[i as int].plugin_name@);
                        } else {
                            assert(before[i as int].plugin_name@ != before[k + 1].plugin_name@);
                        }
                    }
                    assert forall|a: int, b: int| 0 <= a < b < self.metrics().len() implies (
                    #[trigger] self.metrics()[a]).plugin_name@ != (
                    #[trigger] self.metrics()[b]).plugin_name@ by {
                        let oa = if a < i {
                            a
                        } else {
                            a + 1
                        };
                        let ob = if b < i {
                            b
                        } else {
                            b + 1
                        };
                        assert(before[oa].plugin_name@ != before[ob].plugin_name@);
                    }
                }
            },
        }
    }

    /// The metrics of `plugin_name`, if it has any.
    pub fn get_plugin_metrics(&self, plugin_name: &str) -> (r: Option<&PluginMetrics>)
        requires
            self.wf(),
        ensures
            match self.position(plugin_name@) {
                Some(i) => r == Some(&self.metrics()[i]),
                None => r is None,
            },
    {
        match self.find(plugin_name) {
            Some(i) => Some(&self.metrics[i]),
            None => None,
        }
    }

    /// The metrics of all plugins.
    pub fn get_all_metrics(&self) -> (r: &Vec<PluginMetrics>)
        ensures
            r@ == self.metrics(),
    {
        &self.metrics
    }

    /// Sets the memory in use of `plugin_name`, if it has metrics.
    pub fn update_memory_usage(&mut self, plugin_name: &str, usage: u64)
        requires
            old(self).wf(),
        ensures
            final(self).wf(),
            match old(self).position(plugin_name@) {
                Some(i) => final(self).same_but(old(self), i) && final(self).metrics()[i]
                    == (PluginMetrics {
                    memory_usage: usage,
                    timestamp: final(self).metrics()[i].timestamp,
                    ..old(self).metrics()[i]
                }),
                None => *final(self) == *old(self),
            },
    {
        match self.find(plugin_name) {
            None => {},
            Some(i) => {
                let mut entry = self.metrics.remove(i);
                entry.update_memory_usage(usage);
                self.metrics.insert(i, entry);
                proof {
                    self.lemma_replaced(old(self), i as int);
                }
            },
        }
    }

    /// Sets where the CPU usage of `plugin_name` stands, if it has metrics.
    pub fn update_cpu_level(&mut self, plugin_name: &str, level: MetricLevel)
        requires
            old(self).wf(),
        ensures
            final(self).wf(),
            match old(self).position(plugin_name@) {
                Some(i) => final(self).same_but(old(self), i) && final(self).metrics()[i]
                    == (PluginMetrics {
                    cpu_level: level,
                    timestamp: final(self).metrics()[i].timestamp,
                    ..old(self).metrics()[i]
                }),
                None => *final(self) == *old(self),
            },
    {
        match self.find(plugin_name) {
            None => {},
            Some(i) => {
                let mut entry = self.metrics.remove(i);
                entry.update_cpu_level(level);
                self.metrics.insert(i, entry);
                proof {
                    self.lemma_replaced(old(self), i as int);
                }
            },
        }
    }

    /// Counts a request to `plugin_name` that begins, if it has metrics
    /// and its counter has room.
    pub fn start_request(&mut self, plugin_name: &str) -> (r: Option<RequestTracker>)
        requires
            old(self).wf(),
        ensures
            final(self).wf(),
            match old(self).position(plugin_name@) {
                Some(i) => final(self).same_but(old(self), i) && if old(self).metrics()[i].active_requests < u32::MAX {
                    r is Some && final(self).metrics()[i] == (PluginMetrics {
                        active_requests: (old(self).metrics()[i].active_requests + 1) as u32,
                        ..old(self).metrics()[i]
                    })
                } else {
                    r is None && final(self).metrics()[i] == old(self).metrics()[i]
                },
                None => r is None && *final(self) == *old(self),
            },
    {
        match self.find(plugin_name) {
            None => None,
            Some(i) => {
                let mut entry = self.metrics.remove(i);
                let tracker = if entry.active_requests < u32::MAX {
                    Some(entry.start_request())
                } else {
                    None
                };
                self.metrics.insert(i, entry);
                proof {
                    self.lemma_replaced(old(self), i as int);
                }
                tracker
            },
        }
    }

    /// Counts a request to `plugin_name` that has ended, with the levels
    /// that the host has found after it, if the plugin has metrics and its
    /// counter has room. Returns whether the request was counted.
    pub fn end_request(&mut self, plugin_name: &str, latency_level: MetricLevel, error_level: MetricLevel) -> (r:
        bool)
        requires
            old(self).wf(),
        ensures
            final(self).wf(),
            match old(self).position(plugin_name@) {
                Some(i) => final(self).same_but(old(self), i) && r == (old(self).metrics()[i].total_requests < u64::MAX) && if r {
                    final(self).metrics()[i] == (PluginMetrics {
                        active_requests: if old(self).metrics()[i].active_requests > 0 {
                            (old(self).metrics()[i].active_requests - 1) as u32
                        } else {
                            0
                        },
                        total_requests: (old(self).metrics()[i].total_requests + 1) as u64,
                        latency_level,
                        error_level,
                        timestamp: final(self).metrics()[i].timestamp,
                        ..old(self).metrics()[i]
                    })
                } else {
                    final(self).metrics()[i] == old(self).metrics()[i]
                },
                None => !r && *final(self) == *old(self),
            },
    {
        match self.find(plugin_name) {
            None => false,
            Some(i) => {
                let mut entry = self.metrics.remove(i);
                let counted = entry.total_requests < u64::MAX;
                if counted {
                    entry.end_request(latency_level, error_level);
                }
                self.metrics.insert(i, entry);
                proof {
                    self.lemma_replaced(old(self), i as int);
                }
                counted
            },
        }
    }

    /// Whether a snapshot is due `elapsed` after the last one: not before
    /// the interval has passed.
    pub open spec fn is_due(&self, elapsed: Duration) -> bool {
        duration_nanos(elapsed) >= duration_nanos(self.interval())
    }

    /// Takes a snapshot of all metrics, `elapsed` after the last one, if
    /// one is due, and drops the oldest snapshots beyond the capacity.
    /// Returns whether a snapshot was taken.
    pub fn collect_metrics_after(&mut self, elapsed: Duration) -> (r: bool)
        ensures
            r == old(self).is_due(elapsed),
            final(self).metrics() == old(self).metrics(),
            final(self).capacity() == old(self).capacity(),
            final(self).interval() == old(self).interval(),
            !r ==> final(self).history() == old(self).history(),
            r ==> exists|snapshot: Vec<PluginMetrics>|
                snapshot@ == old(self).metrics() && final(self).history() == bounded_push(
                    old(self).history(),
                    snapshot,
                    old(self).capacity(),
                ),
    {
        if elapsed.as_nanos() < self.aggregation_interval.as_nanos() {
            return false;
        }
        self.last_aggregation = Instant::now();
        let mut snapshot: Vec<PluginMetrics> = Vec::new();
        let mut i: usize = 0;
        while i < self.metrics.len()
            invariant
                i <= self.metrics().len(),
                snapshot@ == self.metrics().take(i as int),
                self.metrics() == old(self).metrics(),
                self.history() == old(self).history(),
                self.capacity() == old(self).capacity(),
                self.interval() == old(self).interval(),
            decreases self.metrics().len() - i,
        {
            snapshot.push(self.metrics[i].snapshot());
            assert(snapshot@ =~= self.metrics().take(i + 1));
            i = i + 1;
        }
        assert(self.metrics().take(i as int) =~= self.metrics());
        push_bounded(&mut self.history, snapshot, self.max_history_size);
        true
    }

    /// Takes a snapshot of all metrics if the interval has passed since
    /// the last one. Returns whether a snapshot was taken: that is, whether
    /// one was due after the time that the clock gave.
    pub fn collect_metrics(&mut self) -> (r: bool)
        ensures
            exists|elapsed: Duration| r == #[trigger] old(self).is_due(elapsed),
            final(self).metrics() == old(self).metrics(),
            final(self).capacity() == old(self).capacity(),
            final(self).interval() == old(self).interval(),
            !r ==> final(self).history() == old(self).history(),
            r ==> exists|snapshot: Vec<PluginMetrics>|
                snapshot@ == old(self).metrics() && final(self).history() == bounded_push(
                    old(self).history(),
                    snapshot,
                    old(self).capacity(),
                ),
    {
        let elapsed = self.last_aggregation.elapsed();
        let r = self.collect_metrics_after(elapsed);
        assert(r == old(self).is_due(elapsed));
        r
    }

    /// The snapshots, oldest first.
    pub fn get_history(&self) -> (r: &VecDeque<Vec<PluginMetrics>>)
        ensures
            r@ == self.history(),
    {
        &self.history
    }

    /// Counts that describe the collector; the host supplies the number
    /// of subscribers to its updates.
    pub fn stats(&self, subscribers: usize) -> (r: MetricsCollectorStats)
        ensures
            r.tracked_plugins == self.metrics().len(),
            r.history_size == self.history().len(),
            r.max_history_size == self.capacity(),
            r.subscribers == subscribers,
    {
        MetricsCollectorStats {
            tracked_plugins: self.metrics.len(),
            history_size: self.history.len(),
            max_history_size: self.max_history_size,
            subscribers,
        }
    }
}

/// Counts of the plugins by health.
#[derive(Debug, Clone)]
pub struct HealthMonitorStats {
    /// Number of plugins.
    pub total_plugins: usize,
    /// Number of healthy plugins.
    pub healthy: usize,
    /// Number of plugins with a warning.
    pub warning: usize,
    /// Number of critical plugins.
    pub critical: usize,
    /// Number of plugins of unknown health.
    pub unknown: usize,
    /// Number of entries in the history.
    pub history_size: usize,
}

/// The health of each plugin of `metrics` under `thresholds`, in order.
pub open spec fn statuses_of(metrics: Seq<PluginMetrics>, thresholds: HealthThresholds) -> Seq<
    (Seq<char>, HealthStatus),
> {
    metrics.map_values(|m: PluginMetrics| (m.plugin_name@, health_of(m, thresholds)))
}

/// The names and statuses of a list of statuses.
pub open spec fn status_view(list: Seq<(String, HealthStatus)>) -> Seq<(Seq<char>, HealthStatus)> {
    list.map_values(|e: (String, HealthStatus)| (e.0@, e.1))
}

/// The number of entries of `list` with the status `status`.
pub open spec fn count_status(list: Seq<(String, HealthStatus)>, status: HealthStatus) -> nat
    decreases list.len(),
{
    if list.len() == 0 {
        0
    } else {
        count_status(list.drop_last(), status) + if list.last().1 == status {
            1nat
        } else {
            0nat
        }
    }
}

proof fn lemma_count_status_bound(list: Seq<(String, HealthStatus)>, status: HealthStatus)
    ensures
        count_status(list, status) <= list.len(),
    decreases list.len(),
{
    if list.len() > 0 {
        lemma_count_status_bound(list.drop_last(), status);
    }
}

/// The names of the entries of `list` that are critical, in order.
pub open spec fn critical_names(list: Seq<(String, HealthStatus)>) -> Seq<Seq<char>>
    decreases list.len(),
{
    if list.len() == 0 {
        Seq::empty()
    } else if list.last().1 is Critical {
        critical_names(list.drop_last()).push(list.last().0@)
    } else {
        critical_names(list.drop_last())
    }
}

/// Judges the health of the plugins by their metrics and keeps a history of it.
pub struct HealthMonitor {
    thresholds: HealthThresholds,
    status_history: VecDeque<Vec<(String, HealthStatus)>>,
    max_status_history: usize,
}

impl HealthMonitor {
    /// The thresholds.
    pub closed spec fn thresholds(&self) -> HealthThresholds {
        self.thresholds
    }

    /// The statuses found by the checks so far, oldest first.
    pub closed spec fn history(&self) -> Seq<Vec<(String, HealthStatus)>> {
        self.status_history@
    }

    /// The number of checks that the history holds at most.
    pub closed spec fn capacity(&self) -> nat {
        self.max_status_history as nat
    }

    /// Whether `self` is `before` after one check that found `statuses`.
    pub open spec fn checked(&self, before: &HealthMonitor, statuses: Seq<(Seq<char>, HealthStatus)>) -> bool {
        &&& self.thresholds() == before.thresholds()
        &&& self.capacity() == before.capacity()
        &&& exists|kept: Vec<(String, HealthStatus)>|
            status_view(kept@) == statuses && self.history() == bounded_push(
                before.history(),
                kept,
                before.capacity(),
            )
    }

    /// A monitor with an empty history.
    pub fn new(thresholds: HealthThresholds, max_status_history: usize) -> (r: Self)
        ensures
            r.thresholds() == thresholds,
            r.history().len() == 0,
            r.capacity() == max_status_history,
    {
        HealthMonitor { thresholds, status_history: VecDeque::new(), max_status_history }
    }

    fn judge(&self, collector: &MetricsCollector) -> (r: Vec<(String, HealthStatus)>)
        ensures
            status_view(r@) == statuses_of(collector.metrics(), self.thresholds()),
    {
        let metrics = collector.get_all_metrics();
        let mut out: Vec<(String, HealthStatus)> = Vec::new();
        let mut i: usize = 0;
        while i < metrics.len()
            invariant
                i <= metrics@.len(),
                out@.len() == i,
                forall|k: int|
                    0 <= k < i ==> (#[trigger] out@[k]).0@ == metrics@[k].plugin_name@ && out@[k].1
                        == health_of(metrics@[k], self.thresholds()),
            decreases metrics@.len() - i,
        {
            let status = HealthStatus::from_metrics(&metrics[i], &self.thresholds);
            out.push((metrics[i].plugin_name.clone(), status));
            i = i + 1;
        }
        assert(status_view(out@) =~= statuses_of(metrics@, self.thresholds()));
        out
    }

    fn copy_statuses(list: &Vec<(String, HealthStatus)>) -> (r: Vec<(String, HealthStatus)>)
        ensures
            status_view(r@) == status_view(list@),
    {
        let mut out: Vec<(String, HealthStatus)> = Vec::new();
        let mut i: usize = 0;
        while i < list.len()
            invariant
                i <= list@.len(),
                out@.len() == i,
                forall|k: int|
                    0 <= k < i ==> (#[trigger] out@[k]).0@ == list@[k].0@ && out@[k].1 == list@[k].1,
            decreases list@.len() - i,
        {
            out.push((list[i].0.clone(), list[i].1));
            i = i + 1;
        }
        assert(status_view(out@) =~= status_view(list@));
        out
    }

    /// Judges the health of every plugin with metrics, and notes the
    /// result in the history.
    pub fn check_health(&mut self, collector: &MetricsCollector) -> (r: Vec<(String, HealthStatus)>)
        ensures
            status_view(r@) == statuses_of(collector.metrics(), old(self).thresholds()),
            final(self).checked(old(self), status_view(r@)),
    {
        let statuses = self.judge(collector);
        let kept = Self::copy_statuses(&statuses);
        push_bounded(&mut self.status_history, kept, self.max_status_history);
        assert(status_view(kept@) == status_view(statuses@) && self.history() == bounded_push(
            old(self).history(),
            kept,
            old(self).capacity(),
        ));
        statuses
    }

    /// The health of `plugin_name`: unknown where it has no metrics.
    pub fn get_plugin_health(&self, collector: &MetricsCollector, plugin_name: &str) -> (r: HealthStatus)
        requires
            collector.wf(),
        ensures
            r == match collector.position(plugin_name@) {
                Some(i) => health_of(collector.metrics()[i], self.thresholds()),
                None => HealthStatus::Unknown,
            },
    {
        match collector.get_plugin_metrics(plugin_name) {
            Some(metrics) => HealthStatus::from_metrics(metrics, &self.thresholds),
            None => HealthStatus::Unknown,
        }
    }

    /// The statuses found by the checks so far, oldest first.
    pub fn get_health_history(&self) -> (r: &VecDeque<Vec<(String, HealthStatus)>>)
        ensures
            r@ == self.history(),
    {
        &self.status_history
    }

    /// Checks the health of every plugin and names the critical ones.
    pub fn get_critical_plugins(&mut self, collector: &MetricsCollector) -> (r: Vec<String>)
        ensures
            exists|statuses: Vec<(String, HealthStatus)>|
                status_view(statuses@) == statuses_of(collector.metrics(), old(self).thresholds())
                    && final(self).checked(old(self), status_view(statuses@)) && names_of(r@)
                    == critical_names(statuses@),
    {
        let statuses = self.check_health(collector);
        let mut out: Vec<String> = Vec::new();
        let mut i: usize = 0;
        assert(statuses@.take(0) =~= Seq::<(String, HealthStatus)>::empty());
        assert(names_of(out@) =~= Seq::<Seq<char>>::empty());
        while i < statuses.len()
            invariant
                i <= statuses@.len(),
                names_of(out@) == critical_names(statuses@.take(i as int)),
            decreases statuses@.len() - i,
        {
            assert(statuses@.take(i + 1).drop_last() =~= statuses@.take(i as int));
            assert(statuses@.take(i + 1).last() == statuses@[i as int]);
            match statuses[i].1 {
                HealthStatus::Critical => {
                    let name = statuses[i].0.clone();
                    proof {
                        lemma_names_push(out@, name);
                    }
                    out.push(name);
                },
                _ => {},
            }
            i = i + 1;
        }
        assert(statuses@.take(i as int) =~= statuses@);
        out
    }

    /// Checks the health of every plugin and counts the plugins by health.
    pub fn stats(&mut self, collector: &MetricsCollector) -> (r: HealthMonitorStats)
        ensures
            exists|statuses: Vec<(String, HealthStatus)>|
                status_view(statuses@) == statuses_of(collector.metrics(), old(self).thresholds())
                    && final(self).checked(old(self), status_view(statuses@)) && r.total_plugins
                    == statuses@.len() && r.healthy == count_status(statuses@, HealthStatus::Healthy)
                    && r.warning == count_status(statuses@, HealthStatus::Warning) && r.critical
                    == count_status(statuses@, HealthStatus::Critical) && r.unknown == count_status(
                    statuses@,
                    HealthStatus::Unknown,
                ),
            r.history_size == final(self).history().len(),
    {
        let statuses = self.check_health(collector);
        let mut healthy: usize = 0;
        let mut warning: usize = 0;
        let mut critical: usize = 0;
        let mut unknown: usize = 0;
        let mut i: usize = 0;
        assert(statuses@.take(0) =~= Seq::<(String, HealthStatus)>::empty());
        while i < statuses.len()
            invariant
                i <= statuses@.len(),
                healthy == count_status(statuses@.take(i as int), HealthStatus::Healthy),
                warning == count_status(statuses@.take(i as int), HealthStatus::Warning),
                critical == count_status(statuses@.take(i as int), HealthStatus::Critical),
                unknown == count_status(statuses@.take(i as int), HealthStatus::Unknown),
            decreases statuses@.len() - i,
        {
            proof {
                assert(statuses@.take(i + 1).drop_last() =~= statuses@.take(i as int));
                assert(statuses@.take(i + 1).last() == statuses@[i as int]);
                lemma_count_status_bound(statuses@.take(i as int), HealthStatus::Healthy);
                lemma_count_status_bound(statuses@.take(i as int), HealthStatus::Warning);
                lemma_count_status_bound(statuses@.take(i as int), HealthStatus::Critical);
                lemma_count_status_bound(statuses@.take(i as int), HealthStatus::Unknown);
            }
            match statuses[i].1 {
                HealthStatus::Healthy => {
                    healthy = healthy + 1;
                },
                HealthStatus::Warning => {
                    warning = warning + 1;
                },
                HealthStatus::Critical => {
                    critical = critical + 1;
                },
                HealthStatus::Unknown => {
                    unknown = unknown + 1;
                },
            }
            i = i + 1;
        }
        assert(statuses@.take(i as int) =~= statuses@);
        HealthMonitorStats {
            total_plugins: statuses.len(),
            healthy,
            warning,
            critical,
            unknown,
            history_size: self.status_history.len(),
        }
    }
}

} // verus!
