//! Counters, gauges and value distributions, addressed by name.
//!
//! A counter accumulates (wrapping at the top, as a fixed-width
//! register does), a gauge holds the last value written, and a
//! histogram keeps every recorded value, in order, so that exact
//! rank-based percentiles can be read back.

use vstd::prelude::*;

use crate::clock::now_millis;
use crate::keyed::entry_of_key;
use crate::keyed::has_key;
use crate::keyed::index_of_key;
use crate::keyed::keys_unique;
use crate::keyed::lemma_entry_at;
use crate::keyed::lemma_push_entry;
use crate::keyed::lemma_remove_entry;
use crate::keyed::lemma_update_entry;
use crate::keyed::Keyed;

verus! {

/// One step of a wrapping 64-bit accumulator.
pub open spec fn wrap_add(a: u64, b: u64) -> u64 {
    ((a + b) % 0x1_0000_0000_0000_0000) as u64
}

/// Configuration of the collector.
#[derive(Clone, Copy, Debug, PartialEq, Eq, Structural)]
pub struct CollectorConfig {
    /// Buffer size for batch operations.
    pub buffer_size: usize,
    /// Flush interval for batch processing, in milliseconds.
    pub flush_interval_ms: u64,
    /// Whether SIMD-optimised aggregation may be used downstream.
    pub enable_simd: bool,
    /// Significant digits a bucketing histogram would keep; the exact
    /// histograms here record every value as-is.
    pub histogram_significant_digits: u8,
}

impl Default for CollectorConfig {
    /// The stock configuration.
    fn default() -> (r: CollectorConfig)
        ensures
            r == (CollectorConfig {
                buffer_size: 10000,
                flush_interval_ms: 100,
                enable_simd: true,
                histogram_significant_digits: 3,
            }),
    {
        CollectorConfig {
            buffer_size: 10000,
            flush_interval_ms: 100,
            enable_simd: true,
            histogram_significant_digits: 3,
        }
    }
}

/// The collector's bookkeeping about itself.
#[derive(Clone, Copy, Debug, PartialEq, Eq, Structural)]
pub struct InternalMetrics {
    /// Number of metric writes accepted, wrapping at the top.
    pub total_metrics: u64,
    /// Number of flush operations performed.
    pub flush_count: u64,
    /// Current buffer utilisation.
    pub buffer_utilization: u64,
    /// Clock reading at construction, in milliseconds.
    pub start_time_ms: u64,
}

/// A point-in-time copy of [`InternalMetrics`], with the uptime it
/// implies.
#[derive(Clone, Copy, Debug, PartialEq, Eq, Structural)]
pub struct InternalMetricsSnapshot {
    /// Number of metric writes accepted.
    pub total_metrics: u64,
    /// Number of flush operations performed.
    pub flush_count: u64,
    /// Current buffer utilisation.
    pub buffer_utilization: u64,
    /// Milliseconds since construction.
    pub uptime: u64,
}

/// The kinds of metrics a name can address.
#[derive(Clone, Copy, Debug, PartialEq, Eq, Structural)]
pub enum MetricType {
    Counter,
    Gauge,
    Histogram,
}

/// A recorded value, tagged with the kind of metric it belongs to.
#[derive(Clone, Copy, Debug, PartialEq, Eq, Structural)]
pub enum MetricValue {
    Counter(u64),
    Gauge(u64),
    Histogram(u64),
}

/// One metric write, as an event for batch processing.
#[derive(Debug)]
pub struct MetricEvent {
    /// Clock reading of the write, in milliseconds.
    pub timestamp_ms: u64,
    /// The metric's name.
    pub name: String,
    /// The kind of metric written.
    pub metric_type: MetricType,
    /// The value written.
    pub value: MetricValue,
}

/// A named 64-bit cell: one counter or one gauge.
#[derive(Debug)]
pub struct MetricCell {
    /// The metric's name.
    pub name: String,
    /// Its current value.
    pub value: u64,
}

impl Keyed<Seq<char>> for MetricCell {
    open spec fn key(self) -> Seq<char> {
        self.name@
    }
}

impl Clone for MetricCell {
    fn clone(&self) -> (r: Self)
        ensures
            r == *self,
    {
        MetricCell { name: self.name.clone(), value: self.value }
    }
}

/// A named distribution: every recorded value, kept in ascending
/// order.
#[derive(Debug)]
pub struct HistogramSeries {
    /// The histogram's name.
    pub name: String,
    /// The recorded values, ascending.
    pub values: Vec<u64>,
}

impl Keyed<Seq<char>> for HistogramSeries {
    open spec fn key(self) -> Seq<char> {
        self.name@
    }
}

/// Rank statistics of one histogram.
#[derive(Clone, Copy, Debug, PartialEq, Eq, Structural)]
pub struct HistogramStats {
    /// Number of recorded values.
    pub count: u64,
    /// Smallest recorded value.
    pub min: u64,
    /// Largest recorded value.
    pub max: u64,
    /// Median, by the nearest-rank rule.
    pub p50: u64,
    /// 95th percentile, by the nearest-rank rule.
    pub p95: u64,
    /// 99th percentile, by the nearest-rank rule.
    pub p99: u64,
    /// 99.9th percentile, by the nearest-rank rule.
    pub p999: u64,
}

// ---------------------------------------------------------------------
// Ordered sequences of recorded values
// ---------------------------------------------------------------------

/// Ascending order.
pub open spec fn spec_sorted(s: Seq<u64>) -> bool {
    forall|i: int, j: int| 0 <= i <= j < s.len() ==> #[trigger] s[i] <= #[trigger] s[j]
}

/// Where one more value lands in an ascending sequence: after every
/// value not above it, before the rest.
pub open spec fn spec_sorted_insert(s: Seq<u64>, v: u64) -> Seq<u64>
    decreases s.len(),
{
    if s.len() == 0 {
        seq![v]
    } else if s[0] <= v {
        seq![s[0]] + spec_sorted_insert(s.drop_first(), v)
    } else {
        seq![v] + s
    }
}

/// Inserts a value into an ascending vector, keeping it ascending.
fn insert_sorted(values: &mut Vec<u64>, v: u64)
    requires
        spec_sorted(old(values)@),
    ensures
        final(values)@ == spec_sorted_insert(old(values)@, v),
        spec_sorted(final(values)@),
        final(values)@.len() == old(values)@.len() + 1,
{
    let ghost full = values@;
    let n = values.len();
    let mut i: usize = 0;
    proof {
        assert(full.skip(0) =~= full);
        assert(full.take(0) =~= Seq::<u64>::empty());
        assert(spec_sorted_insert(full, v) == full.take(0) + spec_sorted_insert(
            full.skip(0),
            v,
        )) by {
            assert(full.take(0) + spec_sorted_insert(full.skip(0), v) =~= spec_sorted_insert(
                full,
                v,
            ));
        }
    }
    while i < n && values[i] <= v
        invariant
            values@ == full,
            n == full.len(),
            i <= n,
            forall|j: int| 0 <= j < i ==> #[trigger] full[j] <= v,
            spec_sorted_insert(full, v) == full.take(i as int) + spec_sorted_insert(
                full.skip(i as int),
                v,
            ),
        decreases n - i,
    {
        proof {
            assert(full.skip(i as int)[0] == full[i as int]);
            assert(full.skip(i as int).drop_first() =~= full.skip(i + 1));
            assert(spec_sorted_insert(full.skip(i as int), v) == seq![full[i as int]]
                + spec_sorted_insert(full.skip(i + 1), v));
            assert(full.take(i + 1) =~= full.take(i as int).push(full[i as int]));
            assert(full.take(i as int) + (seq![full[i as int]] + spec_sorted_insert(
                full.skip(i + 1),
                v,
            )) =~= full.take(i + 1) + spec_sorted_insert(full.skip(i + 1), v));
        }
        i = i + 1;
    }
    proof {
        if i == n {
            assert(full.skip(n as int) =~= Seq::<u64>::empty());
            assert(spec_sorted_insert(full.skip(n as int), v) == seq![v]);
        } else {
            assert(full.skip(i as int)[0] == full[i as int]);
            assert(full[i as int] > v);
            assert(spec_sorted_insert(full.skip(i as int), v) == seq![v] + full.skip(i as int));
        }
        assert(spec_sorted_insert(full, v) =~= full.take(i as int).push(v) + full.skip(i as int));
    }
    values.insert(i, v);
    proof {
        assert(values@ == full.insert(i as int, v));
        assert(full.subrange(0, i as int) =~= full.take(i as int));
        assert(full.subrange(i as int, full.len() as int) =~= full.skip(i as int));
        assert(values@ =~= spec_sorted_insert(full, v));
        let r = values@;
        assert forall|p: int, q: int| 0 <= p <= q < r.len() implies #[trigger] r[p] <= #[trigger]
        r[q] by {
            let pv = if p < i {
                full[p]
            } else if p == i {
                v
            } else {
                full[p - 1]
            };
            let qv = if q < i {
                full[q]
            } else if q == i {
                v
            } else {
                full[q - 1]
            };
            assert(r[p] == pv && r[q] == qv);
            if p < i && q == i {
                assert(full[p] <= v);
            } else if p == i && q > i {
                assert(i < n);
                assert(full[i as int] <= full[q - 1]);
            } else if p < i && q > i {
                assert(full[p] <= full[q - 1]);
            } else if p == i && q == i {
            } else {
                assert(pv <= qv);
            }
        }
    }
}

// ---------------------------------------------------------------------
// Nearest-rank percentiles
// ---------------------------------------------------------------------

/// The nearest-rank index of the `num/den` quantile among `n` values:
/// the least index covering at least that share of them.
pub open spec fn spec_percentile_index(n: nat, num: nat, den: nat) -> int {
    (n * num + den - 1) / (den as int) - 1
}

/// Computes the nearest-rank index.
fn percentile_index(n: usize, num: u64, den: u64) -> (r: usize)
    requires
        n >= 1,
        1 <= num <= den,
    ensures
        r == spec_percentile_index(n as nat, num as nat, den as nat),
        r < n,
{
    proof {
        let cap = 0xffff_ffff_ffff_ffffu64 as int;
        assert((n as int) * (num as int) <= cap * cap) by (nonlinear_arith)
            requires
                0 <= n as int <= cap && 0 <= num as int <= cap,
        ;
    }
    let t: u128 = (n as u128) * (num as u128) + (den as u128) - 1;
    let q: u128 = t / (den as u128);
    proof {
        assert((n as int) * (num as int) >= 1 * 1) by (nonlinear_arith)
            requires
                n >= 1 && num >= 1,
        ;
        assert((n as int) * (num as int) <= (n as int) * (den as int)) by (nonlinear_arith)
            requires
                n >= 1 && num <= den,
        ;
        let ti = (n as int) * (num as int) + (den as int) - 1;
        assert(ti >= den as int);
        assert(q == ti / (den as int));
        assert(q >= 1) by (nonlinear_arith)
            requires
                q == ti / (den as int) && ti >= den as int && den >= 1,
        ;
        assert(ti <= (n as int) * (den as int) + (den as int) - 1);
        assert(ti / (den as int) <= n as int) by (nonlinear_arith)
            requires
                ti <= (n as int) * (den as int) + (den as int) - 1 && den >= 1 && ti >= 0,
        ;
    }
    (q - 1) as usize
}

/// The rank statistics of a non-empty ascending sequence.
pub open spec fn spec_hist_stats(vals: Seq<u64>) -> HistogramStats {
    HistogramStats {
        count: vals.len() as u64,
        min: vals[0],
        max: vals[vals.len() - 1],
        p50: vals[spec_percentile_index(vals.len(), 50, 100)],
        p95: vals[spec_percentile_index(vals.len(), 95, 100)],
        p99: vals[spec_percentile_index(vals.len(), 99, 100)],
        p999: vals[spec_percentile_index(vals.len(), 999, 1000)],
    }
}

// ---------------------------------------------------------------------
// The collector
// ---------------------------------------------------------------------

/// Position of a named cell.
fn cell_position(cells: &Vec<MetricCell>, name: &str) -> (r: Option<usize>)
    ensures
        match r {
            Some(i) => i < cells@.len() && cells@[i as int].name@ == name@,
            None => !has_key(cells@, name@),
        },
{
    let wanted = name.to_owned();
    let n = cells.len();
    let mut k: usize = 0;
    while k < n
        invariant
            n == cells@.len(),
            k <= n,
            wanted@ == name@,
            forall|j: int| 0 <= j < k ==> (#[trigger] cells@[j]).name@ != name@,
        decreases n - k,
    {
        if cells[k].name == wanted {
            return Some(k);
        }
        k = k + 1;
    }
    proof {
        if has_key(cells@, name@) {
            let w = index_of_key(cells@, name@);
            assert(0 <= w < cells@.len() && cells@[w].key() == name@);
        }
    }
    None
}

/// Position of a named series.
fn series_position(series: &Vec<HistogramSeries>, name: &str) -> (r: Option<usize>)
    ensures
        match r {
            Some(i) => i < series@.len() && series@[i as int].name@ == name@,
            None => !has_key(series@, name@),
        },
{
    let wanted = name.to_owned();
    let n = series.len();
    let mut k: usize = 0;
    while k < n
        invariant
            n == series@.len(),
            k <= n,
            wanted@ == name@,
            forall|j: int| 0 <= j < k ==> (#[trigger] series@[j]).name@ != name@,
        decreases n - k,
    {
        if series[k].name == wanted {
            return Some(k);
        }
        k = k + 1;
    }
    proof {
        if has_key(series@, name@) {
            let w = index_of_key(series@, name@);
            assert(0 <= w < series@.len() && series@[w].key() == name@);
        }
    }
    None
}

/// Copies a vector of recorded values.
fn clone_values(v: &Vec<u64>) -> (r: Vec<u64>)
    ensures
        r@ == v@,
{
    let mut r: Vec<u64> = Vec::new();
    let n = v.len();
    let mut i: usize = 0;
    while i < n
        invariant
            n == v@.len(),
            i <= n,
            r@ == v@.take(i as int),
        decreases n - i,
    {
        r.push(v[i]);
        proof {
            assert(v@.take(i + 1) =~= v@.take(i as int).push(v@[i as int]));
        }
        i = i + 1;
    }
    proof {
        assert(v@.take(n as int) =~= v@);
    }
    r
}

/// Copies a vector of metric cells.
fn clone_cells(v: &Vec<MetricCell>) -> (r: Vec<MetricCell>)
    ensures
        r@ == v@,
{
    let mut r: Vec<MetricCell> = Vec::new();
    let n = v.len();
    let mut i: usize = 0;
    while i < n
        invariant
            n == v@.len(),
            i <= n,
            r@ == v@.take(i as int),
        decreases n - i,
    {
        let cell = v[i].clone();
        r.push(cell);
        proof {
            assert(v@.take(i + 1) =~= v@.take(i as int).push(v@[i as int]));
        }
        i = i + 1;
    }
    proof {
        assert(v@.take(n as int) =~= v@);
    }
    r
}

/// A counter's value after one write: its old value, or zero where it
/// did not exist, stepped by the written amount.
pub open spec fn counter_after(pre: Option<u64>, value: u64) -> u64 {
    wrap_add(
        match pre {
            Some(v) => v,
            None => 0,
        },
        value,
    )
}

/// A histogram's values after one write: the written value folded into
/// the ascending order, starting from nothing where it did not exist.
pub open spec fn histogram_after(pre: Option<Seq<u64>>, value: u64) -> Seq<u64> {
    spec_sorted_insert(
        match pre {
            Some(s) => s,
            None => Seq::empty(),
        },
        value,
    )
}

/// Collector of counters, gauges and histograms.
pub struct MetricsCollector {
    /// The counters, one cell per name.
    pub counters: Vec<MetricCell>,
    /// The gauges, one cell per name.
    pub gauges: Vec<MetricCell>,
    /// The histograms, one series per name.
    pub histograms: Vec<HistogramSeries>,
    /// Configuration of the collector.
    pub config: CollectorConfig,
    /// The collector's bookkeeping about itself.
    pub internal_metrics: InternalMetrics,
}

impl MetricsCollector {
    /// Unique names per kind, and every histogram non-empty and
    /// ascending.
    pub open spec fn wf(self) -> bool {
        &&& keys_unique(self.counters@)
        &&& keys_unique(self.gauges@)
        &&& keys_unique(self.histograms@)
        &&& forall|i: int|
            0 <= i < self.histograms@.len() ==> spec_sorted(
                (#[trigger] self.histograms@[i]).values@,
            ) && self.histograms@[i].values@.len() > 0
    }

    /// The value a counter name holds.
    pub open spec fn spec_counter(self, name: Seq<char>) -> Option<u64> {
        if has_key(self.counters@, name) {
            Some(entry_of_key(self.counters@, name).value)
        } else {
            None
        }
    }

    /// The value a gauge name holds.
    pub open spec fn spec_gauge(self, name: Seq<char>) -> Option<u64> {
        if has_key(self.gauges@, name) {
            Some(entry_of_key(self.gauges@, name).value)
        } else {
            None
        }
    }

    /// The recorded values a histogram name holds, ascending.
    pub open spec fn spec_histogram(self, name: Seq<char>) -> Option<Seq<u64>> {
        if has_key(self.histograms@, name) {
            Some(entry_of_key(self.histograms@, name).values@)
        } else {
            None
        }
    }

    /// A fresh collector under the given configuration.
    pub fn with_config(config: CollectorConfig) -> (r: MetricsCollector)
        ensures
            r.wf(),
            r.counters@ == Seq::<MetricCell>::empty(),
            r.gauges@ == Seq::<MetricCell>::empty(),
            r.histograms@ == Seq::<HistogramSeries>::empty(),
            r.config == config,
            r.internal_metrics.total_metrics == 0,
            r.internal_metrics.flush_count == 0,
            r.internal_metrics.buffer_utilization == 0,
    {
        let now_ms = now_millis();
        let r = MetricsCollector {
            counters: Vec::new(),
            gauges: Vec::new(),
            histograms: Vec::new(),
            config,
            internal_metrics: InternalMetrics {
                total_metrics: 0,
                flush_count: 0,
                buffer_utilization: 0,
                start_time_ms: now_ms,
            },
        };
        proof {
            assert(r.counters@ =~= Seq::<MetricCell>::empty());
            assert(r.gauges@ =~= Seq::<MetricCell>::empty());
            assert(r.histograms@ =~= Seq::<HistogramSeries>::empty());
        }
        r
    }

    /// A fresh collector under the stock configuration.
    pub fn new() -> (r: MetricsCollector)
        ensures
            r.wf(),
            r.counters@ == Seq::<MetricCell>::empty(),
            r.gauges@ == Seq::<MetricCell>::empty(),
            r.histograms@ == Seq::<HistogramSeries>::empty(),
            r.config == (CollectorConfig {
                buffer_size: 10000,
                flush_interval_ms: 100,
                enable_simd: true,
                histogram_significant_digits: 3,
            }),
            r.internal_metrics.total_metrics == 0,
            r.internal_metrics.flush_count == 0,
            r.internal_metrics.buffer_utilization == 0,
    {
        Self::with_config(CollectorConfig::default())
    }

    /// Adds an amount to a named counter, creating it from zero on its
    /// first write. The counter wraps at the top, as the lock-free
    /// fetch-and-add it stands for does.
    pub fn add_counter(&mut self, name: &str, value: u64)
        requires
            old(self).wf(),
        ensures
            final(self).wf(),
            final(self).spec_counter(name@) == Some(
                counter_after(old(self).spec_counter(name@), value),
            ),
            forall|other: Seq<char>|
                other != name@ ==> #[trigger] final(self).spec_counter(other) == old(
                    self,
                ).spec_counter(other),
            final(self).gauges@ == old(self).gauges@,
            final(self).histograms@ == old(self).histograms@,
            final(self).config == old(self).config,
            final(self).internal_metrics == (InternalMetrics {
                total_metrics: wrap_add(old(self).internal_metrics.total_metrics, 1),
                ..old(self).internal_metrics
            }),
    {
        self.internal_metrics.total_metrics =
            self.internal_metrics.total_metrics.wrapping_add(1);
        let pos = cell_position(&self.counters, name);
        match pos {
            Some(i) => {
                proof {
                    lemma_entry_at(self.counters@, i as int);
                }
                let mut cell = self.counters[i].clone();
                cell.value = cell.value.wrapping_add(value);
                let ghost pre = self.counters@;
                self.counters[i] = cell;
                proof {
                    assert(self.counters@ == pre.update(i as int, cell));
                    lemma_update_entry(pre, i as int, cell, name@);
                    assert forall|other: Seq<char>| other != name@ implies #[trigger]
                    self.spec_counter(other) == old(self).spec_counter(other) by {
                        lemma_update_entry(pre, i as int, cell, other);
                    }
                }
            },
            None => {
                let cell = MetricCell { name: name.to_owned(), value };
                let ghost pre = self.counters@;
                self.counters.push(cell);
                proof {
                    assert(self.counters@ == pre.push(cell));
                    lemma_push_entry(pre, cell, name@);
                    assert forall|other: Seq<char>| other != name@ implies #[trigger]
                    self.spec_counter(other) == old(self).spec_counter(other) by {
                        lemma_push_entry(pre, cell, other);
                    }
                }
            },
        }
    }

    /// Steps a named counter by one.
    pub fn increment_counter(&mut self, name: &str)
        requires
            old(self).wf(),
        ensures
            final(self).wf(),
            final(self).spec_counter(name@) == Some(
                counter_after(old(self).spec_counter(name@), 1),
            ),
            forall|other: Seq<char>|
                other != name@ ==> #[trigger] final(self).spec_counter(other) == old(
                    self,
                ).spec_counter(other),
            final(self).gauges@ == old(self).gauges@,
            final(self).histograms@ == old(self).histograms@,
            final(self).config == old(self).config,
            final(self).internal_metrics == (InternalMetrics {
                total_metrics: wrap_add(old(self).internal_metrics.total_metrics, 1),
                ..old(self).internal_metrics
            }),
    {
        self.add_counter(name, 1);
    }

    /// The value a counter holds; absence for a name never written.
    pub fn get_counter(&self, name: &str) -> (r: Option<u64>)
        requires
            self.wf(),
        ensures
            r == self.spec_counter(name@),
    {
        match cell_position(&self.counters, name) {
            None => None,
            Some(i) => {
                proof {
                    lemma_entry_at(self.counters@, i as int);
                }
                Some(self.counters[i].value)
            },
        }
    }

    /// Sets a named gauge to a value, creating it on its first write.
    pub fn set_gauge(&mut self, name: &str, value: u64)
        requires
            old(self).wf(),
        ensures
            final(self).wf(),
            final(self).spec_gauge(name@) == Some(value),
            forall|other: Seq<char>|
                other != name@ ==> #[trigger] final(self).spec_gauge(other) == old(
                    self,
                ).spec_gauge(other),
            final(self).counters@ == old(self).counters@,
            final(self).histograms@ == old(self).histograms@,
            final(self).config == old(self).config,
            final(self).internal_metrics == (InternalMetrics {
                total_metrics: wrap_add(old(self).internal_metrics.total_metrics, 1),
                ..old(self).internal_metrics
            }),
    {
        self.internal_metrics.total_metrics =
            self.internal_metrics.total_metrics.wrapping_add(1);
        let pos = cell_position(&self.gauges, name);
        match pos {
            Some(i) => {
                proof {
                    lemma_entry_at(self.gauges@, i as int);
                }
                let mut cell = self.gauges[i].clone();
                cell.value = value;
                let ghost pre = self.gauges@;
                self.gauges[i] = cell;
                proof {
                    assert(self.gauges@ == pre.update(i as int, cell));
                    lemma_update_entry(pre, i as int, cell, name@);
                    assert forall|other: Seq<char>| other != name@ implies #[trigger]
                    self.spec_gauge(other) == old(self).spec_gauge(other) by {
                        lemma_update_entry(pre, i as int, cell, other);
                    }
                }
            },
            None => {
                let cell = MetricCell { name: name.to_owned(), value };
                let ghost pre = self.gauges@;
                self.gauges.push(cell);
                proof {
                    assert(self.gauges@ == pre.push(cell));
                    lemma_push_entry(pre, cell, name@);
                    assert forall|other: Seq<char>| other != name@ implies #[trigger]
                    self.spec_gauge(other) == old(self).spec_gauge(other) by {
                        lemma_push_entry(pre, cell, other);
                    }
                }
            },
        }
    }

    /// The value a gauge holds; absence for a name never written.
    pub fn get_gauge(&self, name: &str) -> (r: Option<u64>)
        requires
            self.wf(),
        ensures
            r == self.spec_gauge(name@),
    {
        match cell_position(&self.gauges, name) {
            None => None,
            Some(i) => {
                proof {
                    lemma_entry_at(self.gauges@, i as int);
                }
                Some(self.gauges[i].value)
            },
        }
    }

    /// Records a value into a named histogram, creating the histogram
    /// on its first write.
    pub fn record_histogram(&mut self, name: &str, value: u64)
        requires
            old(self).wf(),
        ensures
            final(self).wf(),
            final(self).spec_histogram(name@) == Some(
                histogram_after(old(self).spec_histogram(name@), value),
            ),
            forall|other: Seq<char>|
                other != name@ ==> #[trigger] final(self).spec_histogram(other) == old(
                    self,
                ).spec_histogram(other),
            final(self).counters@ == old(self).counters@,
            final(self).gauges@ == old(self).gauges@,
            final(self).config == old(self).config,
            final(self).internal_metrics == (InternalMetrics {
                total_metrics: wrap_add(old(self).internal_metrics.total_metrics, 1),
                ..old(self).internal_metrics
            }),
    {
        self.internal_metrics.total_metrics =
            self.internal_metrics.total_metrics.wrapping_add(1);
        let pos = series_position(&self.histograms, name);
        match pos {
            Some(i) => {
                proof {
                    lemma_entry_at(self.histograms@, i as int);
                }
                let mut values = clone_values(&self.histograms[i].values);
                insert_sorted(&mut values, value);
                let series = HistogramSeries { name: self.histograms[i].name.clone(), values };
                let ghost pre = self.histograms@;
                self.histograms[i] = series;
                proof {
                    assert(self.histograms@ == pre.update(i as int, series));
                    lemma_update_entry(pre, i as int, series, name@);
                    assert forall|other: Seq<char>| other != name@ implies #[trigger]
                    self.spec_histogram(other) == old(self).spec_histogram(other) by {
                        lemma_update_entry(pre, i as int, series, other);
                    }
                    assert forall|j: int|
                        0 <= j < self.histograms@.len() implies spec_sorted(
                        (#[trigger] self.histograms@[j]).values@,
                    ) && self.histograms@[j].values@.len() > 0 by {
                        if j != i {
                            assert(self.histograms@[j] == pre[j]);
                        }
                    }
                }
            },
            None => {
                let mut values: Vec<u64> = Vec::new();
                proof {
                    assert(values@ =~= Seq::<u64>::empty());
                }
                insert_sorted(&mut values, value);
                let series = HistogramSeries { name: name.to_owned(), values };
                let ghost pre = self.histograms@;
                self.histograms.push(series);
                proof {
                    assert(self.histograms@ == pre.push(series));
                    lemma_push_entry(pre, series, name@);
                    assert forall|other: Seq<char>| other != name@ implies #[trigger]
                    self.spec_histogram(other) == old(self).spec_histogram(other) by {
                        lemma_push_entry(pre, series, other);
                    }
                    assert forall|j: int|
                        0 <= j < self.histograms@.len() implies spec_sorted(
                        (#[trigger] self.histograms@[j]).values@,
                    ) && self.histograms@[j].values@.len() > 0 by {
                        if j < pre.len() {
                            assert(self.histograms@[j] == pre[j]);
                        }
                    }
                }
            },
        }
    }

    /// Records a duration, in milliseconds, into the histogram whose
    /// name is the operation's name with a millisecond suffix.
    pub fn record_timing(&mut self, name: &str, duration_ms: u64)
        requires
            old(self).wf(),
        ensures
            final(self).wf(),
            final(self).spec_histogram(name@ + "_ms"@) == Some(
                histogram_after(old(self).spec_histogram(name@ + "_ms"@), duration_ms),
            ),
            forall|other: Seq<char>|
                other != name@ + "_ms"@ ==> #[trigger] final(self).spec_histogram(other) == old(
                    self,
                ).spec_histogram(other),
            final(self).counters@ == old(self).counters@,
            final(self).gauges@ == old(self).gauges@,
            final(self).config == old(self).config,
            final(self).internal_metrics == (InternalMetrics {
                total_metrics: wrap_add(old(self).internal_metrics.total_metrics, 1),
                ..old(self).internal_metrics
            }),
    {
        let mut key = name.to_owned();
        key.append("_ms");
        self.record_histogram(key.as_str(), duration_ms);
    }

    /// The rank statistics of a named histogram; absence for a name
    /// never recorded into.
    pub fn get_histogram_stats(&self, name: &str) -> (r: Option<HistogramStats>)
        requires
            self.wf(),
        ensures
            r == (match self.spec_histogram(name@) {
                Some(vals) => Some(spec_hist_stats(vals)),
                None => None,
            }),
    {
        match series_position(&self.histograms, name) {
            None => None,
            Some(i) => {
                proof {
                    lemma_entry_at(self.histograms@, i as int);
                }
                let values = &self.histograms[i].values;
                let n = values.len();
                let i50 = percentile_index(n, 50, 100);
                let i95 = percentile_index(n, 95, 100);
                let i99 = percentile_index(n, 99, 100);
                let i999 = percentile_index(n, 999, 1000);
                Some(
                    HistogramStats {
                        count: n as u64,
                        min: values[0],
                        max: values[n - 1],
                        p50: values[i50],
                        p95: values[i95],
                        p99: values[i99],
                        p999: values[i999],
                    },
                )
            },
        }
    }

    /// The recorded values of a named histogram, ascending; absence
    /// for a name never recorded into.
    pub fn histogram_values(&self, name: &str) -> (r: Option<Vec<u64>>)
        requires
            self.wf(),
        ensures
            r matches Some(v) ==> self.spec_histogram(name@) == Some(v@),
            r is None ==> self.spec_histogram(name@) is None,
    {
        match series_position(&self.histograms, name) {
            None => None,
            Some(i) => {
                proof {
                    lemma_entry_at(self.histograms@, i as int);
                }
                Some(clone_values(&self.histograms[i].values))
            },
        }
    }

    /// Every counter, as cells.
    pub fn get_all_counters(&self) -> (r: Vec<MetricCell>)
        ensures
            r@ == self.counters@,
    {
        clone_cells(&self.counters)
    }

    /// Every gauge, as cells.
    pub fn get_all_gauges(&self) -> (r: Vec<MetricCell>)
        ensures
            r@ == self.gauges@,
    {
        clone_cells(&self.gauges)
    }

    /// The collector's bookkeeping at a given clock reading.
    pub fn get_internal_metrics_at(&self, now_ms: u64) -> (r: InternalMetricsSnapshot)
        ensures
            r == (InternalMetricsSnapshot {
                total_metrics: self.internal_metrics.total_metrics,
                flush_count: self.internal_metrics.flush_count,
                buffer_utilization: self.internal_metrics.buffer_utilization,
                uptime: crate::sandbox::spec_duration(
                    now_ms,
                    self.internal_metrics.start_time_ms,
                ),
            }),
    {
        let start = self.internal_metrics.start_time_ms;
        let uptime = if now_ms >= start {
            now_ms - start
        } else {
            0
        };
        InternalMetricsSnapshot {
            total_metrics: self.internal_metrics.total_metrics,
            flush_count: self.internal_metrics.flush_count,
            buffer_utilization: self.internal_metrics.buffer_utilization,
            uptime,
        }
    }

    /// The collector's bookkeeping against the live clock; the uptime
    /// is whatever span the environment's clock showed.
    pub fn get_internal_metrics(&self) -> (r: InternalMetricsSnapshot)
        ensures
            r.total_metrics == self.internal_metrics.total_metrics,
            r.flush_count == self.internal_metrics.flush_count,
            r.buffer_utilization == self.internal_metrics.buffer_utilization,
            exists|now_ms: u64|
                r.uptime == crate::sandbox::spec_duration(
                    now_ms,
                    self.internal_metrics.start_time_ms,
                ),
    {
        let now_ms = now_millis();
        let r = self.get_internal_metrics_at(now_ms);
        proof {
            assert(r.uptime == crate::sandbox::spec_duration(
                now_ms,
                self.internal_metrics.start_time_ms,
            ));
        }
        r
    }

    /// Forgets every metric; the collector's construction time and
    /// buffer gauge stay.
    pub fn reset_all(&mut self)
        requires
            old(self).wf(),
        ensures
            final(self).wf(),
            final(self).counters@ == Seq::<MetricCell>::empty(),
            final(self).gauges@ == Seq::<MetricCell>::empty(),
            final(self).histograms@ == Seq::<HistogramSeries>::empty(),
            final(self).config == old(self).config,
            final(self).internal_metrics == (InternalMetrics {
                total_metrics: 0,
                flush_count: 0,
                ..old(self).internal_metrics
            }),
    {
        self.counters.clear();
        self.gauges.clear();
        self.histograms.clear();
        self.internal_metrics.total_metrics = 0;
        self.internal_metrics.flush_count = 0;
        proof {
            assert(self.counters@ =~= Seq::<MetricCell>::empty());
            assert(self.gauges@ =~= Seq::<MetricCell>::empty());
            assert(self.histograms@ =~= Seq::<HistogramSeries>::empty());
        }
    }

    /// Resets one metric: a counter or gauge falls back to zero but
    /// keeps its cell, a histogram is dropped entirely.
    pub fn reset_metric(&mut self, name: &str, metric_type: MetricType)
        requires
            old(self).wf(),
        ensures
            final(self).wf(),
            final(self).config == old(self).config,
            final(self).internal_metrics == old(self).internal_metrics,
            (match metric_type {
                MetricType::Counter => {
                    &&& final(self).spec_counter(name@) == (match old(self).spec_counter(name@) {
                        Some(_) => Some(0u64),
                        None => None,
                    })
                    &&& forall|other: Seq<char>|
                        other != name@ ==> #[trigger] final(self).spec_counter(other) == old(
                            self,
                        ).spec_counter(other)
                    &&& final(self).gauges@ == old(self).gauges@
                    &&& final(self).histograms@ == old(self).histograms@
                },
                MetricType::Gauge => {
                    &&& final(self).spec_gauge(name@) == (match old(self).spec_gauge(name@) {
                        Some(_) => Some(0u64),
                        None => None,
                    })
                    &&& forall|other: Seq<char>|
                        other != name@ ==> #[trigger] final(self).spec_gauge(other) == old(
                            self,
                        ).spec_gauge(other)
                    &&& final(self).counters@ == old(self).counters@
                    &&& final(self).histograms@ == old(self).histograms@
                },
                MetricType::Histogram => {
                    &&& final(self).spec_histogram(name@) is None
                    &&& forall|other: Seq<char>|
                        other != name@ ==> #[trigger] final(self).spec_histogram(other) == old(
                            self,
                        ).spec_histogram(other)
                    &&& final(self).counters@ == old(self).counters@
                    &&& final(self).gauges@ == old(self).gauges@
                },
            }),
    {
        match metric_type {
            MetricType::Counter => {
                let pos = cell_position(&self.counters, name);
                match pos {
                    Some(i) => {
                        proof {
                            lemma_entry_at(self.counters@, i as int);
                        }
                        let mut cell = self.counters[i].clone();
                        cell.value = 0;
                        let ghost pre = self.counters@;
                        self.counters[i] = cell;
                        proof {
                            assert(self.counters@ == pre.update(i as int, cell));
                            lemma_update_entry(pre, i as int, cell, name@);
                            assert forall|other: Seq<char>| other != name@ implies #[trigger]
                            self.spec_counter(other) == old(self).spec_counter(other) by {
                                lemma_update_entry(pre, i as int, cell, other);
                            }
                        }
                    },
                    None => {},
                }
            },
            MetricType::Gauge => {
                let pos = cell_position(&self.gauges, name);
                match pos {
                    Some(i) => {
                        proof {
                            lemma_entry_at(self.gauges@, i as int);
                        }
                        let mut cell = self.gauges[i].clone();
                        cell.value = 0;
                        let ghost pre = self.gauges@;
                        self.gauges[i] = cell;
                        proof {
                            assert(self.gauges@ == pre.update(i as int, cell));
                            lemma_update_entry(pre, i as int, cell, name@);
                            assert forall|other: Seq<char>| other != name@ implies #[trigger]
                            self.spec_gauge(other) == old(self).spec_gauge(other) by {
                                lemma_update_entry(pre, i as int, cell, other);
                            }
                        }
                    },
                    None => {},
                }
            },
            MetricType::Histogram => {
                let pos = series_position(&self.histograms, name);
                match pos {
                    Some(i) => {
                        proof {
                            lemma_entry_at(self.histograms@, i as int);
                        }
                        let ghost pre = self.histograms@;
                        let _ = self.histograms.remove(i);
                        proof {
                            assert(self.histograms@ == pre.remove(i as int));
                            lemma_remove_entry(pre, i as int, name@);
                            assert forall|other: Seq<char>| other != name@ implies #[trigger]
                            self.spec_histogram(other) == old(self).spec_histogram(other) by {
                                lemma_remove_entry(pre, i as int, other);
                            }
                            assert forall|j: int|
                                0 <= j < self.histograms@.len() implies spec_sorted(
                                (#[trigger] self.histograms@[j]).values@,
                            ) && self.histograms@[j].values@.len() > 0 by {
                                if j < i {
                                    assert(self.histograms@[j] == pre[j]);
                                } else {
                                    assert(self.histograms@[j] == pre[j + 1]);
                                }
                            }
                        }
                    },
                    None => {},
                }
            },
        }
    }
}

} // verus!
