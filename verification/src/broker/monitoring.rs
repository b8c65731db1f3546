//! Monitoring: the configuration of metrics export and dashboards, metric
//! kinds, latency percentiles and alerts.

use vstd::prelude::*;
use vstd::multiset::Multiset;
use std::time::Duration;
use crate::broker::names::NameMap;
use crate::broker::time::{duration_as_nanos, duration_from_millis, duration_nanos};
use crate::migration::chars_of;
use crate::qiss::types::Timestamp;

verus! {

/// Metrics export configuration.
#[derive(Debug, Clone)]
pub struct MetricsExportConfig {
    /// Enable Prometheus export
    pub enable_prometheus: bool,
    /// Prometheus endpoint
    pub prometheus_endpoint: String,
    /// Enable InfluxDB export
    pub enable_influxdb: bool,
    /// InfluxDB configuration
    pub influxdb_config: Option<InfluxDBConfig>,
    /// Enable Graphite export
    pub enable_graphite: bool,
    /// Graphite configuration
    pub graphite_config: Option<GraphiteConfig>,
}

impl Default for MetricsExportConfig {
    fn default() -> (c: Self)
        ensures
            c.enable_prometheus,
            c.prometheus_endpoint@ == "0.0.0.0:9090"@,
            !c.enable_influxdb,
            c.influxdb_config is None,
            !c.enable_graphite,
            c.graphite_config is None,
    {
        MetricsExportConfig {
            enable_prometheus: true,
            prometheus_endpoint: "0.0.0.0:9090".to_string(),
            enable_influxdb: false,
            influxdb_config: None,
            enable_graphite: false,
            graphite_config: None,
        }
    }
}

/// InfluxDB configuration.
#[derive(Debug, Clone)]
pub struct InfluxDBConfig {
    /// InfluxDB URL
    pub url: String,
    /// Database name
    pub database: String,
    /// Username
    pub username: String,
    /// Password
    pub password: String,
    /// Retention policy
    pub retention_policy: String,
}

/// Graphite configuration.
#[derive(Debug, Clone)]
pub struct GraphiteConfig {
    /// Graphite host
    pub host: String,
    /// Graphite port
    pub port: u16,
    /// Metric prefix
    pub prefix: String,
}

/// Dashboard configuration.
#[derive(Debug, Clone)]
pub struct DashboardConfig {
    /// Enable web dashboard
    pub enable_web_dashboard: bool,
    /// Dashboard port
    pub dashboard_port: u16,
    /// Dashboard host
    pub dashboard_host: String,
    /// Enable real-time updates
    pub enable_realtime_updates: bool,
    /// Update interval
    pub update_interval: Duration,
}

impl Default for DashboardConfig {
    fn default() -> (c: Self)
        ensures
            c.enable_web_dashboard,
            c.dashboard_port == 3000,
            c.dashboard_host@ == "0.0.0.0"@,
            c.enable_realtime_updates,
            duration_nanos(c.update_interval) == 100 * 1_000_000,
    {
        DashboardConfig {
            enable_web_dashboard: true,
            dashboard_port: 3000,
            dashboard_host: "0.0.0.0".to_string(),
            enable_realtime_updates: true,
            update_interval: duration_from_millis(100),
        }
    }
}

/// Metric type.
#[derive(Debug, Clone, Copy, PartialEq, Eq, Structural)]
pub enum MetricType {
    /// Counter metric
    Counter,
    /// Gauge metric
    Gauge,
    /// Histogram metric
    Histogram,
    /// Summary metric
    Summary,
}

/// Latency percentiles, in microseconds.
#[derive(Debug, Clone, Copy, PartialEq, Eq, Structural)]
pub struct LatencyPercentiles {
    /// P50 latency (microseconds)
    pub p50: u64,
    /// P90 latency (microseconds)
    pub p90: u64,
    /// P95 latency (microseconds)
    pub p95: u64,
    /// P99 latency (microseconds)
    pub p99: u64,
    /// P99.9 latency (microseconds)
    pub p999: u64,
}

/// Trend direction.
#[derive(Debug, Clone, Copy, PartialEq, Eq, Structural)]
pub enum TrendDirection {
    /// Increasing
    Increasing,
    /// Decreasing
    Decreasing,
    /// Stable
    Stable,
    /// Volatile
    Volatile,
}

/// Alert.
#[derive(Debug)]
pub struct Alert {
    /// Alert ID
    pub id: String,
    /// Alert name
    pub name: String,
    /// Alert severity
    pub severity: AlertSeverity,
    /// Alert message
    pub message: String,
    /// Alert timestamp
    pub timestamp: Timestamp,
    /// Alert source
    pub source: String,
    /// Alert labels
    pub labels: NameMap<String>,
    /// Alert status
    pub status: AlertStatus,
}

/// Alert severity.
#[derive(Debug, Clone, Copy, PartialEq, Eq, Structural)]
pub enum AlertSeverity {
    /// Info
    Info,
    /// Warning
    Warning,
    /// Critical
    Critical,
    /// Emergency
    Emergency,
}

/// Alert status.
#[derive(Debug, Clone, Copy, PartialEq, Eq, Structural)]
pub enum AlertStatus {
    /// Firing
    Firing,
    /// Resolved
    Resolved,
    /// Acknowledged
    Acknowledged,
}

/// The values are in ascending order.
pub open spec fn ascending(s: Seq<u64>) -> bool {
    forall|i: int, j: int| 0 <= i <= j < s.len() ==> s[i] <= s[j]
}

/// The value at the fraction `num / den` of the ascending values `s`: the one
/// at position `len * num / den`.
pub open spec fn at_fraction(s: Seq<u64>, num: nat, den: nat) -> u64 {
    s[(s.len() * num / den) as int]
}

/// The percentiles of the ascending values `s`; all zero when there are
/// none.
pub open spec fn percentiles_of(s: Seq<u64>) -> LatencyPercentiles {
    if s.len() == 0 {
        LatencyPercentiles { p50: 0, p90: 0, p95: 0, p99: 0, p999: 0 }
    } else {
        LatencyPercentiles {
            p50: at_fraction(s, 50, 100),
            p90: at_fraction(s, 90, 100),
            p95: at_fraction(s, 95, 100),
            p99: at_fraction(s, 99, 100),
            p999: at_fraction(s, 999, 1000),
        }
    }
}

/// The values of `v` in ascending order.
pub fn sort_ascending(v: Vec<u64>) -> (r: Vec<u64>)
    ensures
        ascending(r@),
        r@.to_multiset() == v@.to_multiset(),
{
    broadcast use vstd::seq_lib::group_to_multiset_ensures;
    let mut remaining = v;
    let mut sorted: Vec<u64> = Vec::new();
    while remaining.len() > 0
        invariant
            ascending(sorted@),
            sorted@.to_multiset().add(remaining@.to_multiset()) == v@.to_multiset(),
            forall|i: int, j: int| 0 <= i < sorted@.len() && 0 <= j < remaining@.len() ==> sorted@[i] <= remaining@[j],
        decreases remaining@.len(),
    {
        let mut m: usize = 0;
        let mut k: usize = 1;
        while k < remaining.len()
            invariant
                remaining@.len() > 0,
                m < remaining@.len(),
                1 <= k <= remaining@.len(),
                forall|j: int| 0 <= j < k ==> remaining@[m as int] <= remaining@[j],
            decreases remaining@.len() - k,
        {
            if remaining[k] < remaining[m] {
                m = k;
            }
            k = k + 1;
        }
        let ghost before = remaining@;
        let ghost sorted_before = sorted@;
        let x = remaining.remove(m);
        sorted.push(x);
        proof {
            vstd::seq_lib::to_multiset_remove(before, m as int);
            vstd::seq_lib::to_multiset_build(sorted_before, x);
            assert(remaining@ == before.remove(m as int));
            assert(before.remove(m as int).to_multiset() == before.to_multiset().remove(x));
            assert(sorted@.to_multiset() == sorted_before.to_multiset().insert(x));
            assert(before.to_multiset().count(x) > 0) by {
                assert(before[m as int] == x);
                assert(before.contains(x));
                vstd::seq_lib::to_multiset_contains(before, x);
            }
            assert(sorted@.to_multiset().add(remaining@.to_multiset()) =~= sorted_before.to_multiset().add(before.to_multiset()));
            assert forall|i: int, j: int| 0 <= i < sorted@.len() && 0 <= j < remaining@.len() implies sorted@[i] <= remaining@[j] by {
                let j0 = if j < m { j } else { j + 1 };
                assert(remaining@[j] == before[j0]);
                if i < sorted_before.len() {
                    assert(sorted_before[i] <= before[j0]);
                }
            }
            assert forall|i: int, j: int| 0 <= i <= j < sorted@.len() implies sorted@[i] <= sorted@[j] by {
                if j == sorted_before.len() && i < j {
                    assert(sorted_before[i] <= before[m as int]);
                }
            }
        }
    }
    proof {
        assert(remaining@.to_multiset() =~= Multiset::empty());
        assert(sorted@.to_multiset().add(Multiset::empty()) =~= sorted@.to_multiset());
    }
    sorted
}

fn value_at_fraction(s: &Vec<u64>, num: u64, den: u64) -> (r: u64)
    requires
        s@.len() > 0,
        0 < num < den <= 1000,
    ensures
        r == at_fraction(s@, num as nat, den as nat),
{
    let n = s.len() as u128;
    let nu = num as u128;
    let de = den as u128;
    assert(n * nu <= n * 1000) by (nonlinear_arith)
        requires
            nu <= 1000,
    ;
    let i = n * nu / de;
    assert(i < n) by (nonlinear_arith)
        requires
            n > 0,
            0 < nu < de,
            i as int == (n * nu) / (de as int),
    ;
    s[i as usize]
}

/// The latency percentiles of the values: those of the values put in
/// ascending order; all zero when there are none.
pub fn latency_percentiles(latencies: Vec<u64>) -> (p: LatencyPercentiles)
    ensures
        exists|s: Seq<u64>| ascending(s) && s.to_multiset() == latencies@.to_multiset() && p == #[trigger] percentiles_of(s),
{
    let ghost original = latencies@;
    let sorted = sort_ascending(latencies);
    let p = if sorted.len() == 0 {
        LatencyPercentiles { p50: 0, p90: 0, p95: 0, p99: 0, p999: 0 }
    } else {
        LatencyPercentiles {
            p50: value_at_fraction(&sorted, 50, 100),
            p90: value_at_fraction(&sorted, 90, 100),
            p95: value_at_fraction(&sorted, 95, 100),
            p99: value_at_fraction(&sorted, 99, 100),
            p999: value_at_fraction(&sorted, 999, 1000),
        }
    };
    proof {
        assert(p == percentiles_of(sorted@));
        assert(ascending(sorted@) && sorted@.to_multiset() == original.to_multiset() && p == percentiles_of(sorted@));
    }
    p
}

/// The point `retention` before `now`, before which a recorded metric has
/// expired; `None` where it would lie before the epoch (where subtracting
/// the retention from the clock's reading fails).
pub open spec fn cutoff_of(now: Timestamp, retention: u128) -> Option<Timestamp> {
    if retention <= now.0 {
        Some(Timestamp((now.0 - retention) as u64))
    } else {
        None
    }
}

/// The point `retention` before `now`; `None` where it would lie before the
/// epoch.
pub fn retention_cutoff(now: Timestamp, retention: &Duration) -> (c: Option<Timestamp>)
    ensures
        c == cutoff_of(now, duration_nanos(*retention)),
{
    let n = duration_as_nanos(retention);
    if n <= now.0 as u128 {
        Some(Timestamp(now.0 - n as u64))
    } else {
        None
    }
}

/// How many of the recorded metrics, oldest first, have expired: the
/// longest run at the front whose timestamps lie before `cutoff`. Those are
/// the ones that recording a metric drops.
pub fn expired_prefix(timestamps: &Vec<Timestamp>, cutoff: Timestamp) -> (n: usize)
    ensures
        n <= timestamps@.len(),
        forall|i: int| 0 <= i < n ==> #[trigger] timestamps@[i].0 < cutoff.0,
        n < timestamps@.len() ==> timestamps@[n as int].0 >= cutoff.0,
{
    let mut n: usize = 0;
    while n < timestamps.len() && timestamps[n].0 < cutoff.0
        invariant
            n <= timestamps@.len(),
            forall|i: int| 0 <= i < n ==> #[trigger] timestamps@[i].0 < cutoff.0,
        decreases timestamps@.len() - n,
    {
        n = n + 1;
    }
    n
}

/// `pattern` occurs in `text`.
pub open spec fn occurs_in(pattern: Seq<char>, text: Seq<char>) -> bool {
    exists|i: int| 0 <= i && i + pattern.len() <= text.len() && #[trigger] text.subrange(i, i + pattern.len()) == pattern
}

/// Whether a metric of this name measures latency: its name holds
/// `latency`. The analytics take their latencies from these metrics.
pub fn is_latency_metric(name: &str) -> (b: bool)
    ensures
        b == occurs_in("latency"@, name@),
{
    proof {
        reveal_strlit("latency");
    }
    let text = chars_of(name);
    let pat = chars_of("latency");
    let n = text.len();
    let m = pat.len();
    if n < m {
        assert forall|i: int| 0 <= i && i + m <= n implies #[trigger] text@.subrange(i, i + m) != pat@ by {}
        return false;
    }
    let mut i: usize = 0;
    while i <= n - m
        invariant
            text@ == name@,
            pat@ == "latency"@,
            m == pat@.len(),
            n == text@.len(),
            m <= n,
            i <= n - m + 1,
            forall|j: int| 0 <= j < i ==> #[trigger] text@.subrange(j, j + m) != pat@,
        decreases n - i,
    {
        let mut k: usize = 0;
        while k < m && text[i + k] == pat[k]
            invariant
                i + m <= n,
                n == text@.len(),
                m == pat@.len(),
                k <= m,
                forall|q: int| 0 <= q < k ==> text@[i + q] == pat@[q],
            decreases m - k,
        {
            k = k + 1;
        }
        if k == m {
            assert(text@.subrange(i as int, i + m) =~= pat@);
            return true;
        }
        assert(text@.subrange(i as int, i + m)[k as int] != pat@[k as int]);
        i = i + 1;
    }
    false
}

} // verus!
