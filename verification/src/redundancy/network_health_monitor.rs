//! Network-wide health alerts: which alerts the network metrics raise, and how severe each is.

use vstd::prelude::*;

verus! {

/// How urgent an alert is.
#[derive(Debug, Clone, Copy, PartialEq, Eq, Structural)]
pub enum AlertSeverity {
    /// Immediate action required
    Critical,
    /// Action required within 1 hour
    High,
    /// Action required within 4 hours
    Medium,
    /// Monitor and plan
    Low,
    /// Informational only
    Info,
}

/// What an alert is about.
#[derive(Debug, Clone, Copy, PartialEq, Eq, Structural)]
pub enum AlertType {
    NodeFailures,
    NetworkPartition,
    StorageCapacity,
    PerformanceDegradation,
    SecurityThreat,
    DataIntegrity,
    ConnectivityIssues,
    ResourceExhaustion,
    GeographicDisturbance,
    SystemOverload,
}

/// The critical alerts the metrics raise: node failures when more than a quarter of the
/// nodes (rounded down) are offline.
pub open spec fn critical_alert_kinds(offline_nodes: u32, total_nodes: u32) -> Seq<AlertType> {
    if offline_nodes > total_nodes / 4 {
        seq![AlertType::NodeFailures]
    } else {
        seq![]
    }
}

/// The warnings the metrics raise, in this order: storage capacity when storage is more
/// than 90% used, then performance degradation when the 95th-percentile latency is over one
/// second.
pub open spec fn warning_alert_kinds(storage_over_90: bool, latency_p95_ms: u64) -> Seq<AlertType> {
    (if storage_over_90 {
        seq![AlertType::StorageCapacity]
    } else {
        seq![]
    }) + (if latency_p95_ms > 1000 {
        seq![AlertType::PerformanceDegradation]
    } else {
        seq![]
    })
}

/// The kinds of the critical alerts and of the warnings that the network metrics raise.
pub fn health_alert_kinds(
    offline_nodes: u32,
    total_nodes: u32,
    storage_over_90: bool,
    latency_p95_ms: u64,
) -> (r: (Vec<AlertType>, Vec<AlertType>))
    ensures
        r.0@ == critical_alert_kinds(offline_nodes, total_nodes),
        r.1@ == warning_alert_kinds(storage_over_90, latency_p95_ms),
{
    let mut critical: Vec<AlertType> = Vec::new();
    let mut warnings: Vec<AlertType> = Vec::new();
    if offline_nodes > total_nodes / 4 {
        critical.push(AlertType::NodeFailures);
    }
    if storage_over_90 {
        warnings.push(AlertType::StorageCapacity);
    }
    if latency_p95_ms > 1000 {
        warnings.push(AlertType::PerformanceDegradation);
    }
    proof {
        assert(critical@ =~= critical_alert_kinds(offline_nodes, total_nodes));
        assert(warnings@ =~= warning_alert_kinds(storage_over_90, latency_p95_ms));
    }
    (critical, warnings)
}

/// The severity the network monitor gives each kind of alert it raises: node failures are
/// critical, a full network high, and slow responses medium; it raises no other kind.
pub open spec fn severity_of(kind: AlertType) -> Option<AlertSeverity> {
    match kind {
        AlertType::NodeFailures => Some(AlertSeverity::Critical),
        AlertType::StorageCapacity => Some(AlertSeverity::High),
        AlertType::PerformanceDegradation => Some(AlertSeverity::Medium),
        _ => None,
    }
}

/// The severity of an alert of kind `kind`, for the kinds the network monitor raises.
pub fn alert_severity(kind: AlertType) -> (s: Option<AlertSeverity>)
    ensures
        s == severity_of(kind),
{
    match kind {
        AlertType::NodeFailures => Some(AlertSeverity::Critical),
        AlertType::StorageCapacity => Some(AlertSeverity::High),
        AlertType::PerformanceDegradation => Some(AlertSeverity::Medium),
        _ => None,
    }
}

/// Every alert the metrics raise has a severity: the critical list holds critical alerts,
/// and the warnings are high or medium.
pub proof fn lemma_raised_alerts_have_severity(
    offline_nodes: u32,
    total_nodes: u32,
    storage_over_90: bool,
    latency_p95_ms: u64,
)
    ensures
        forall|i: int|
            0 <= i < critical_alert_kinds(offline_nodes, total_nodes).len() ==> severity_of(
                #[trigger] critical_alert_kinds(offline_nodes, total_nodes)[i],
            ) == Some(AlertSeverity::Critical),
        forall|i: int|
            0 <= i < warning_alert_kinds(storage_over_90, latency_p95_ms).len() ==> {
                let s = severity_of(#[trigger] warning_alert_kinds(storage_over_90, latency_p95_ms)[i]);
                s == Some(AlertSeverity::High) || s == Some(AlertSeverity::Medium)
            },
{
    let w = warning_alert_kinds(storage_over_90, latency_p95_ms);
    assert forall|i: int| 0 <= i < w.len() implies {
        let s = severity_of(#[trigger] w[i]);
        s == Some(AlertSeverity::High) || s == Some(AlertSeverity::Medium)
    } by {
        assert(w[i] == AlertType::StorageCapacity || w[i] == AlertType::PerformanceDegradation);
    }
}

/// Which alerts are raised: node failures, and nothing else, are critical exactly when
/// offline nodes make up more than a quarter of the network (four times their number
/// exceeds the node count), so more offline nodes never silence the alert; storage
/// capacity is warned of exactly when storage is over 90% used and comes first, and slow
/// responses exactly when the 95th-percentile latency exceeds one second, so a slower
/// network never silences that warning.
pub proof fn lemma_alerts_raised(
    offline_nodes: u32,
    more_offline: u32,
    total_nodes: u32,
    storage_over_90: bool,
    latency_p95_ms: u64,
    slower_ms: u64,
)
    ensures
        critical_alert_kinds(offline_nodes, total_nodes).contains(AlertType::NodeFailures) <==> 4 * offline_nodes
            > total_nodes,
        forall|k: AlertType|
            #[trigger] critical_alert_kinds(offline_nodes, total_nodes).contains(k) ==> k == AlertType::NodeFailures,
        critical_alert_kinds(offline_nodes, total_nodes).len() <= 1,
        offline_nodes <= more_offline && critical_alert_kinds(offline_nodes, total_nodes).contains(
            AlertType::NodeFailures,
        ) ==> critical_alert_kinds(more_offline, total_nodes).contains(AlertType::NodeFailures),
        warning_alert_kinds(storage_over_90, latency_p95_ms).contains(AlertType::StorageCapacity) <==> storage_over_90,
        warning_alert_kinds(storage_over_90, latency_p95_ms).contains(AlertType::PerformanceDegradation) <==> latency_p95_ms
            > 1000,
        storage_over_90 ==> warning_alert_kinds(storage_over_90, latency_p95_ms)[0] == AlertType::StorageCapacity,
        forall|k: AlertType|
            #[trigger] warning_alert_kinds(storage_over_90, latency_p95_ms).contains(k) ==> k == AlertType::StorageCapacity
                || k == AlertType::PerformanceDegradation,
        warning_alert_kinds(storage_over_90, latency_p95_ms).len() <= 2,
        latency_p95_ms <= slower_ms && warning_alert_kinds(storage_over_90, latency_p95_ms).contains(
            AlertType::PerformanceDegradation,
        ) ==> warning_alert_kinds(storage_over_90, slower_ms).contains(AlertType::PerformanceDegradation),
{
    let c = critical_alert_kinds(offline_nodes, total_nodes);
    let c2 = critical_alert_kinds(more_offline, total_nodes);
    let w = warning_alert_kinds(storage_over_90, latency_p95_ms);
    let w2 = warning_alert_kinds(storage_over_90, slower_ms);
    assert(offline_nodes > total_nodes / 4 <==> 4 * offline_nodes > total_nodes) by (nonlinear_arith);
    assert(more_offline > total_nodes / 4 <==> 4 * more_offline > total_nodes) by (nonlinear_arith);
    if offline_nodes > total_nodes / 4 {
        assert(c[0] == AlertType::NodeFailures);
    }
    if more_offline > total_nodes / 4 {
        assert(c2[0] == AlertType::NodeFailures);
    }
    if storage_over_90 {
        assert(w[0] == AlertType::StorageCapacity);
    }
    if latency_p95_ms > 1000 {
        assert(w[w.len() - 1] == AlertType::PerformanceDegradation);
    }
    if slower_ms > 1000 {
        assert(w2[w2.len() - 1] == AlertType::PerformanceDegradation);
    }
}

} // verus!
