//! The discrete side of chunk health monitoring: replica and health states, how replicas
//! are tallied, which risk a low healthy-replica count poses, and what is recommended
//! for each health state.

use vstd::prelude::*;

verus! {

/// Overall health of a chunk.
#[derive(Debug, Clone, Copy, PartialEq, Eq, Hash)]
pub enum HealthStatus {
    /// All replicas healthy, high durability
    Excellent,
    /// Most replicas healthy, adequate durability
    Good,
    /// Some replicas degraded, durability at risk
    Warning,
    /// Many replicas unhealthy, immediate action needed
    Critical,
    /// Cannot guarantee data availability
    Failed,
}

/// State of one replica.
#[derive(Debug, Clone, Copy, PartialEq, Eq)]
pub enum ReplicaStatus {
    Healthy,
    Degraded,
    Slow,
    Unreachable,
    Corrupted,
    Missing,
    Verifying,
    Repairing,
}

/// Integrity of a replica's content.
#[derive(Debug, Clone, Copy, PartialEq, Eq)]
pub enum IntegrityStatus {
    Verified,
    Pending,
    Suspicious,
    Corrupted,
    Unknown,
}

/// Reachability of a replica's node.
#[derive(Debug, Clone, Copy, PartialEq, Eq)]
pub enum ConnectivityStatus {
    Online,
    Intermittent,
    Offline,
    Unknown,
}

/// How often a chunk is accessed.
#[derive(Debug, Clone, Copy, PartialEq, Eq)]
pub enum AccessFrequency {
    /// More than 1000 accesses a day
    VeryHigh,
    /// 100 to 1000 accesses a day
    High,
    /// 10 to 100 accesses a day
    Medium,
    /// 1 to 10 accesses a day
    Low,
    /// Less than one access a day
    VeryLow,
    /// Not accessed recently
    Archived,
}

/// Kinds of risk to a chunk.
#[derive(Debug, Clone, Copy, PartialEq, Eq)]
pub enum RiskType {
    NodeFailure,
    NetworkPartition,
    GeographicRisk,
    PerformanceDegradation,
    CapacityLimits,
    ComplianceViolation,
    SecurityThreat,
}

/// Severity of a risk.
#[derive(Debug, Clone, Copy, PartialEq, Eq)]
pub enum RiskSeverity {
    Low,
    Medium,
    High,
    Critical,
}

impl RiskSeverity {
    /// Position of the severity in the order Low < Medium < High < Critical.
    pub open spec fn rank(self) -> nat {
        match self {
            RiskSeverity::Low => 0,
            RiskSeverity::Medium => 1,
            RiskSeverity::High => 2,
            RiskSeverity::Critical => 3,
        }
    }

    /// The position of the severity, as a number.
    pub fn ordinal(self) -> (r: u8)
        ensures
            r == self.rank(),
    {
        match self {
            RiskSeverity::Low => 0,
            RiskSeverity::Medium => 1,
            RiskSeverity::High => 2,
            RiskSeverity::Critical => 3,
        }
    }
}

/// Kinds of repair.
#[derive(Debug, Clone, Copy, PartialEq, Eq)]
pub enum RepairType {
    ReplicationIncrease,
    ReplicaReplacement,
    IntegrityRepair,
    PerformanceOptimization,
    GeographicRebalancing,
    EmergencyRecovery,
}

/// Channels alerts are sent through.
#[derive(Debug, Clone, Copy, PartialEq, Eq)]
pub enum NotificationType {
    Email,
    Slack,
    Webhook,
    SMS,
    PagerDuty,
}

/// A channel alerts are sent to, for the severities it accepts.
#[derive(Debug, Clone)]
pub struct NotificationChannel {
    pub channel_type: NotificationType,
    pub endpoint: String,
    pub severity_filter: Vec<RiskSeverity>,
    pub enabled: bool,
}

/// What an escalation does.
#[derive(Debug, Clone, Copy, PartialEq, Eq)]
pub enum EscalationAction {
    NotifyManager,
    AutoRepair,
    IncreaseReplication,
    EmergencyProtocol,
}

/// When and how an alert escalates.
#[derive(Debug, Clone)]
pub struct EscalationRule {
    pub condition: String,
    pub delay_minutes: u32,
    pub action: EscalationAction,
    pub repeat_count: u32,
}

/// Direction of a health trend.
#[derive(Debug, Clone, Copy, PartialEq, Eq)]
pub enum TrendDirection {
    Improving,
    Stable,
    Degrading,
    Volatile,
}

/// Whether a channel forwards alerts of a given severity: it must be enabled and list the
/// severity.
pub fn channel_accepts(channel: &NotificationChannel, severity: RiskSeverity) -> (r: bool)
    ensures
        r == (channel.enabled && channel.severity_filter@.contains(severity)),
{
    if !channel.enabled {
        return false;
    }
    let mut i: usize = 0;
    while i < channel.severity_filter.len()
        invariant
            channel.enabled,
            i <= channel.severity_filter@.len(),
            forall|k: int| 0 <= k < i ==> channel.severity_filter@[k] != severity,
        decreases channel.severity_filter@.len() - i,
    {
        if channel.severity_filter[i].ordinal() == severity.ordinal() {
            proof {
                assert(channel.severity_filter@[i as int] == severity);
                assert(channel.severity_filter@.contains(severity));
            }
            return true;
        }
        i = i + 1;
    }
    false
}

/// Number of replicas in `s` whose state satisfies `pick`.
pub open spec fn count_where(s: Seq<ReplicaStatus>, pick: spec_fn(ReplicaStatus) -> bool) -> nat
    decreases s.len(),
{
    if s.len() == 0 {
        0
    } else {
        count_where(s.drop_last(), pick) + if pick(s.last()) { 1nat } else { 0nat }
    }
}

/// A replica in good health.
pub open spec fn is_healthy(r: ReplicaStatus) -> bool {
    r == ReplicaStatus::Healthy
}

/// A replica that works but below par.
pub open spec fn is_degraded(r: ReplicaStatus) -> bool {
    r == ReplicaStatus::Degraded || r == ReplicaStatus::Slow
}

/// The tally of a chunk's replicas.
#[derive(Debug, Clone, Copy, PartialEq, Eq)]
pub struct ReplicaTally {
    pub healthy: usize,
    pub degraded: usize,
    pub unhealthy: usize,
}

/// Counts a chunk's replicas as healthy, degraded (degraded or slow) and unhealthy (the
/// rest).
pub fn tally_replicas(statuses: &[ReplicaStatus]) -> (t: ReplicaTally)
    ensures
        t.healthy == count_where(statuses@, |r: ReplicaStatus| is_healthy(r)),
        t.degraded == count_where(statuses@, |r: ReplicaStatus| is_degraded(r)),
        t.healthy + t.degraded + t.unhealthy == statuses@.len(),
{
    let mut healthy: usize = 0;
    let mut degraded: usize = 0;
    let mut i: usize = 0;
    proof {
        assert(statuses@.subrange(0, 0) =~= Seq::<ReplicaStatus>::empty());
    }
    while i < statuses.len()
        invariant
            i <= statuses@.len(),
            healthy == count_where(statuses@.subrange(0, i as int), |r: ReplicaStatus| is_healthy(r)),
            degraded == count_where(statuses@.subrange(0, i as int), |r: ReplicaStatus| is_degraded(r)),
            healthy + degraded <= i,
        decreases statuses@.len() - i,
    {
        proof {
            assert(statuses@.subrange(0, i + 1).drop_last() =~= statuses@.subrange(0, i as int));
        }
        match statuses[i] {
            ReplicaStatus::Healthy => {
                healthy = healthy + 1;
            },
            ReplicaStatus::Degraded | ReplicaStatus::Slow => {
                degraded = degraded + 1;
            },
            _ => {},
        }
        i = i + 1;
    }
    proof {
        assert(statuses@.subrange(0, statuses@.len() as int) =~= statuses@);
    }
    ReplicaTally { healthy, degraded, unhealthy: statuses.len() - healthy - degraded }
}

/// The severity of the node-failure risk a chunk with `healthy` healthy replicas runs:
/// none from three on, high with two, critical with fewer.
pub fn replica_count_risk(healthy: usize) -> (r: Option<RiskSeverity>)
    ensures
        r == if healthy >= 3 {
            None
        } else if healthy >= 2 {
            Some(RiskSeverity::High)
        } else {
            Some(RiskSeverity::Critical)
        },
{
    if healthy < 3 {
        if healthy < 2 {
            Some(RiskSeverity::Critical)
        } else {
            Some(RiskSeverity::High)
        }
    } else {
        None
    }
}

/// The recommendations made for a chunk in each health state, most urgent first.
pub open spec fn recommendations_for(status: HealthStatus) -> Seq<Seq<char>> {
    match status {
        HealthStatus::Failed => seq![
            "URGENT: Immediate recovery required - chunk data may be lost"@,
            "Attempt recovery from any available replicas"@,
            "Check backup systems"@,
        ],
        HealthStatus::Critical => seq![
            "Create additional replicas immediately"@,
            "Repair or replace unhealthy replicas"@,
            "Monitor closely for further degradation"@,
        ],
        HealthStatus::Warning => seq![
            "Consider increasing replication factor"@,
            "Investigate cause of replica degradation"@,
            "Improve geographic distribution"@,
        ],
        HealthStatus::Good => seq![
            "Monitor performance trends"@,
            "Consider optimizing replica placement for better performance"@,
        ],
        HealthStatus::Excellent => seq![
            "Maintain current configuration"@,
            "Consider this as a model for other chunks"@,
        ],
    }
}

/// The recommendations made for a chunk in the given health state, most urgent first.
pub fn generate_recommendations(status: HealthStatus) -> (r: Vec<String>)
    ensures
        r@.map_values(|s: String| s@) == recommendations_for(status),
{
    let mut r: Vec<String> = Vec::new();
    match status {
        HealthStatus::Failed => {
            r.push("URGENT: Immediate recovery required - chunk data may be lost".to_owned());
            r.push("Attempt recovery from any available replicas".to_owned());
            r.push("Check backup systems".to_owned());
        },
        HealthStatus::Critical => {
            r.push("Create additional replicas immediately".to_owned());
            r.push("Repair or replace unhealthy replicas".to_owned());
            r.push("Monitor closely for further degradation".to_owned());
        },
        HealthStatus::Warning => {
            r.push("Consider increasing replication factor".to_owned());
            r.push("Investigate cause of replica degradation".to_owned());
            r.push("Improve geographic distribution".to_owned());
        },
        HealthStatus::Good => {
            r.push("Monitor performance trends".to_owned());
            r.push("Consider optimizing replica placement for better performance".to_owned());
        },
        HealthStatus::Excellent => {
            r.push("Maintain current configuration".to_owned());
            r.push("Consider this as a model for other chunks".to_owned());
        },
    }
    proof {
        assert(r@.map_values(|s: String| s@) =~= recommendations_for(status));
    }
    r
}

} // verus!
