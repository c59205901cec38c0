//! Node tracking for automatic replication: how a node's reported state moves its
//! failure count and failure history, and when a node counts as failed.
//!
//! Times are milliseconds since the Unix epoch.

use vstd::prelude::*;
use crate::clock::utc_now_millis;
use crate::redundancy::health_monitor::ReplicaStatus;
use crate::text::{format_signed, signed_decimal};

verus! {

/// How node failures are detected.
#[derive(Debug, Clone, Copy, PartialEq, Eq)]
pub struct FailureDetectionConfig {
    /// Heartbeat interval for node monitoring
    pub heartbeat_interval_seconds: u32,
    /// Timeout before considering node offline
    pub offline_timeout_seconds: u32,
    /// Number of consecutive failures before triggering replication
    pub failure_threshold: u32,
    /// Grace period for temporary network issues
    pub grace_period_seconds: u32,
    /// Enable predictive failure detection
    pub predictive_detection: bool,
    /// Network partition detection
    pub partition_detection: bool,
}

impl Default for FailureDetectionConfig {
    /// Heartbeats every 30 s, offline after 3 minutes, replication after 3 failures.
    fn default() -> (c: Self)
        ensures
            c.heartbeat_interval_seconds == 30,
            c.offline_timeout_seconds == 180,
            c.failure_threshold == 3,
            c.grace_period_seconds == 60,
            c.predictive_detection,
            c.partition_detection,
    {
        FailureDetectionConfig {
            heartbeat_interval_seconds: 30,
            offline_timeout_seconds: 180,
            failure_threshold: 3,
            grace_period_seconds: 60,
            predictive_detection: true,
            partition_detection: true,
        }
    }
}

/// How replication responds once triggered.
#[derive(Debug, Clone, Copy, PartialEq, Eq)]
pub enum ReplicationResponseStrategy {
    /// Start replication immediately
    Immediate,
    /// Wait before starting
    Delayed { delay_seconds: u32 },
    /// Batch multiple chunks
    Batched { batch_size: u32 },
    /// Adapt based on network conditions
    Adaptive,
    /// Wait for confirmation of permanent failure
    Conservative,
}

/// Priority of a replication.
#[derive(Debug, Clone, Copy, PartialEq, Eq)]
pub enum ReplicationPriority {
    /// Critical data, immediate action
    Emergency,
    /// Important data, prioritized
    High,
    /// Standard priority
    Normal,
    /// Background processing
    Low,
    /// Wait for better conditions
    Deferred,
}

/// The state a node reports or is observed in.
#[derive(Debug, Clone, Copy, PartialEq, Eq)]
pub enum NodeState {
    Online,
    Degraded,
    Offline,
    Maintenance,
    Unknown,
    /// Suspected of being offline
    Suspected,
}

/// What made a node fail.
#[derive(Debug, Clone, Copy, PartialEq, Eq)]
pub enum FailureType {
    NetworkTimeout,
    DiskFailure,
    PowerOutage,
    MaintenanceShutdown,
    ProcessCrash,
    NetworkPartition,
    Unknown,
}

/// State of a replication task.
#[derive(Debug, Clone, Copy, PartialEq, Eq)]
pub enum TaskStatus {
    Queued,
    Planning,
    Executing,
    Verifying,
    Completed,
    Failed,
    Cancelled,
    Paused,
}

/// Stage of a running replication.
#[derive(Debug, Clone, Copy, PartialEq, Eq)]
pub enum ReplicationStage {
    Initializing,
    SelectingNodes,
    PreparingTransfer,
    Transferring,
    Verifying,
    Finalizing,
}

/// How thoroughly recovered data is verified.
#[derive(Debug, Clone, Copy, PartialEq, Eq)]
pub enum VerificationLevel {
    /// Hash verification only
    Basic,
    /// Hash + size + basic integrity
    Standard,
    /// Full content verification
    Thorough,
    /// Multiple verification methods
    Paranoid,
}

/// What to fall back on when recovery cannot proceed as planned.
#[derive(Debug, Clone, Copy, PartialEq, Eq)]
pub enum FallbackStrategy {
    UseRemoteReplicas,
    IncreaseReplicationFactor,
    RelaxGeographicConstraints,
    UseExpensiveNodes,
    WaitForNodeRecovery,
    EmergencyProtocol,
}

/// What recovery optimises for.
#[derive(Debug, Clone, Copy, PartialEq, Eq)]
pub struct OptimizationGoals {
    pub minimize_cost: bool,
    pub minimize_latency: bool,
    pub maximize_durability: bool,
    pub balance_geographic_distribution: bool,
    pub prefer_high_performance_nodes: bool,
}

/// The goals a replication manager starts with: everything but a preference for
/// high-performance nodes.
pub fn default_optimization_goals() -> (g: OptimizationGoals)
    ensures
        g == (OptimizationGoals {
            minimize_cost: true,
            minimize_latency: true,
            maximize_durability: true,
            balance_geographic_distribution: true,
            prefer_high_performance_nodes: false,
        }),
{
    OptimizationGoals {
        minimize_cost: true,
        minimize_latency: true,
        maximize_durability: true,
        balance_geographic_distribution: true,
        prefer_high_performance_nodes: false,
    }
}

/// The order in which recovery falls back, as a replication manager starts with it.
pub fn default_fallback_strategies() -> (f: Vec<FallbackStrategy>)
    ensures
        f@ == seq![
            FallbackStrategy::UseRemoteReplicas,
            FallbackStrategy::RelaxGeographicConstraints,
            FallbackStrategy::IncreaseReplicationFactor,
        ],
{
    let mut f: Vec<FallbackStrategy> = Vec::new();
    f.push(FallbackStrategy::UseRemoteReplicas);
    f.push(FallbackStrategy::RelaxGeographicConstraints);
    f.push(FallbackStrategy::IncreaseReplicationFactor);
    f
}

/// Escalation timing of emergency replication, in minutes.
#[derive(Debug, Clone, Copy, PartialEq, Eq)]
pub struct EscalationTimeouts {
    pub initial_response_minutes: u32,
    pub escalation_interval_minutes: u32,
    pub max_escalation_levels: u32,
    pub emergency_override_minutes: u32,
}

/// The escalation timing a replication manager starts with.
pub fn default_escalation_timeouts() -> (t: EscalationTimeouts)
    ensures
        t == (EscalationTimeouts {
            initial_response_minutes: 5,
            escalation_interval_minutes: 15,
            max_escalation_levels: 3,
            emergency_override_minutes: 60,
        }),
{
    EscalationTimeouts {
        initial_response_minutes: 5,
        escalation_interval_minutes: 15,
        max_escalation_levels: 3,
        emergency_override_minutes: 60,
    }
}

/// One recorded failure of a node.
#[derive(Debug, Clone)]
pub struct FailureEvent {
    pub timestamp: i64,
    pub failure_type: FailureType,
    pub duration_seconds: Option<u64>,
    pub recovery_time_seconds: Option<u64>,
    pub root_cause: Option<String>,
}

/// Number of failure events kept per node.
pub const FAILURE_HISTORY_LIMIT: usize = 100;

/// The tracked status of one node.
#[derive(Debug, Clone)]
pub struct NodeStatus {
    pub node_id: String,
    pub status: NodeState,
    pub last_seen: i64,
    pub consecutive_failures: u32,
    pub failure_history: Vec<FailureEvent>,
    pub maintenance_scheduled: Option<i64>,
}

/// The timestamps of a failure history, oldest first.
pub open spec fn history_times(h: Seq<FailureEvent>) -> Seq<i64> {
    h.map_values(|e: FailureEvent| e.timestamp)
}

/// The history after recording a failure at `now`: the event appended, the oldest event
/// dropped when more than the limit would remain.
pub open spec fn history_after_failure(h: Seq<i64>, now: i64) -> Seq<i64> {
    let grown = h.push(now);
    if grown.len() > FAILURE_HISTORY_LIMIT {
        grown.drop_first()
    } else {
        grown
    }
}

impl NodeStatus {
    /// A node seen for the first time, in `status` at `now`.
    pub fn first_seen(node_id: String, status: NodeState, now: i64) -> (n: Self)
        ensures
            n.node_id == node_id,
            n.status == status,
            n.last_seen == now,
            n.consecutive_failures == 0,
            n.failure_history@.len() == 0,
            n.maintenance_scheduled is None,
    {
        NodeStatus {
            node_id,
            status,
            last_seen: now,
            consecutive_failures: 0,
            failure_history: Vec::new(),
            maintenance_scheduled: None,
        }
    }

    /// Records that the node is in `status` at `now`. A node coming back online has its
    /// failure count reset; a node leaving the online state counts one more failure and
    /// records it, keeping the latest hundred events.
    pub fn observe(&mut self, status: NodeState, now: i64)
        requires
            old(self).status == NodeState::Online && status != NodeState::Online ==> old(self).consecutive_failures
                < u32::MAX,
        ensures
            final(self).status == status,
            final(self).last_seen == now,
            final(self).node_id == old(self).node_id,
            old(self).status != NodeState::Online && status == NodeState::Online ==> {
                &&& final(self).consecutive_failures == 0
                &&& final(self).failure_history@ == old(self).failure_history@
            },
            old(self).status == NodeState::Online && status != NodeState::Online ==> {
                &&& final(self).consecutive_failures == old(self).consecutive_failures + 1
                &&& history_times(final(self).failure_history@) == history_after_failure(
                    history_times(old(self).failure_history@),
                    now,
                )
                &&& final(self).failure_history@.last().failure_type == FailureType::NetworkTimeout
            },
            (old(self).status == NodeState::Online) == (status == NodeState::Online) ==> {
                &&& final(self).consecutive_failures == old(self).consecutive_failures
                &&& final(self).failure_history@ == old(self).failure_history@
            },
            old(self).failure_history@.len() <= FAILURE_HISTORY_LIMIT ==> final(self).failure_history@.len()
                <= FAILURE_HISTORY_LIMIT,
    {
        let was_online = match self.status {
            NodeState::Online => true,
            _ => false,
        };
        let is_online = match status {
            NodeState::Online => true,
            _ => false,
        };
        self.status = status;
        self.last_seen = now;
        if !was_online && is_online {
            self.consecutive_failures = 0;
        } else if was_online && !is_online {
            self.consecutive_failures = self.consecutive_failures + 1;
            let ghost before = self.failure_history@;
            self.failure_history.push(
                FailureEvent {
                    timestamp: now,
                    failure_type: FailureType::NetworkTimeout,
                    duration_seconds: None,
                    recovery_time_seconds: None,
                    root_cause: None,
                },
            );
            if self.failure_history.len() > FAILURE_HISTORY_LIMIT {
                self.failure_history.remove(0);
                proof {
                    let grown = before.push(self.failure_history@.last());
                    assert(history_times(grown) =~= history_times(before).push(now));
                    assert(self.failure_history@ =~= grown.drop_first());
                    assert(history_times(self.failure_history@) =~= history_times(grown).drop_first());
                }
            } else {
                proof {
                    assert(history_times(self.failure_history@) =~= history_times(before).push(now));
                }
            }
        }
    }

    /// Whether the node counts as failed at `now` (milliseconds): it is reported offline or
    /// unknown, or it has not been seen for longer than `offline_timeout_seconds`.
    pub fn is_failed(&self, now: i64, offline_timeout_seconds: u32) -> (f: bool)
        ensures
            f == node_failed(*self, now, offline_timeout_seconds),
    {
        match self.status {
            NodeState::Offline | NodeState::Unknown => true,
            _ => (now as i128) - (self.last_seen as i128) > (offline_timeout_seconds as i128) * 1000,
        }
    }
}

/// Some tracked node has identifier `id`.
pub open spec fn has_node(nodes: Seq<NodeStatus>, id: Seq<char>) -> bool {
    exists|i: int| 0 <= i < nodes.len() && (#[trigger] nodes[i]).node_id@ == id
}

/// The position of the node with identifier `id`.
pub open spec fn node_index(nodes: Seq<NodeStatus>, id: Seq<char>) -> int {
    choose|i: int| 0 <= i < nodes.len() && (#[trigger] nodes[i]).node_id@ == id
}

/// No two tracked nodes share an identifier.
pub open spec fn node_ids_distinct(nodes: Seq<NodeStatus>) -> bool {
    forall|i: int, j: int|
        0 <= i < nodes.len() && 0 <= j < nodes.len() && i != j ==> (#[trigger] nodes[i]).node_id@
            != (#[trigger] nodes[j]).node_id@
}

/// With distinct identifiers, the node found at a position is the node with its identifier.
proof fn lemma_node_index(nodes: Seq<NodeStatus>, i: int)
    requires
        node_ids_distinct(nodes),
        0 <= i < nodes.len(),
    ensures
        has_node(nodes, nodes[i].node_id@),
        node_index(nodes, nodes[i].node_id@) == i,
{
    assert(has_node(nodes, nodes[i].node_id@));
}

/// Whether a node counts as failed at `now` (milliseconds): reported offline or unknown, or
/// not seen for longer than `timeout` seconds.
pub open spec fn node_failed(n: NodeStatus, now: i64, timeout: u32) -> bool {
    n.status == NodeState::Offline || n.status == NodeState::Unknown || now - n.last_seen > timeout * 1000
}

/// The identifiers of the nodes that count as failed at `now`, in table order.
pub open spec fn failed_ids(nodes: Seq<NodeStatus>, now: i64, timeout: u32) -> Seq<Seq<char>>
    decreases nodes.len(),
{
    if nodes.len() == 0 {
        Seq::empty()
    } else {
        let rest = failed_ids(nodes.drop_last(), now, timeout);
        if node_failed(nodes.last(), now, timeout) {
            rest.push(nodes.last().node_id@)
        } else {
            rest
        }
    }
}

/// The node table the failure detector works on: the detection settings and the status of
/// every node seen, each under an identifier of its own. Times are milliseconds since the Unix
/// epoch.
pub struct NodeFailureTracker {
    pub failure_detection: FailureDetectionConfig,
    pub node_status: Vec<NodeStatus>,
}

/// What recording that node `node_id` is in `status` at `now` does to a node tracker: the
/// tracker stays well formed and keeps its configuration; a node seen for the first time is
/// appended with that status and time and no failures; a known one keeps its place and takes
/// the new status and time, counts one more failure and notes `now` in its history when it
/// leaves the online state, has its failure count reset when it comes back online, and keeps
/// both otherwise; every other node is left as it was.
pub open spec fn status_update(
    t0: NodeFailureTracker,
    t1: NodeFailureTracker,
    node_id: Seq<char>,
    status: NodeState,
    now: i64,
) -> bool {
    &&& t1.wf()
    &&& t1.failure_detection == t0.failure_detection
    &&& has_node(t1.node_status@, node_id)
    &&& t1.node_status@[node_index(t1.node_status@, node_id)].status == status
    &&& t1.node_status@[node_index(t1.node_status@, node_id)].last_seen == now
    &&& !has_node(t0.node_status@, node_id) ==> {
        &&& t1.node_status@.len() == t0.node_status@.len() + 1
        &&& t1.node_status@.drop_last() == t0.node_status@
        &&& t1.node_status@.last().consecutive_failures == 0
        &&& t1.node_status@.last().failure_history@.len() == 0
    }
    &&& has_node(t0.node_status@, node_id) ==> {
        let i = node_index(t0.node_status@, node_id);
        let before = t0.node_status@[i];
        let after = t1.node_status@[i];
        &&& t1.node_status@.len() == t0.node_status@.len()
        &&& forall|j: int|
            0 <= j < t0.node_status@.len() && j != i ==> t1.node_status@[j] == t0.node_status@[j]
        &&& before.status != NodeState::Online && status == NodeState::Online ==> after.consecutive_failures == 0
        &&& before.status == NodeState::Online && status != NodeState::Online ==> {
            &&& after.consecutive_failures == before.consecutive_failures + 1
            &&& history_times(after.failure_history@) == history_after_failure(
                history_times(before.failure_history@),
                now,
            )
        }
        &&& (before.status == NodeState::Online) == (status == NodeState::Online) ==> {
            &&& after.consecutive_failures == before.consecutive_failures
            &&& after.failure_history@ == before.failure_history@
        }
    }
}

impl NodeFailureTracker {
    /// No two nodes share an identifier.
    pub open spec fn wf(&self) -> bool {
        node_ids_distinct(self.node_status@)
    }

    /// Recording `status` for node `node_id` leaves its failure count in range: if the node
    /// is tracked, online, and reported not online, it has fewer than `u32::MAX` failures.
    pub open spec fn failure_count_fits(&self, node_id: Seq<char>, status: NodeState) -> bool {
        has_node(self.node_status@, node_id) ==> {
            let n = self.node_status@[node_index(self.node_status@, node_id)];
            n.status == NodeState::Online && status != NodeState::Online ==> n.consecutive_failures < u32::MAX
        }
    }

    /// An empty table with the default detection settings.
    pub fn new() -> (t: Self)
        ensures
            t.wf(),
            t.node_status@.len() == 0,
            t.failure_detection.offline_timeout_seconds == 180,
    {
        NodeFailureTracker { failure_detection: FailureDetectionConfig::default(), node_status: Vec::new() }
    }

    /// The position of the node with identifier `node_id`, if it is tracked.
    fn position(&self, node_id: &String) -> (r: Option<usize>)
        ensures
            match r {
                Some(i) => i < self.node_status@.len() && self.node_status@[i as int].node_id@ == node_id@,
                None => !has_node(self.node_status@, node_id@),
            },
    {
        let mut i: usize = 0;
        while i < self.node_status.len()
            invariant
                i <= self.node_status@.len(),
                forall|j: int| 0 <= j < i ==> (#[trigger] self.node_status@[j]).node_id@ != node_id@,
            decreases self.node_status@.len() - i,
        {
            if self.node_status[i].node_id == *node_id {
                return Some(i);
            }
            i = i + 1;
        }
        None
    }

    /// Records that node `node_id` is in `status` at `now`: a node seen for the first time
    /// is added; a known one is updated as `NodeStatus::observe` describes.
    pub fn update_node_status_at(&mut self, node_id: String, status: NodeState, now: i64)
        requires
            old(self).wf(),
            old(self).failure_count_fits(node_id@, status),
        ensures
            status_update(*old(self), *final(self), node_id@, status, now),
    {
        match self.position(&node_id) {
            Some(i) => {
                proof {
                    lemma_node_index(self.node_status@, i as int);
                }
                let ghost before = self.node_status@;
                let mut node = self.node_status.remove(i);
                node.observe(status, now);
                self.node_status.insert(i, node);
                proof {
                    assert forall|a: int, b: int|
                        0 <= a < self.node_status@.len() && 0 <= b < self.node_status@.len() && a != b implies (#[trigger] self.node_status@[a]).node_id@
                        != (#[trigger] self.node_status@[b]).node_id@ by {
                        assert(before[a].node_id@ != before[b].node_id@);
                    }
                    assert forall|j: int| 0 <= j < before.len() && j != i implies self.node_status@[j] == before[j] by {}
                    lemma_node_index(self.node_status@, i as int);
                }
            },
            None => {
                let node = NodeStatus::first_seen(node_id, status, now);
                self.node_status.push(node);
                proof {
                    assert(self.node_status@.drop_last() =~= old(self).node_status@);
                    lemma_node_index(self.node_status@, self.node_status@.len() - 1);
                }
            },
        }
    }

    /// Records that node `node_id` is in `status` now, as `update_node_status_at` does at
    /// the current time.
    pub fn update_node_status(&mut self, node_id: String, status: NodeState)
        requires
            old(self).wf(),
            old(self).failure_count_fits(node_id@, status),
        ensures
            exists|now: i64| status_update(*old(self), *final(self), node_id@, status, now),
    {
        let now = utc_now_millis();
        self.update_node_status_at(node_id, status, now);
    }

    /// The identifiers of the nodes that count as failed at `now`, in table order.
    pub fn failed_nodes_at(&self, now: i64) -> (r: Vec<String>)
        ensures
            r@.map_values(|s: String| s@) == failed_ids(
                self.node_status@,
                now,
                self.failure_detection.offline_timeout_seconds,
            ),
    {
        let timeout = self.failure_detection.offline_timeout_seconds;
        let mut out: Vec<String> = Vec::new();
        let mut i: usize = 0;
        proof {
            assert(self.node_status@.subrange(0, 0) =~= Seq::<NodeStatus>::empty());
            assert(out@.map_values(|s: String| s@) =~= Seq::<Seq<char>>::empty());
        }
        while i < self.node_status.len()
            invariant
                i <= self.node_status@.len(),
                timeout == self.failure_detection.offline_timeout_seconds,
                out@.map_values(|s: String| s@) == failed_ids(self.node_status@.subrange(0, i as int), now, timeout),
            decreases self.node_status@.len() - i,
        {
            let ghost prev = self.node_status@.subrange(0, i as int);
            let ghost next = self.node_status@.subrange(0, i + 1);
            proof {
                assert(next.drop_last() =~= prev);
            }
            let node = &self.node_status[i];
            let ghost before = out@;
            if node.is_failed(now, timeout) {
                out.push(node.node_id.clone());
                proof {
                    assert(out@.map_values(|s: String| s@) =~= before.map_values(|s: String| s@).push(node.node_id@));
                }
            }
            i = i + 1;
        }
        proof {
            assert(self.node_status@.subrange(0, self.node_status@.len() as int) =~= self.node_status@);
        }
        out
    }

    /// The identifiers of the nodes that count as failed now, in table order.
    pub fn detect_failed_nodes(&self) -> (r: Vec<String>)
        ensures
            exists|now: i64|
                r@.map_values(|s: String| s@) == #[trigger] failed_ids(
                    self.node_status@,
                    now,
                    self.failure_detection.offline_timeout_seconds,
                ),
    {
        let now = utc_now_millis();
        self.failed_nodes_at(now)
    }
}

/// The views of a list of strings.
pub open spec fn text_views(items: Seq<String>) -> Seq<Seq<char>> {
    items.map_values(|s: String| s@)
}

/// Some replica of a chunk lies on a failed node.
pub open spec fn touches_failed(replica_nodes: Seq<String>, failed: Seq<String>) -> bool {
    exists|r: int, f: int|
        0 <= r < replica_nodes.len() && 0 <= f < failed.len() && (#[trigger] replica_nodes[r])@ == (#[trigger] failed[f])@
}

/// The identifiers of the chunks with a replica on a failed node, in table order.
pub open spec fn affected_ids(chunks: Seq<(String, Vec<String>)>, failed: Seq<String>) -> Seq<Seq<char>>
    decreases chunks.len(),
{
    if chunks.len() == 0 {
        Seq::empty()
    } else {
        let rest = affected_ids(chunks.drop_last(), failed);
        if touches_failed(chunks.last().1@, failed) {
            rest.push(chunks.last().0@)
        } else {
            rest
        }
    }
}

/// Whether `name` is one of `names`.
fn contains_name(names: &[String], name: &String) -> (b: bool)
    ensures
        b == exists|f: int| 0 <= f < names@.len() && (#[trigger] names@[f])@ == name@,
{
    let mut k: usize = 0;
    while k < names.len()
        invariant
            k <= names@.len(),
            forall|f: int| 0 <= f < k ==> (#[trigger] names@[f])@ != name@,
        decreases names@.len() - k,
    {
        if names[k] == *name {
            return true;
        }
        k = k + 1;
    }
    false
}

/// The chunks affected by node failures: given each chunk's identifier with the nodes
/// holding its replicas, the identifiers of those with a replica on a failed node.
pub fn find_affected_chunks(chunks: &[(String, Vec<String>)], failed_nodes: &[String]) -> (r: Vec<String>)
    ensures
        text_views(r@) == affected_ids(chunks@, failed_nodes@),
{
    let mut out: Vec<String> = Vec::new();
    let mut i: usize = 0;
    proof {
        assert(chunks@.subrange(0, 0) =~= Seq::<(String, Vec<String>)>::empty());
        assert(text_views(out@) =~= Seq::<Seq<char>>::empty());
    }
    while i < chunks.len()
        invariant
            i <= chunks@.len(),
            text_views(out@) == affected_ids(chunks@.subrange(0, i as int), failed_nodes@),
        decreases chunks@.len() - i,
    {
        let ghost prev = chunks@.subrange(0, i as int);
        let ghost next = chunks@.subrange(0, i + 1);
        proof {
            assert(next.drop_last() =~= prev);
        }
        let replicas = &chunks[i].1;
        let mut hit = false;
        let mut k: usize = 0;
        while k < replicas.len()
            invariant
                k <= replicas@.len(),
                hit == exists|r: int, f: int|
                    0 <= r < k && 0 <= f < failed_nodes@.len() && (#[trigger] replicas@[r])@ == (#[trigger] failed_nodes@[f])@,
            decreases replicas@.len() - k,
        {
            if contains_name(failed_nodes, &replicas[k]) {
                hit = true;
            }
            k = k + 1;
        }
        let ghost before = out@;
        if hit {
            out.push(chunks[i].0.clone());
            proof {
                assert(text_views(out@) =~= text_views(before).push(chunks@[i as int].0@));
            }
        }
        i = i + 1;
    }
    proof {
        assert(chunks@.subrange(0, chunks@.len() as int) =~= chunks@);
    }
    out
}


/// A task that is still waiting or running: queued or executing.
pub open spec fn in_progress(status: TaskStatus) -> bool {
    status == TaskStatus::Queued || status == TaskStatus::Executing
}

/// Entry `i` of the task list is a task in progress for chunk `chunk`.
pub open spec fn runs_chunk(active: Seq<(String, String, TaskStatus)>, chunk: Seq<char>, i: int) -> bool {
    &&& 0 <= i < active.len()
    &&& active[i].1@ == chunk
    &&& in_progress(active[i].2)
}

/// The identifiers of the healthy replicas, in list order.
pub open spec fn healthy_ids(replicas: Seq<(String, ReplicaStatus)>) -> Seq<Seq<char>>
    decreases replicas.len(),
{
    if replicas.len() == 0 {
        Seq::empty()
    } else {
        let rest = healthy_ids(replicas.drop_last());
        if replicas.last().1 == ReplicaStatus::Healthy {
            rest.push(replicas.last().0@)
        } else {
            rest
        }
    }
}

/// The identifier `"repl_{chunk}_{now}"` of a replication task created at `now`.
pub open spec fn replication_task_id(chunk: Seq<char>, now: int) -> Seq<char> {
    "repl_"@ + chunk + "_"@ + signed_decimal(now)
}

/// What a replication trigger decides for a chunk.
#[derive(Debug, Clone, PartialEq, Eq)]
pub enum ReplicationDecision {
    /// The chunk already has a queued or executing task, with this identifier.
    AlreadyRunning(String),
    /// A new queued task, sourced from the healthy replicas.
    NewTask { task_id: String, source_replicas: Vec<String> },
}

/// Decides what triggering replication of `chunk_id` does, given the active tasks (each as
/// its identifier, its chunk and its status) and the chunk's replicas with their status at
/// `now_secs`: when a task for the chunk is already queued or executing, the first such
/// task in the list is reused; otherwise a new task `repl_{chunk}_{now}` is created whose
/// sources are the healthy replicas, in list order.
pub fn plan_replication(
    active: &Vec<(String, String, TaskStatus)>,
    chunk_id: &str,
    replicas: &Vec<(String, ReplicaStatus)>,
    now_secs: i64,
) -> (r: ReplicationDecision)
    ensures
        match r {
            ReplicationDecision::AlreadyRunning(id) => exists|i: int|
                #[trigger] runs_chunk(active@, chunk_id@, i) && id@ == active@[i].0@ && forall|j: int|
                    0 <= j < i ==> !runs_chunk(active@, chunk_id@, j),
            ReplicationDecision::NewTask { task_id, source_replicas } => {
                &&& forall|i: int| !runs_chunk(active@, chunk_id@, i)
                &&& task_id@ == replication_task_id(chunk_id@, now_secs as int)
                &&& text_views(source_replicas@) == healthy_ids(replicas@)
            },
        },
{
    let chunk = chunk_id.to_owned();
    let mut i: usize = 0;
    while i < active.len()
        invariant
            i <= active@.len(),
            chunk@ == chunk_id@,
            forall|j: int| 0 <= j < i ==> !runs_chunk(active@, chunk_id@, j),
        decreases active@.len() - i,
    {
        let task = &active[i];
        let running = match task.2 {
            TaskStatus::Queued => true,
            TaskStatus::Executing => true,
            _ => false,
        };
        if running && task.1 == chunk {
            proof {
                assert(runs_chunk(active@, chunk_id@, i as int));
            }
            return ReplicationDecision::AlreadyRunning(task.0.clone());
        }
        i = i + 1;
    }
    let mut sources: Vec<String> = Vec::new();
    let mut k: usize = 0;
    proof {
        assert(replicas@.subrange(0, 0) =~= Seq::<(String, ReplicaStatus)>::empty());
        assert(text_views(sources@) =~= Seq::<Seq<char>>::empty());
    }
    while k < replicas.len()
        invariant
            k <= replicas@.len(),
            text_views(sources@) == healthy_ids(replicas@.subrange(0, k as int)),
        decreases replicas@.len() - k,
    {
        proof {
            assert(replicas@.subrange(0, k + 1).drop_last() =~= replicas@.subrange(0, k as int));
        }
        let ghost before = sources@;
        let healthy = match replicas[k].1 {
            ReplicaStatus::Healthy => true,
            _ => false,
        };
        if healthy {
            sources.push(replicas[k].0.clone());
            proof {
                assert(text_views(sources@) =~= text_views(before).push(replicas@[k as int].0@));
            }
        }
        k = k + 1;
    }
    proof {
        assert(replicas@.subrange(0, replicas@.len() as int) =~= replicas@);
    }
    let task_id = "repl_".to_owned().concat(chunk_id).concat("_").concat(format_signed(now_secs).as_str());
    ReplicationDecision::NewTask { task_id, source_replicas: sources }
}

} // verus!
