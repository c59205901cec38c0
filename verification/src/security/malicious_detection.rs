//! Content-blind threat detection: the analysis queue ordered by priority, the
//! repetition check on encrypted data, and the quarantine terms and bookkeeping.

use vstd::prelude::*;
use crate::security::chunk_isolation::{IsolationLevel, ThreatLevel, block_repeated_over, has_block_repeated_over};
use crate::clock::utc_now_millis;

verus! {

/// Maximum analysis queue size to prevent DoS.
pub const MAX_ANALYSIS_QUEUE_SIZE: usize = 10000;

/// Priority levels for analysis requests, from lowest to highest.
#[derive(Debug, Clone, Copy, PartialEq, Eq, PartialOrd, Ord)]
pub enum AnalysisPriority {
    Low,
    Normal,
    High,
    Critical,
}

impl AnalysisPriority {
    /// Position of the priority in the order Low < Normal < High < Critical.
    pub open spec fn rank(self) -> nat {
        match self {
            AnalysisPriority::Low => 0,
            AnalysisPriority::Normal => 1,
            AnalysisPriority::High => 2,
            AnalysisPriority::Critical => 3,
        }
    }

    /// The position of the priority, as a number.
    pub fn ordinal(self) -> (r: u8)
        ensures
            r == self.rank(),
    {
        match self {
            AnalysisPriority::Low => 0,
            AnalysisPriority::Normal => 1,
            AnalysisPriority::High => 2,
            AnalysisPriority::Critical => 3,
        }
    }
}

/// The priorities of a queue's entries, front first.
pub open spec fn priorities_of<T>(entries: Seq<(AnalysisPriority, T)>) -> Seq<nat> {
    entries.map_values(|e: (AnalysisPriority, T)| e.0.rank())
}

/// Entries are ordered from highest to lowest priority.
pub open spec fn by_priority<T>(entries: Seq<(AnalysisPriority, T)>) -> bool {
    forall|i: int, j: int| 0 <= i < j < entries.len() ==> entries[i].0.rank() >= entries[j].0.rank()
}

/// Whether an entry is of normal priority or above.
pub open spec fn not_low<T>() -> spec_fn((AnalysisPriority, T)) -> bool {
    |e: (AnalysisPriority, T)| e.0.rank() >= 1
}

/// The entries of normal priority or above, in their order.
pub open spec fn without_low<T>(entries: Seq<(AnalysisPriority, T)>) -> Seq<(AnalysisPriority, T)> {
    entries.filter(not_low())
}

/// Where an entry of priority `p` goes: before the first entry of lower priority.
pub open spec fn insert_position<T>(entries: Seq<(AnalysisPriority, T)>, p: AnalysisPriority) -> int
    decreases entries.len(),
{
    if entries.len() == 0 {
        0
    } else if entries[0].0.rank() < p.rank() {
        0
    } else {
        1 + insert_position(entries.drop_first(), p)
    }
}

/// Requests waiting for analysis, highest priority first and, within a priority, in the
/// order they came.
pub struct AnalysisQueue<T> {
    entries: Vec<(AnalysisPriority, T)>,
}

impl<T> AnalysisQueue<T> {
    /// The entries, front first.
    pub closed spec fn view(&self) -> Seq<(AnalysisPriority, T)> {
        self.entries@
    }

    /// An empty queue.
    pub fn new() -> (q: Self)
        ensures
            q.view() == Seq::<(AnalysisPriority, T)>::empty(),
    {
        AnalysisQueue { entries: Vec::new() }
    }

    /// Number of waiting requests.
    pub fn len(&self) -> (n: usize)
        ensures
            n == self.view().len(),
    {
        self.entries.len()
    }

    /// The entry at position `i` from the front.
    pub fn entry(&self, i: usize) -> (e: &(AnalysisPriority, T))
        requires
            i < self.view().len(),
        ensures
            *e == self.view()[i as int],
    {
        &self.entries[i]
    }

    /// Adds a request. A full queue first drops its low-priority requests; the request
    /// then goes before the first one of lower priority.
    pub fn submit(&mut self, priority: AnalysisPriority, item: T)
        requires
            by_priority(old(self).view()),
        ensures
            ({
                let kept = if old(self).view().len() >= MAX_ANALYSIS_QUEUE_SIZE {
                    without_low(old(self).view())
                } else {
                    old(self).view()
                };
                final(self).view() == kept.insert(insert_position(kept, priority), (priority, item))
            }),
            by_priority(final(self).view()),
    {
        if self.entries.len() >= MAX_ANALYSIS_QUEUE_SIZE {
            self.drop_low();
        }
        let ghost kept = self.entries@;
        let mut pos: usize = 0;
        proof {
            assert(kept.subrange(0, kept.len() as int) =~= kept);
        }
        while pos < self.entries.len() && self.entries[pos].0.ordinal() >= priority.ordinal()
            invariant
                self.entries@ == kept,
                by_priority(kept),
                pos <= kept.len(),
                forall|k: int| 0 <= k < pos ==> kept[k].0.rank() >= priority.rank(),
                insert_position(kept, priority) == pos + insert_position(kept.subrange(pos as int, kept.len() as int), priority),
            decreases kept.len() - pos,
        {
            proof {
                assert(kept.subrange(pos as int, kept.len() as int).drop_first() =~= kept.subrange(pos + 1, kept.len() as int));
            }
            pos = pos + 1;
        }
        proof {
            if pos < kept.len() {
                assert(kept.subrange(pos as int, kept.len() as int)[0] == kept[pos as int]);
            }
            assert(insert_position(kept, priority) == pos);
        }
        self.entries.insert(pos, (priority, item));
        proof {
            let v = self.entries@;
            assert forall|a: int, b: int| 0 <= a < b < v.len() implies v[a].0.rank() >= v[b].0.rank() by {
                if a < pos {
                    assert(v[a] == kept[a]);
                }
                if a > pos {
                    assert(v[a] == kept[a - 1]);
                }
                if b > pos {
                    assert(v[b] == kept[b - 1]);
                    assert(kept[pos as int].0.rank() < priority.rank());
                }
                if b < pos {
                    assert(v[b] == kept[b]);
                }
            }
        }
    }

    /// Drops the low-priority entries, keeping the rest in order.
    fn drop_low(&mut self)
        requires
            by_priority(old(self).view()),
        ensures
            final(self).view() == without_low(old(self).view()),
            by_priority(final(self).view()),
    {
        let ghost orig = self.entries@;
        let mut i: usize = 0;
        let ghost mut j: int = 0;
        proof {
            reveal(Seq::filter);
            assert(orig.subrange(0, 0) =~= Seq::<(AnalysisPriority, T)>::empty());
            assert(self.entries@ =~= without_low(orig.subrange(0, 0)) + orig.subrange(0, orig.len() as int));
        }
        while i < self.entries.len()
            invariant
                0 <= j <= orig.len(),
                i == without_low(orig.subrange(0, j)).len(),
                self.entries@ == without_low(orig.subrange(0, j)) + orig.subrange(j, orig.len() as int),
                by_priority(orig),
            decreases orig.len() - j,
        {
            let ghost w = without_low(orig.subrange(0, j));
            proof {
                reveal(Seq::filter);
                assert(j < orig.len());
                assert(orig.subrange(0, j + 1).drop_last() =~= orig.subrange(0, j));
                assert(orig.subrange(0, j + 1).last() == orig[j]);
                assert(self.entries@[i as int] == orig[j]);
            }
            if self.entries[i].0.ordinal() < 1 {
                self.entries.remove(i);
                proof {
                    assert(without_low(orig.subrange(0, j + 1)) == w);
                    assert(self.entries@ =~= w + orig.subrange(j + 1, orig.len() as int));
                    j = j + 1;
                }
            } else {
                i = i + 1;
                proof {
                    assert(without_low(orig.subrange(0, j + 1)) == w.push(orig[j]));
                    assert(self.entries@ =~= w.push(orig[j]) + orig.subrange(j + 1, orig.len() as int));
                    j = j + 1;
                }
            }
        }
        proof {
            assert(j == orig.len());
            assert(orig.subrange(0, j) =~= orig);
            assert(self.entries@ =~= without_low(orig));
            let v = self.entries@;
            assert forall|a: int, b: int| 0 <= a < b < v.len() implies v[a].0.rank() >= v[b].0.rank() by {
                lemma_filter_keeps_order(orig, a, b);
            }
        }
    }
}

/// Filtering keeps the order of what it keeps: two kept entries stand in the filtered
/// sequence in the order they stood in the original, so a sorted sequence stays sorted.
proof fn lemma_filter_keeps_order<T>(s: Seq<(AnalysisPriority, T)>, a: int, b: int)
    requires
        by_priority(s),
        0 <= a < b < without_low(s).len(),
    ensures
        without_low(s)[a].0.rank() >= without_low(s)[b].0.rank(),
    decreases s.len(),
{
    let w = without_low(s);
    let init = s.drop_last();
    reveal(Seq::filter);
    let wi = without_low(init);
    if b < wi.len() {
        assert(by_priority(init)) by {
            assert forall|i: int, j: int| 0 <= i < j < init.len() implies init[i].0.rank() >= init[j].0.rank() by {
                assert(init[i] == s[i] && init[j] == s[j]);
            }
        }
        lemma_filter_keeps_order(init, a, b);
        assert(w[a] == wi[a] && w[b] == wi[b]);
    } else {
        assert(w[b] == s.last());
        assert(w[a] == wi[a]);
        assert(wi.contains(wi[a]));
        init.lemma_filter_contains_rev(not_low(), wi[a]);
        let k = choose|k: int| 0 <= k < init.len() && init[k] == wi[a];
        assert(s[k] == wi[a]);
        assert(s[k].0.rank() >= s[s.len() - 1].0.rank());
    }
}

/// Context information about when a chunk arrived.
#[derive(Debug, Clone, Copy, PartialEq, Eq)]
pub struct TemporalContext {
    pub upload_time: u64,
    pub burst_indicator: bool,
    pub unusual_timing: bool,
    pub rate_limit_triggered: bool,
}

/// Types of analysis components.
#[derive(Debug, Clone, Copy, PartialEq, Eq)]
pub enum AnalysisComponentType {
    SignatureMatching,
    BehavioralAnalysis,
    StatisticalAnalysis,
    PatternRecognition,
    NetworkAnalysis,
    TemporalAnalysis,
}

/// Recommended actions based on analysis.
#[derive(Debug, Clone, Copy, PartialEq, Eq)]
pub enum RecommendedAction {
    Allow,
    Monitor,
    EnhancedMonitoring,
    RateLimitPeer,
    QuarantineChunk,
    BlockPeer,
    AlertAdministrator,
    ImmediateDelete,
}

/// Types of threats that can be detected.
#[derive(Debug, Clone, Copy, PartialEq, Eq)]
pub enum ThreatType {
    KnownMalware,
    SuspiciousEncryption,
    DataExfiltration,
    RansomwarePattern,
    BotneTCommand,
    AnomalousTraffic,
    UnusualCompression,
    SuspiciousFrequency,
}

/// Quarantine recommendation with details; the duration is in seconds, `None` for
/// indefinite.
#[derive(Debug, Clone)]
pub struct QuarantineRecommendation {
    pub should_quarantine: bool,
    pub isolation_level: IsolationLevel,
    pub reason: String,
    pub duration_secs: Option<u64>,
    pub monitoring_required: bool,
}

/// The recommendation for a chunk assessed at `threat`; `confident` says whether the
/// analysis confidence exceeds 0.6, which decides quarantine for a medium threat.
pub fn quarantine_recommendation(threat: ThreatLevel, confident: bool) -> (r: QuarantineRecommendation)
    ensures
        r.should_quarantine == match threat {
            ThreatLevel::Low => false,
            ThreatLevel::Medium => confident,
            _ => true,
        },
        r.isolation_level == match threat {
            ThreatLevel::Low => IsolationLevel::Standard,
            ThreatLevel::Medium => IsolationLevel::Enhanced,
            _ => IsolationLevel::Quarantined,
        },
        r.duration_secs == match threat {
            ThreatLevel::Low => None,
            ThreatLevel::Medium => Some(3600u64),
            ThreatLevel::High => Some(86400u64),
            ThreatLevel::Critical => None::<u64>,
        },
        r.monitoring_required == (threat != ThreatLevel::Low),
{
    match threat {
        ThreatLevel::Low => QuarantineRecommendation {
            should_quarantine: false,
            isolation_level: IsolationLevel::Standard,
            reason: "No threat detected".to_owned(),
            duration_secs: None,
            monitoring_required: false,
        },
        ThreatLevel::Medium => QuarantineRecommendation {
            should_quarantine: confident,
            isolation_level: IsolationLevel::Enhanced,
            reason: "Medium threat level detected".to_owned(),
            duration_secs: Some(3600),
            monitoring_required: true,
        },
        ThreatLevel::High => QuarantineRecommendation {
            should_quarantine: true,
            isolation_level: IsolationLevel::Quarantined,
            reason: "High threat level detected".to_owned(),
            duration_secs: Some(86400),
            monitoring_required: true,
        },
        ThreatLevel::Critical => QuarantineRecommendation {
            should_quarantine: true,
            isolation_level: IsolationLevel::Quarantined,
            reason: "Critical threat level detected".to_owned(),
            duration_secs: None,
            monitoring_required: true,
        },
    }
}

/// Compiled pattern for efficient matching.
#[derive(Debug, Clone)]
pub struct CompiledPattern {
    pub pattern_id: String,
    pub pattern_bytes: Vec<u8>,
    /// For fuzzy matching
    pub pattern_mask: Vec<u8>,
    pub threat_level: ThreatLevel,
}

/// Statistics for pattern matching performance; the average time is in milliseconds.
#[derive(Debug, Clone, Copy, PartialEq, Eq, Default)]
pub struct PatternMatchStats {
    pub total_matches: u64,
    pub false_positives: u64,
    pub true_positives: u64,
    pub patterns_checked: u64,
    pub average_match_time_ms: u64,
}

/// Quarantine policy configuration; the duration is in seconds, `None` for indefinite.
#[derive(Debug, Clone)]
pub struct QuarantinePolicy {
    pub policy_id: String,
    pub trigger_threat_level: ThreatLevel,
    pub automatic_quarantine: bool,
    pub quarantine_duration_secs: Option<u64>,
    pub require_manual_review: bool,
    pub delete_after_quarantine: bool,
}

/// The policies a quarantine manager starts with: high threats quarantined for a day,
/// critical ones indefinitely and for manual review.
pub open spec fn standard_policies(p: Seq<QuarantinePolicy>) -> bool {
    &&& p.len() == 2
    &&& p[0].policy_id@ == "high_threat_auto"@
    &&& p[0].trigger_threat_level == ThreatLevel::High
    &&& p[0].automatic_quarantine
    &&& p[0].quarantine_duration_secs == Some(86400u64)
    &&& !p[0].require_manual_review
    &&& !p[0].delete_after_quarantine
    &&& p[1].policy_id@ == "critical_threat_auto"@
    &&& p[1].trigger_threat_level == ThreatLevel::Critical
    &&& p[1].automatic_quarantine
    &&& p[1].quarantine_duration_secs == None::<u64>
    &&& p[1].require_manual_review
    &&& !p[1].delete_after_quarantine
}

/// Builds the policies a quarantine manager starts with.
pub fn default_policies() -> (p: Vec<QuarantinePolicy>)
    ensures
        standard_policies(p@),
{
    let mut p: Vec<QuarantinePolicy> = Vec::new();
    p.push(
        QuarantinePolicy {
            policy_id: "high_threat_auto".to_owned(),
            trigger_threat_level: ThreatLevel::High,
            automatic_quarantine: true,
            quarantine_duration_secs: Some(86400),
            require_manual_review: false,
            delete_after_quarantine: false,
        },
    );
    p.push(
        QuarantinePolicy {
            policy_id: "critical_threat_auto".to_owned(),
            trigger_threat_level: ThreatLevel::Critical,
            automatic_quarantine: true,
            quarantine_duration_secs: None,
            require_manual_review: true,
            delete_after_quarantine: false,
        },
    );
    p
}

/// How long a chunk quarantined at `threat` stays quarantined, in seconds (`None`:
/// indefinitely), and whether it needs review: half an hour for a low threat, an hour
/// for a medium one, a day for a high one; a critical one stays until reviewed.
pub fn quarantine_terms(threat: ThreatLevel) -> (r: (Option<u64>, bool))
    ensures
        r.0 == match threat {
            ThreatLevel::Low => Some(1800u64),
            ThreatLevel::Medium => Some(3600u64),
            ThreatLevel::High => Some(86400u64),
            ThreatLevel::Critical => None::<u64>,
        },
        r.1 == (threat == ThreatLevel::Critical),
{
    match threat {
        ThreatLevel::Medium => (Some(3600), false),
        ThreatLevel::High => (Some(86400), false),
        ThreatLevel::Critical => (None, true),
        ThreatLevel::Low => (Some(1800), false),
    }
}

/// Quarantine statistics.
#[derive(Debug, Clone, Copy, PartialEq, Eq, Default)]
pub struct QuarantineStats {
    pub total_quarantined: u64,
    pub currently_quarantined: u64,
    pub false_positives: u64,
    pub threats_blocked: u64,
    pub automatic_quarantines: u64,
    pub manual_quarantines: u64,
}

impl QuarantineStats {
    /// Every counter at zero.
    pub open spec fn zeroed() -> Self {
        QuarantineStats {
            total_quarantined: 0,
            currently_quarantined: 0,
            false_positives: 0,
            threats_blocked: 0,
            automatic_quarantines: 0,
            manual_quarantines: 0,
        }
    }

    /// Statistics with every counter at zero.
    pub fn zero() -> (s: Self)
        ensures
            s == Self::zeroed(),
    {
        QuarantineStats {
            total_quarantined: 0,
            currently_quarantined: 0,
            false_positives: 0,
            threats_blocked: 0,
            automatic_quarantines: 0,
            manual_quarantines: 0,
        }
    }

    /// Counts one more quarantine, automated or manual.
    pub fn record_quarantine(&mut self, automated: bool)
        requires
            old(self).total_quarantined < u64::MAX,
            old(self).currently_quarantined < u64::MAX,
            automated ==> old(self).automatic_quarantines < u64::MAX,
            !automated ==> old(self).manual_quarantines < u64::MAX,
        ensures
            final(self).total_quarantined == old(self).total_quarantined + 1,
            final(self).currently_quarantined == old(self).currently_quarantined + 1,
            final(self).automatic_quarantines == old(self).automatic_quarantines + if automated { 1int } else { 0 },
            final(self).manual_quarantines == old(self).manual_quarantines + if automated { 0int } else { 1 },
            final(self).false_positives == old(self).false_positives,
            final(self).threats_blocked == old(self).threats_blocked,
    {
        self.total_quarantined = self.total_quarantined + 1;
        self.currently_quarantined = self.currently_quarantined + 1;
        if automated {
            self.automatic_quarantines = self.automatic_quarantines + 1;
        } else {
            self.manual_quarantines = self.manual_quarantines + 1;
        }
    }
}

/// Repetitive patterns in encrypted data: at least 64 bytes in which some whole 16-byte
/// block occurs more often than 5% of the blocks, and more than three times.
pub open spec fn repetitive(data: Seq<u8>) -> bool {
    let threshold = (data.len() / 16) / 20;
    data.len() >= 64 && block_repeated_over(data, if threshold > 3 { threshold } else { 3 })
}

/// Detects repetitive patterns in encrypted data.
pub fn detect_repetitive_patterns(data: &[u8]) -> (r: bool)
    ensures
        r == repetitive(data@),
{
    if data.len() < 64 {
        return false;
    }
    let threshold = (data.len() / 16) / 20;
    let limit = if threshold > 3 {
        threshold
    } else {
        3
    };
    has_block_repeated_over(data, limit)
}

/// A chunk held in quarantine.
#[derive(Debug)]
pub struct QuarantinedChunk {
    pub chunk_id: u128,
    pub quarantine_reason: String,
    /// When the chunk was quarantined, in milliseconds since the Unix epoch
    pub quarantined_at: i64,
    /// How long it stays quarantined, in seconds; `None` for indefinitely
    pub quarantine_duration_secs: Option<u64>,
    pub threat_level: ThreatLevel,
    pub automated: bool,
    pub review_required: bool,
}

/// Some quarantined chunk has identifier `id`.
pub open spec fn holds_quarantined(chunks: Seq<QuarantinedChunk>, id: u128) -> bool {
    exists|i: int| 0 <= i < chunks.len() && (#[trigger] chunks[i]).chunk_id == id
}

/// The position of the quarantined chunk with identifier `id`.
pub open spec fn quarantined_index(chunks: Seq<QuarantinedChunk>, id: u128) -> int {
    choose|i: int| 0 <= i < chunks.len() && (#[trigger] chunks[i]).chunk_id == id
}

/// No two quarantined chunks share an identifier.
pub open spec fn quarantine_ids_distinct(chunks: Seq<QuarantinedChunk>) -> bool {
    forall|i: int, j: int|
        0 <= i < chunks.len() && 0 <= j < chunks.len() && i != j ==> (#[trigger] chunks[i]).chunk_id
            != (#[trigger] chunks[j]).chunk_id
}

/// With distinct identifiers, the chunk found at a position is the one with its identifier.
proof fn lemma_quarantined_index(chunks: Seq<QuarantinedChunk>, i: int)
    requires
        quarantine_ids_distinct(chunks),
        0 <= i < chunks.len(),
    ensures
        holds_quarantined(chunks, chunks[i].chunk_id),
        quarantined_index(chunks, chunks[i].chunk_id) == i,
{
    assert(holds_quarantined(chunks, chunks[i].chunk_id));
}

/// `q` is the record of chunk `id` quarantined for `reason` at `threat`, automatically or not.
pub open spec fn quarantine_record(q: QuarantinedChunk, id: u128, reason: Seq<char>, threat: ThreatLevel, automated: bool) -> bool {
    &&& q.chunk_id == id
    &&& q.quarantine_reason@ == reason
    &&& q.quarantine_duration_secs == match threat {
        ThreatLevel::Low => Some(1800u64),
        ThreatLevel::Medium => Some(3600u64),
        ThreatLevel::High => Some(86400u64),
        ThreatLevel::Critical => None::<u64>,
    }
    &&& q.threat_level == threat
    &&& q.automated == automated
    &&& q.review_required == (threat == ThreatLevel::Critical)
}

/// Quarantine management: the chunks held, each under an identifier of its own, the
/// policies, and the statistics.
pub struct QuarantineManager {
    quarantined_chunks: Vec<QuarantinedChunk>,
    policies: Vec<QuarantinePolicy>,
    stats: QuarantineStats,
}

impl QuarantineManager {
    /// The chunks held in quarantine.
    pub closed spec fn held(&self) -> Seq<QuarantinedChunk> {
        self.quarantined_chunks@
    }

    /// The quarantine policies.
    pub closed spec fn policy_seq(&self) -> Seq<QuarantinePolicy> {
        self.policies@
    }

    /// The quarantine statistics.
    pub closed spec fn spec_stats(&self) -> QuarantineStats {
        self.stats
    }

    /// No two held chunks share an identifier.
    pub open spec fn wf(&self) -> bool {
        quarantine_ids_distinct(self.held())
    }

    /// A manager holding nothing, with the standard policies and zeroed statistics.
    pub fn new() -> (m: Self)
        ensures
            m.wf(),
            m.held().len() == 0,
            standard_policies(m.policy_seq()),
            m.spec_stats() == QuarantineStats::zeroed(),
    {
        QuarantineManager { quarantined_chunks: Vec::new(), policies: default_policies(), stats: QuarantineStats::zero() }
    }

    /// The quarantine statistics.
    pub fn stats(&self) -> (s: QuarantineStats)
        ensures
            s == self.spec_stats(),
    {
        self.stats
    }

    /// The record of a quarantined chunk, if the chunk is held.
    pub fn quarantined(&self, chunk_id: u128) -> (r: Option<&QuarantinedChunk>)
        requires
            self.wf(),
        ensures
            match r {
                Some(q) => holds_quarantined(self.held(), chunk_id) && *q == self.held()[quarantined_index(
                    self.held(),
                    chunk_id,
                )],
                None => !holds_quarantined(self.held(), chunk_id),
            },
    {
        match self.position(chunk_id) {
            Some(i) => {
                proof {
                    lemma_quarantined_index(self.held(), i as int);
                }
                Some(&self.quarantined_chunks[i])
            },
            None => None,
        }
    }

    /// The position of the held chunk with identifier `chunk_id`, if there is one.
    fn position(&self, chunk_id: u128) -> (r: Option<usize>)
        ensures
            match r {
                Some(i) => i < self.held().len() && self.held()[i as int].chunk_id == chunk_id,
                None => !holds_quarantined(self.held(), chunk_id),
            },
    {
        let mut i: usize = 0;
        while i < self.quarantined_chunks.len()
            invariant
                i <= self.quarantined_chunks@.len(),
                forall|j: int| 0 <= j < i ==> (#[trigger] self.quarantined_chunks@[j]).chunk_id != chunk_id,
            decreases self.quarantined_chunks@.len() - i,
        {
            if self.quarantined_chunks[i].chunk_id == chunk_id {
                return Some(i);
            }
            i = i + 1;
        }
        None
    }

    /// Quarantines a chunk for `reason`: for half an hour at a low threat, an hour at a
    /// medium one, a day at a high one, indefinitely and for review at a critical one. A
    /// chunk already held is recorded anew; every call counts one more quarantine.
    pub fn quarantine_chunk(&mut self, chunk_id: u128, reason: String, threat_level: ThreatLevel, automated: bool)
        requires
            old(self).wf(),
            old(self).spec_stats().total_quarantined < u64::MAX,
            old(self).spec_stats().currently_quarantined < u64::MAX,
            automated ==> old(self).spec_stats().automatic_quarantines < u64::MAX,
            !automated ==> old(self).spec_stats().manual_quarantines < u64::MAX,
        ensures
            final(self).wf(),
            final(self).policy_seq() == old(self).policy_seq(),
            holds_quarantined(final(self).held(), chunk_id),
            quarantine_record(
                final(self).held()[quarantined_index(final(self).held(), chunk_id)],
                chunk_id,
                reason@,
                threat_level,
                automated,
            ),
            final(self).held() == if holds_quarantined(old(self).held(), chunk_id) {
                old(self).held().update(
                    quarantined_index(old(self).held(), chunk_id),
                    final(self).held()[quarantined_index(final(self).held(), chunk_id)],
                )
            } else {
                old(self).held().push(final(self).held()[quarantined_index(final(self).held(), chunk_id)])
            },
            final(self).spec_stats().total_quarantined == old(self).spec_stats().total_quarantined + 1,
            final(self).spec_stats().currently_quarantined == old(self).spec_stats().currently_quarantined + 1,
            final(self).spec_stats().automatic_quarantines == old(self).spec_stats().automatic_quarantines + if automated {
                1int
            } else {
                0
            },
            final(self).spec_stats().manual_quarantines == old(self).spec_stats().manual_quarantines + if automated {
                0int
            } else {
                1
            },
            final(self).spec_stats().false_positives == old(self).spec_stats().false_positives,
            final(self).spec_stats().threats_blocked == old(self).spec_stats().threats_blocked,
    {
        let (duration, review) = quarantine_terms(threat_level);
        let record = QuarantinedChunk {
            chunk_id,
            quarantine_reason: reason,
            quarantined_at: utc_now_millis(),
            quarantine_duration_secs: duration,
            threat_level,
            automated,
            review_required: review,
        };
        let ghost before = self.quarantined_chunks@;
        match self.position(chunk_id) {
            Some(i) => {
                proof {
                    lemma_quarantined_index(before, i as int);
                }
                self.quarantined_chunks.set(i, record);
                proof {
                    assert forall|a: int, b: int|
                        0 <= a < self.quarantined_chunks@.len() && 0 <= b < self.quarantined_chunks@.len() && a != b implies (#[trigger] self.quarantined_chunks@[a]).chunk_id
                        != (#[trigger] self.quarantined_chunks@[b]).chunk_id by {
                        assert(before[a].chunk_id != before[b].chunk_id);
                    }
                    lemma_quarantined_index(self.quarantined_chunks@, i as int);
                }
            },
            None => {
                self.quarantined_chunks.push(record);
                proof {
                    lemma_quarantined_index(self.quarantined_chunks@, before.len() as int);
                }
            },
        }
        self.stats.record_quarantine(automated);
    }
}

} // verus!
