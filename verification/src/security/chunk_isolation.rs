//! Per-chunk security boundaries: isolation levels, the access each level allows, and
//! the content-blind checks that raise a chunk's level.
//!
//! A chunk's level only ever rises; a quarantined chunk can be neither read, written nor
//! transmitted, and every chunk above the standard level needs authentication and is
//! monitored.

use vstd::prelude::*;
use crate::bytes::concat_bytes;
use crate::clock::unix_time_secs;
use crate::digest::{hex_encode, hex_lower, ring_digest, ring_digest_of, sha256_max_input, RingAlgorithm};
use crate::storage::metadata_store::{le_bytes, le_bytes_of};

verus! {

/// Security isolation levels for chunks, from least to most restrictive.
#[derive(Debug, Clone, Copy, PartialEq, Eq)]
pub enum IsolationLevel {
    /// Standard isolation - normal chunks with per-chunk encryption
    Standard,
    /// Enhanced isolation - suspicious chunks with additional monitoring
    Enhanced,
    /// Maximum isolation - quarantined chunks with strict containment
    Quarantined,
}

impl IsolationLevel {
    /// Position of the level in the order Standard < Enhanced < Quarantined.
    pub open spec fn rank(self) -> nat {
        match self {
            IsolationLevel::Standard => 0,
            IsolationLevel::Enhanced => 1,
            IsolationLevel::Quarantined => 2,
        }
    }

    /// The position of the level, as a number.
    pub fn ordinal(self) -> (r: u8)
        ensures
            r == self.rank(),
    {
        match self {
            IsolationLevel::Standard => 0,
            IsolationLevel::Enhanced => 1,
            IsolationLevel::Quarantined => 2,
        }
    }
}

/// Threat level assessment, from least to most severe.
#[derive(Debug, Clone, Copy, PartialEq, Eq)]
pub enum ThreatLevel {
    Low,
    Medium,
    High,
    Critical,
}

impl ThreatLevel {
    /// Position of the level in the order Low < Medium < High < Critical.
    pub open spec fn rank(self) -> nat {
        match self {
            ThreatLevel::Low => 0,
            ThreatLevel::Medium => 1,
            ThreatLevel::High => 2,
            ThreatLevel::Critical => 3,
        }
    }

    /// The position of the level, as a number.
    pub fn ordinal(self) -> (r: u8)
        ensures
            r == self.rank(),
    {
        match self {
            ThreatLevel::Low => 0,
            ThreatLevel::Medium => 1,
            ThreatLevel::High => 2,
            ThreatLevel::Critical => 3,
        }
    }

    /// The more severe of two threat levels.
    pub fn max(self, other: Self) -> (r: Self)
        ensures
            r.rank() == if self.rank() >= other.rank() { self.rank() } else { other.rank() },
            r == self || r == other,
    {
        match (self, other) {
            (ThreatLevel::Critical, _) | (_, ThreatLevel::Critical) => ThreatLevel::Critical,
            (ThreatLevel::High, _) | (_, ThreatLevel::High) => ThreatLevel::High,
            (ThreatLevel::Medium, _) | (_, ThreatLevel::Medium) => ThreatLevel::Medium,
            _ => ThreatLevel::Low,
        }
    }

    /// Whether this level is at least as severe as `threshold`.
    pub fn at_least(self, threshold: Self) -> (r: bool)
        ensures
            r == (self.rank() >= threshold.rank()),
    {
        self.ordinal() >= threshold.ordinal()
    }
}

/// Two threat levels of equal rank are the same level.
pub proof fn lemma_threat_rank_injective(a: ThreatLevel, b: ThreatLevel)
    ensures
        a.rank() == b.rank() <==> a == b,
{
}

/// Taking the more severe of threat levels is commutative, associative and idempotent,
/// and `Low` changes nothing: the levels form a join semilattice with `Low` at the bottom.
pub proof fn lemma_threat_max_laws(a: ThreatLevel, b: ThreatLevel, c: ThreatLevel)
    ensures
        threat_join(a, b) == threat_join(b, a),
        threat_join(threat_join(a, b), c) == threat_join(a, threat_join(b, c)),
        threat_join(a, a) == a,
        threat_join(a, ThreatLevel::Low) == a,
        threat_join(a, b).rank() >= a.rank(),
        threat_join(a, b).rank() >= b.rank(),
{
}

/// The more severe of two threat levels, as `ThreatLevel::max` computes it.
pub open spec fn threat_join(a: ThreatLevel, b: ThreatLevel) -> ThreatLevel {
    if a.rank() >= b.rank() {
        a
    } else {
        b
    }
}

/// Access control flags for chunk security.
#[derive(Debug, Clone, Copy, PartialEq, Eq)]
pub struct ChunkAccessFlags {
    /// Can be read by storage operations
    pub readable: bool,
    /// Can be written/modified
    pub writable: bool,
    /// Can be transmitted over network
    pub transmittable: bool,
    /// Requires additional authentication
    pub auth_required: bool,
    /// Under security monitoring
    pub monitored: bool,
    /// Scheduled for deletion
    pub marked_for_deletion: bool,
}

/// The flags of a chunk at the standard level: readable and transmittable, immutable.
pub open spec fn default_flags() -> ChunkAccessFlags {
    ChunkAccessFlags {
        readable: true,
        writable: false,
        transmittable: true,
        auth_required: false,
        monitored: false,
        marked_for_deletion: false,
    }
}

/// The flags a chunk is created with at each isolation level.
pub open spec fn flags_for_level(level: IsolationLevel) -> ChunkAccessFlags {
    match level {
        IsolationLevel::Standard => default_flags(),
        IsolationLevel::Enhanced => ChunkAccessFlags { auth_required: true, monitored: true, ..default_flags() },
        IsolationLevel::Quarantined => ChunkAccessFlags {
            readable: false,
            writable: false,
            transmittable: false,
            auth_required: true,
            monitored: true,
            marked_for_deletion: false,
        },
    }
}

impl Default for ChunkAccessFlags {
    /// Readable and transmittable; chunks are immutable by default.
    fn default() -> (f: Self)
        ensures
            f == default_flags(),
    {
        ChunkAccessFlags {
            readable: true,
            writable: false,
            transmittable: true,
            auth_required: false,
            monitored: false,
            marked_for_deletion: false,
        }
    }
}

impl ChunkAccessFlags {
    /// The flags a chunk is created with at the given isolation level.
    pub fn for_level(level: IsolationLevel) -> (f: Self)
        ensures
            f == flags_for_level(level),
    {
        match level {
            IsolationLevel::Standard => ChunkAccessFlags::default(),
            IsolationLevel::Enhanced => ChunkAccessFlags {
                auth_required: true,
                monitored: true,
                ..ChunkAccessFlags::default()
            },
            IsolationLevel::Quarantined => ChunkAccessFlags {
                readable: false,
                writable: false,
                transmittable: false,
                auth_required: true,
                monitored: true,
                marked_for_deletion: false,
            },
        }
    }

    /// Whether these flags allow the given kind of access.
    pub fn allows(&self, access: ChunkAccessType) -> (b: bool)
        ensures
            b == flags_allow(*self, access),
    {
        match access {
            ChunkAccessType::Read => self.readable,
            ChunkAccessType::Write => self.writable,
            ChunkAccessType::Transmit => self.transmittable,
        }
    }
}

/// Whether `flags` allow `access`.
pub open spec fn flags_allow(flags: ChunkAccessFlags, access: ChunkAccessType) -> bool {
    match access {
        ChunkAccessType::Read => flags.readable,
        ChunkAccessType::Write => flags.writable,
        ChunkAccessType::Transmit => flags.transmittable,
    }
}

/// Types of chunk access.
#[derive(Debug, Clone, Copy, PartialEq, Eq)]
pub enum ChunkAccessType {
    Read,
    Write,
    Transmit,
}

/// Types of security events.
#[derive(Debug, Clone, Copy, PartialEq, Eq)]
pub enum SecurityEventType {
    ChunkIsolated,
    SecurityUpgraded,
    AccessDenied,
    SuspiciousPattern,
    QuarantineTriggered,
    IntegrityViolation,
    UnauthorizedAccess,
    SecurityDowngraded,
}

/// Actions to take when quarantine is triggered.
#[derive(Debug, Clone, Copy, PartialEq, Eq)]
pub enum QuarantineAction {
    /// Monitor the chunk closely
    Monitor,
    /// Enhance security isolation
    EnhanceIsolation,
    /// Quarantine immediately
    Quarantine,
    /// Block all access
    Block,
    /// Mark for deletion
    Delete,
}

/// Quarantine rule for automated threat response.
#[derive(Debug, Clone)]
pub struct QuarantineRule {
    /// Rule identifier
    pub rule_id: String,
    /// Rule description
    pub description: String,
    /// Pattern to match (encrypted pattern)
    pub pattern: Vec<u8>,
    /// Action to take when triggered
    pub action: QuarantineAction,
    /// Rule priority (higher = more important)
    pub priority: u32,
    /// Whether rule is currently active
    pub active: bool,
}

/// The security state of one isolated chunk: its level, its access flags, and why it was
/// quarantined, if it was.
#[derive(Debug, Clone)]
pub struct ChunkSecurityState {
    pub isolation_level: IsolationLevel,
    pub access_flags: ChunkAccessFlags,
    pub quarantine_reason: Option<String>,
}

/// The flags agree with the level: a chunk above the standard level needs authentication
/// and is monitored, a quarantined chunk can be neither read, written nor transmitted, and
/// no chunk is writable.
pub open spec fn flags_consistent(level: IsolationLevel, flags: ChunkAccessFlags) -> bool {
    &&& !flags.writable
    &&& level.rank() >= 1 ==> flags.auth_required && flags.monitored
    &&& level == IsolationLevel::Quarantined ==> !flags.readable && !flags.transmittable
}

impl ChunkSecurityState {
    /// The flags agree with the level.
    pub open spec fn consistent(&self) -> bool {
        flags_consistent(self.isolation_level, self.access_flags)
    }

    /// The state of a chunk isolated at `level`.
    pub fn isolate(level: IsolationLevel) -> (s: Self)
        ensures
            s.isolation_level == level,
            s.access_flags == flags_for_level(level),
            s.quarantine_reason is None,
            s.consistent(),
    {
        ChunkSecurityState {
            isolation_level: level,
            access_flags: ChunkAccessFlags::for_level(level),
            quarantine_reason: None,
        }
    }

    /// Whether the chunk may be accessed in the given way.
    pub fn access(&self, access: ChunkAccessType) -> (b: bool)
        ensures
            b == flags_allow(self.access_flags, access),
    {
        self.access_flags.allows(access)
    }

    /// Raises the chunk's level to `new_level`; a request to lower it changes nothing.
    /// Entering the enhanced level turns on authentication and monitoring; entering
    /// quarantine also closes every access and records `reason`. Returns whether the
    /// request was applied.
    pub fn upgrade(&mut self, new_level: IsolationLevel, reason: String) -> (applied: bool)
        ensures
            applied == (new_level.rank() >= old(self).isolation_level.rank()),
            !applied ==> *final(self) == *old(self),
            applied ==> final(self).isolation_level == new_level,
            applied ==> final(self).access_flags == upgraded_flags(old(self).access_flags, new_level),
            applied && new_level == IsolationLevel::Quarantined ==> final(self).quarantine_reason == Some(reason),
            applied && new_level != IsolationLevel::Quarantined ==> final(self).quarantine_reason
                == old(self).quarantine_reason,
            old(self).consistent() ==> final(self).consistent(),
            final(self).isolation_level.rank() == if old(self).isolation_level.rank() >= new_level.rank() {
                old(self).isolation_level.rank()
            } else {
                new_level.rank()
            },
            old(self).isolation_level == IsolationLevel::Quarantined && old(self).consistent() ==> {
                &&& final(self).isolation_level == IsolationLevel::Quarantined
                &&& !final(self).access_flags.readable
                &&& !final(self).access_flags.writable
                &&& !final(self).access_flags.transmittable
            },
    {
        if new_level.ordinal() < self.isolation_level.ordinal() {
            return false;
        }
        self.isolation_level = new_level;
        match new_level {
            IsolationLevel::Enhanced => {
                self.access_flags.auth_required = true;
                self.access_flags.monitored = true;
            },
            IsolationLevel::Quarantined => {
                self.access_flags.readable = false;
                self.access_flags.writable = false;
                self.access_flags.transmittable = false;
                self.access_flags.auth_required = true;
                self.access_flags.monitored = true;
                self.quarantine_reason = Some(reason);
            },
            IsolationLevel::Standard => {},
        }
        true
    }
}

/// The flags after entering `level`.
pub open spec fn upgraded_flags(flags: ChunkAccessFlags, level: IsolationLevel) -> ChunkAccessFlags {
    match level {
        IsolationLevel::Standard => flags,
        IsolationLevel::Enhanced => ChunkAccessFlags { auth_required: true, monitored: true, ..flags },
        IsolationLevel::Quarantined => ChunkAccessFlags {
            readable: false,
            writable: false,
            transmittable: false,
            auth_required: true,
            monitored: true,
            ..flags
        },
    }
}

/// Size above which a chunk is unusually large: 100 MiB.
pub const LARGE_CHUNK_BYTES: usize = 104857600;

/// The threat level the content-blind checks assign to a chunk, each later check
/// overriding the earlier ones: an oversized chunk is a medium threat, low entropy a high
/// one, repeated blocks a medium one, and a match with a quarantine rule a critical one.
pub open spec fn assessed_threat(size: nat, low_entropy: bool, repeated: bool, rule_match: bool) -> ThreatLevel {
    if rule_match {
        ThreatLevel::Critical
    } else if repeated {
        ThreatLevel::Medium
    } else if low_entropy {
        ThreatLevel::High
    } else if size > LARGE_CHUNK_BYTES {
        ThreatLevel::Medium
    } else {
        ThreatLevel::Low
    }
}

/// The outcome of a content-blind security analysis of one chunk.
#[derive(Debug, Clone)]
pub struct ChunkAssessment {
    pub threat_level: ThreatLevel,
    pub suspicious_indicators: Vec<String>,
    pub recommendations: Vec<String>,
}

/// `item` when `present`, else nothing.
pub open spec fn if_present(present: bool, item: Seq<char>) -> Seq<Seq<char>> {
    if present {
        seq![item]
    } else {
        Seq::empty()
    }
}

/// The indicators the content-blind checks report, in the order the checks run.
pub open spec fn assessed_indicators(size: nat, low_entropy: bool, repeated: bool, rule_match: bool) -> Seq<
    Seq<char>,
> {
    if_present(size > LARGE_CHUNK_BYTES, "Unusually large chunk size"@) + if_present(
        low_entropy,
        "Low entropy in encrypted data"@,
    ) + if_present(repeated, "Suspicious pattern repetition"@) + if_present(rule_match, "Matches quarantine rule"@)
}

/// The recommendations the content-blind checks make, in the order the checks run.
pub open spec fn assessed_recommendations(low_entropy: bool, rule_match: bool) -> Seq<Seq<char>> {
    if_present(low_entropy, "Quarantine immediately"@) + if_present(rule_match, "Immediate quarantine required"@)
}

/// Combines the content-blind checks of a chunk of `size` bytes into a threat level, with
/// the indicators found and the recommendations made, in the order the checks run.
pub fn assess_chunk(size: usize, low_entropy: bool, repeated: bool, rule_match: bool) -> (a: ChunkAssessment)
    ensures
        a.threat_level == assessed_threat(size as nat, low_entropy, repeated, rule_match),
        string_views(a.suspicious_indicators@) == assessed_indicators(size as nat, low_entropy, repeated, rule_match),
        string_views(a.recommendations@) == assessed_recommendations(low_entropy, rule_match),
{
    let mut threat_level = ThreatLevel::Low;
    let mut suspicious_indicators: Vec<String> = Vec::new();
    let mut recommendations: Vec<String> = Vec::new();
    if size > LARGE_CHUNK_BYTES {
        suspicious_indicators.push("Unusually large chunk size".to_owned());
        threat_level = ThreatLevel::Medium;
    }
    if low_entropy {
        suspicious_indicators.push("Low entropy in encrypted data".to_owned());
        threat_level = ThreatLevel::High;
        recommendations.push("Quarantine immediately".to_owned());
    }
    if repeated {
        suspicious_indicators.push("Suspicious pattern repetition".to_owned());
        threat_level = ThreatLevel::Medium;
    }
    if rule_match {
        suspicious_indicators.push("Matches quarantine rule".to_owned());
        threat_level = ThreatLevel::Critical;
        recommendations.push("Immediate quarantine required".to_owned());
    }
    proof {
        assert(string_views(suspicious_indicators@) =~= assessed_indicators(
            size as nat,
            low_entropy,
            repeated,
            rule_match,
        ));
        assert(string_views(recommendations@) =~= assessed_recommendations(low_entropy, rule_match));
    }
    ChunkAssessment { threat_level, suspicious_indicators, recommendations }
}

/// The level an analysed chunk is raised to: enhanced for a medium threat, quarantine for
/// a high or critical one, none for a low one.
pub fn response_level(threat: ThreatLevel) -> (r: Option<IsolationLevel>)
    ensures
        r == match threat {
            ThreatLevel::Low => None,
            ThreatLevel::Medium => Some(IsolationLevel::Enhanced),
            _ => Some(IsolationLevel::Quarantined),
        },
{
    match threat {
        ThreatLevel::Medium => Some(IsolationLevel::Enhanced),
        ThreatLevel::High | ThreatLevel::Critical => Some(IsolationLevel::Quarantined),
        ThreatLevel::Low => None,
    }
}

/// Block `i` of 16 bytes of `data`.
pub open spec fn block16(data: Seq<u8>, i: int) -> Seq<u8> {
    data.subrange(16 * i, 16 * i + 16)
}

/// Number of whole 16-byte blocks among the first `upto` that equal `b`.
pub open spec fn block_count(data: Seq<u8>, b: Seq<u8>, upto: int) -> nat
    decreases upto,
{
    if upto <= 0 {
        0
    } else {
        block_count(data, b, upto - 1) + if block16(data, upto - 1) == b { 1nat } else { 0nat }
    }
}

/// Some whole 16-byte block of `data` occurs more than `limit` times among its blocks.
pub open spec fn block_repeated_over(data: Seq<u8>, limit: nat) -> bool {
    exists|i: int| 0 <= i < data.len() / 16 && #[trigger] block_count(data, block16(data, i), (data.len() / 16) as int) > limit
}

/// Whether blocks `i` and `j` of 16 bytes are equal.
fn blocks_equal(data: &[u8], i: usize, j: usize) -> (r: bool)
    requires
        16 * i + 16 <= data@.len(),
        16 * j + 16 <= data@.len(),
    ensures
        r == (block16(data@, i as int) == block16(data@, j as int)),
{
    let n = data.len();
    assert(16 * i + 16 <= n && 16 * j + 16 <= n);
    let bi = 16 * i;
    let bj = 16 * j;
    let mut t: usize = 0;
    while t < 16
        invariant
            t <= 16,
            bi == 16 * i,
            bj == 16 * j,
            bi + 16 <= data@.len(),
            bj + 16 <= data@.len(),
            forall|u: int| 0 <= u < t ==> #[trigger] block16(data@, i as int)[u] == block16(data@, j as int)[u],
        decreases 16 - t,
    {
        proof {
            assert(block16(data@, i as int)[t as int] == data@[bi + t]);
            assert(block16(data@, j as int)[t as int] == data@[bj + t]);
        }
        if data[bi + t] != data[bj + t] {
            return false;
        }
        t = t + 1;
    }
    proof {
        assert(block16(data@, i as int) =~= block16(data@, j as int));
    }
    true
}

/// Whether some whole 16-byte block of `data` occurs more than `limit` times.
pub fn has_block_repeated_over(data: &[u8], limit: usize) -> (r: bool)
    ensures
        r == block_repeated_over(data@, limit as nat),
{
    let n = data.len() / 16;
    let mut i: usize = 0;
    while i < n
        invariant
            n == data@.len() / 16,
            i <= n,
            forall|k: int| 0 <= k < i ==> #[trigger] block_count(data@, block16(data@, k), n as int) <= limit,
        decreases n - i,
    {
        let mut count: usize = 0;
        let mut j: usize = 0;
        while j < n
            invariant
                n == data@.len() / 16,
                i < n,
                j <= n,
                count == block_count(data@, block16(data@, i as int), j as int),
                count <= j,
            decreases n - j,
        {
            if blocks_equal(data, i, j) {
                count = count + 1;
            }
            j = j + 1;
        }
        if count > limit {
            return true;
        }
        i = i + 1;
    }
    false
}

/// Suspicious repetition in encrypted data: data of at least 32 bytes in which some whole
/// 16-byte block occurs more than three times.
pub open spec fn repetition_suspicious(data: Seq<u8>) -> bool {
    data.len() >= 32 && block_repeated_over(data, 3)
}

/// Detects suspicious pattern repetition in encrypted data.
pub fn detect_pattern_repetition(data: &[u8]) -> (r: bool)
    ensures
        r == repetition_suspicious(data@),
{
    if data.len() < 32 {
        return false;
    }
    has_block_repeated_over(data, 3)
}

/// `pattern` occurs as a contiguous run of `data`.
pub open spec fn occurs_in(pattern: Seq<u8>, data: Seq<u8>) -> bool {
    exists|i: int| 0 <= i && i + pattern.len() <= data.len() && #[trigger] data.subrange(i, i + pattern.len()) == pattern
}

/// Whether `pattern` occurs at position `i` of `data`.
fn occurs_at(pattern: &[u8], data: &[u8], i: usize) -> (r: bool)
    requires
        i + pattern@.len() <= data@.len(),
    ensures
        r == (data@.subrange(i as int, i + pattern@.len()) == pattern@),
{
    let n = pattern.len();
    let len = data.len();
    let mut t: usize = 0;
    while t < n
        invariant
            n == pattern@.len(),
            len == data@.len(),
            t <= n,
            i + n <= data@.len(),
            forall|u: int| 0 <= u < t ==> #[trigger] data@.subrange(i as int, i + n)[u] == pattern@[u],
        decreases n - t,
    {
        proof {
            assert(data@.subrange(i as int, i + n)[t as int] == data@[i + t]);
        }
        if data[i + t] != pattern[t] {
            return false;
        }
        t = t + 1;
    }
    proof {
        assert(data@.subrange(i as int, i + n) =~= pattern@);
    }
    true
}

/// Whether `pattern` occurs in `data`.
pub fn contains_pattern(pattern: &[u8], data: &[u8]) -> (r: bool)
    ensures
        r == occurs_in(pattern@, data@),
{
    if pattern.len() > data.len() {
        return false;
    }
    if pattern.len() == 0 {
        proof {
            assert(data@.subrange(0int, 0int + pattern@.len()) =~= pattern@);
        }
        return true;
    }
    let n = data.len();
    let last = n - pattern.len();
    let mut i: usize = 0;
    while i <= last
        invariant
            n == data@.len(),
            last == data@.len() - pattern@.len(),
            0 < pattern@.len() <= data@.len(),
            i <= last + 1,
            forall|k: int| 0 <= k < i ==> #[trigger] data@.subrange(k, k + pattern@.len()) != pattern@,
        decreases last + 1 - i,
    {
        if occurs_at(pattern, data, i) {
            return true;
        }
        i = i + 1;
    }
    false
}

/// Some active rule with a non-empty pattern occurs in `data`.
pub open spec fn matches_some_rule(rules: Seq<QuarantineRule>, data: Seq<u8>) -> bool {
    exists|k: int|
        0 <= k < rules.len() && (#[trigger] rules[k]).active && rules[k].pattern@.len() > 0 && occurs_in(
            rules[k].pattern@,
            data,
        )
}

/// Whether `data` matches an active quarantine rule: a rule with a non-empty pattern that
/// occurs in the data.
pub fn check_against_quarantine_rules(rules: &[QuarantineRule], data: &[u8]) -> (r: bool)
    ensures
        r == matches_some_rule(rules@, data@),
{
    let mut k: usize = 0;
    while k < rules.len()
        invariant
            k <= rules@.len(),
            forall|j: int|
                0 <= j < k ==> !((#[trigger] rules@[j]).active && rules@[j].pattern@.len() > 0 && occurs_in(
                    rules@[j].pattern@,
                    data@,
                )),
        decreases rules@.len() - k,
    {
        let rule = &rules[k];
        if rule.active && rule.pattern.len() > 0 && contains_pattern(rule.pattern.as_slice(), data) {
            return true;
        }
        k = k + 1;
    }
    false
}

/// The rules a chunk security manager starts with: an entropy check that quarantines and a
/// size limit that enhances isolation, both active and both without a byte pattern.
pub open spec fn standard_rules(rules: Seq<QuarantineRule>) -> bool {
    &&& rules.len() == 2
    &&& rules[0].rule_id@ == "entropy_check"@
    &&& rules[0].description@ == "Detect low entropy patterns"@
    &&& rules[0].pattern@.len() == 0
    &&& rules[0].action == QuarantineAction::Quarantine
    &&& rules[0].priority == 100
    &&& rules[0].active
    &&& rules[1].rule_id@ == "size_limit"@
    &&& rules[1].description@ == "Block oversized chunks"@
    &&& rules[1].pattern@.len() == 0
    &&& rules[1].action == QuarantineAction::EnhanceIsolation
    &&& rules[1].priority == 50
    &&& rules[1].active
}

/// The rules every chunk security manager starts with.
pub fn default_quarantine_rules() -> (rules: Vec<QuarantineRule>)
    ensures
        standard_rules(rules@),
{
    let mut rules: Vec<QuarantineRule> = Vec::new();
    rules.push(
        QuarantineRule {
            rule_id: "entropy_check".to_owned(),
            description: "Detect low entropy patterns".to_owned(),
            pattern: Vec::new(),
            action: QuarantineAction::Quarantine,
            priority: 100,
            active: true,
        },
    );
    rules.push(
        QuarantineRule {
            rule_id: "size_limit".to_owned(),
            description: "Block oversized chunks".to_owned(),
            pattern: Vec::new(),
            action: QuarantineAction::EnhanceIsolation,
            priority: 50,
            active: true,
        },
    );
    rules
}

/// Encrypted chunk content as the encryption layer hands it over: the segment it belongs
/// to, the ciphertext, the nonce and additional authenticated data it was sealed with, and
/// the derivation path of its key.
#[derive(Debug)]
pub struct EncryptedData {
    pub segment_index: u32,
    pub ciphertext: Vec<u8>,
    pub nonce: [u8; 12],
    pub aad: Vec<u8>,
    pub key_path: Vec<u32>,
}

/// The little-endian bytes of a key path, four per component.
pub open spec fn key_path_bytes(path: Seq<u32>) -> Seq<u8> {
    Seq::new(path.len(), |i: int| le_bytes(path[i] as nat, 4)).flatten()
}

impl EncryptedData {
    /// What the key fingerprint covers: the nonce, the additional data and the key path.
    pub open spec fn key_context(self) -> Seq<u8> {
        self.nonce@ + self.aad@ + key_path_bytes(self.key_path@)
    }

    /// What the integrity hash covers: the ciphertext, the nonce and the additional data.
    pub open spec fn integrity_input(self) -> Seq<u8> {
        self.ciphertext@ + self.nonce@ + self.aad@
    }

    /// Both hashed inputs are within what SHA-256 accepts.
    pub open spec fn hashable(self) -> bool {
        &&& self.key_context().len() <= sha256_max_input()
        &&& self.integrity_input().len() <= sha256_max_input()
    }

    /// The two values hold the same content.
    pub open spec fn same_content(self, other: Self) -> bool {
        &&& self.segment_index == other.segment_index
        &&& self.ciphertext@ == other.ciphertext@
        &&& self.nonce@ == other.nonce@
        &&& self.aad@ == other.aad@
        &&& self.key_path@ == other.key_path@
    }

    /// A copy of the content.
    pub fn duplicate(&self) -> (r: Self)
        ensures
            r.same_content(*self),
    {
        let ciphertext = self.ciphertext.clone();
        let aad = self.aad.clone();
        let key_path = self.key_path.clone();
        proof {
            assert(ciphertext@ =~= self.ciphertext@);
            assert(aad@ =~= self.aad@);
            assert(key_path@ =~= self.key_path@);
        }
        EncryptedData { segment_index: self.segment_index, ciphertext, nonce: self.nonce, aad, key_path }
    }
}

/// The key fingerprint of encrypted content: the hex SHA-256 of its key context.
pub open spec fn key_fingerprint_of(d: EncryptedData) -> Seq<char> {
    hex_lower(ring_digest_of(RingAlgorithm::Sha256.code(), d.key_context()))
}

/// The integrity hash of encrypted content: the hex SHA-256 of ciphertext, nonce and
/// additional data.
pub open spec fn integrity_hash_of(d: EncryptedData) -> Seq<char> {
    hex_lower(ring_digest_of(RingAlgorithm::Sha256.code(), d.integrity_input()))
}

/// The name of an isolation level, as it appears in event descriptions.
pub open spec fn level_name(level: IsolationLevel) -> Seq<char> {
    match level {
        IsolationLevel::Standard => "Standard"@,
        IsolationLevel::Enhanced => "Enhanced"@,
        IsolationLevel::Quarantined => "Quarantined"@,
    }
}

/// The name of an isolation level.
pub fn level_text(level: IsolationLevel) -> (s: String)
    ensures
        s@ == level_name(level),
{
    match level {
        IsolationLevel::Standard => "Standard".to_owned(),
        IsolationLevel::Enhanced => "Enhanced".to_owned(),
        IsolationLevel::Quarantined => "Quarantined".to_owned(),
    }
}

/// The name of a kind of access, as it appears in event descriptions.
pub open spec fn access_name(access: ChunkAccessType) -> Seq<char> {
    match access {
        ChunkAccessType::Read => "Read"@,
        ChunkAccessType::Write => "Write"@,
        ChunkAccessType::Transmit => "Transmit"@,
    }
}

/// The name of a kind of access.
pub fn access_text(access: ChunkAccessType) -> (s: String)
    ensures
        s@ == access_name(access),
{
    match access {
        ChunkAccessType::Read => "Read".to_owned(),
        ChunkAccessType::Write => "Write".to_owned(),
        ChunkAccessType::Transmit => "Transmit".to_owned(),
    }
}

/// The items in double quotes, separated by a comma and a space.
pub open spec fn quoted_items(items: Seq<Seq<char>>) -> Seq<char>
    decreases items.len(),
{
    if items.len() == 0 {
        Seq::empty()
    } else if items.len() == 1 {
        seq!['"'] + items[0] + seq!['"']
    } else {
        quoted_items(items.drop_last()) + ", "@ + seq!['"'] + items.last() + seq!['"']
    }
}

/// A list of texts written as a bracketed list of quoted items.
pub open spec fn list_text(items: Seq<Seq<char>>) -> Seq<char> {
    seq!['['] + quoted_items(items) + seq![']']
}

/// The views of a list of strings.
pub open spec fn string_views(items: Seq<String>) -> Seq<Seq<char>> {
    items.map_values(|s: String| s@)
}

/// Writes a list of strings as a bracketed list of quoted items.
pub fn format_list(items: &Vec<String>) -> (s: String)
    ensures
        s@ == list_text(string_views(items@)),
{
    proof {
        reveal_strlit("[");
        reveal_strlit("]");
        reveal_strlit(", ");
        reveal_strlit("\"");
    }
    let mut s = "[".to_owned();
    let mut k: usize = 0;
    proof {
        assert(string_views(items@.subrange(0, 0)).len() == 0);
        assert(s@ =~= seq!['['] + quoted_items(string_views(items@.subrange(0, 0))));
    }
    while k < items.len()
        invariant
            k <= items@.len(),
            s@ == seq!['['] + quoted_items(string_views(items@.subrange(0, k as int))),
        decreases items@.len() - k,
    {
        let ghost prev = string_views(items@.subrange(0, k as int));
        let ghost next = string_views(items@.subrange(0, k + 1));
        proof {
            reveal_strlit(", ");
            reveal_strlit("\"");
            assert(next.drop_last() =~= prev);
            assert(next.last() == items@[k as int]@);
        }
        if k > 0 {
            s = s.concat(", ");
        }
        s = s.concat("\"");
        s = s.concat(items[k].as_str());
        s = s.concat("\"");
        proof {
            if k == 0 {
                assert(next.len() == 1);
                assert(s@ =~= seq!['['] + quoted_items(next));
            } else {
                assert(s@ =~= seq!['['] + quoted_items(next));
            }
        }
        k = k + 1;
    }
    s = s.concat("]");
    proof {
        assert(items@.subrange(0, items@.len() as int) =~= items@);
        assert(s@ =~= list_text(string_views(items@)));
    }
    s
}

/// A fresh random identifier.
///
/// Trusted: `uuid::Uuid::new_v4` draws a random version-4 UUID, returned here as its 128-bit
/// big-endian value. Every outcome carries the version nibble 4 and the RFC 4122 variant bits
/// `10`, which `new_v4` sets by masking; nothing else is stated of the value, and two draws
/// may in principle coincide.
#[verifier::external_body]
pub(crate) fn new_chunk_id() -> (id: u128)
    ensures
        id & 0xF000C000000000000000u128 == 0x40008000000000000000u128,
{
    uuid::Uuid::new_v4().as_u128()
}

/// The text of an optional string.
pub open spec fn opt_view(o: Option<String>) -> Option<Seq<char>> {
    match o {
        Some(s) => Some(s@),
        None => None,
    }
}

/// A copy of an optional string.
fn copy_opt_string(o: &Option<String>) -> (r: Option<String>)
    ensures
        opt_view(r) == opt_view(*o),
{
    match o {
        Some(s) => Some(s.clone()),
        None => None,
    }
}

/// A chunk under its own security boundary.
#[derive(Debug)]
pub struct IsolatedChunk {
    /// Unique chunk identifier
    pub chunk_id: u128,
    /// Encrypted chunk data
    pub encrypted_data: EncryptedData,
    /// Fingerprint of the encryption key context (not the key itself)
    pub key_fingerprint: String,
    /// Security isolation level
    pub isolation_level: IsolationLevel,
    /// When the chunk was isolated (seconds since the Unix epoch)
    pub isolated_at: u64,
    /// Security metadata (encrypted)
    pub security_metadata: Vec<u8>,
    /// Integrity verification hash
    pub integrity_hash: String,
    /// Access control flags
    pub access_flags: ChunkAccessFlags,
    /// Why the chunk was quarantined, if it was
    pub quarantine_reason: Option<String>,
}

impl IsolatedChunk {
    /// The two values describe the same chunk.
    pub open spec fn same_as(self, other: Self) -> bool {
        &&& self.chunk_id == other.chunk_id
        &&& self.encrypted_data.same_content(other.encrypted_data)
        &&& self.key_fingerprint@ == other.key_fingerprint@
        &&& self.isolation_level == other.isolation_level
        &&& self.isolated_at == other.isolated_at
        &&& self.security_metadata@ == other.security_metadata@
        &&& self.integrity_hash@ == other.integrity_hash@
        &&& self.access_flags == other.access_flags
        &&& opt_view(self.quarantine_reason) == opt_view(other.quarantine_reason)
    }

    /// A copy of the chunk.
    pub fn duplicate(&self) -> (r: Self)
        ensures
            r.same_as(*self),
    {
        let security_metadata = self.security_metadata.clone();
        proof {
            assert(security_metadata@ =~= self.security_metadata@);
        }
        IsolatedChunk {
            chunk_id: self.chunk_id,
            encrypted_data: self.encrypted_data.duplicate(),
            key_fingerprint: self.key_fingerprint.clone(),
            isolation_level: self.isolation_level,
            isolated_at: self.isolated_at,
            security_metadata,
            integrity_hash: self.integrity_hash.clone(),
            access_flags: self.access_flags,
            quarantine_reason: copy_opt_string(&self.quarantine_reason),
        }
    }
}

/// `after` is `before` raised to `level` for `reason`: only the level, the flags and, on
/// entering quarantine, the recorded reason change.
pub open spec fn chunk_upgraded(before: IsolatedChunk, after: IsolatedChunk, level: IsolationLevel, reason: Seq<char>) -> bool {
    &&& after.chunk_id == before.chunk_id
    &&& after.encrypted_data.same_content(before.encrypted_data)
    &&& after.key_fingerprint@ == before.key_fingerprint@
    &&& after.isolated_at == before.isolated_at
    &&& after.security_metadata@ == before.security_metadata@
    &&& after.integrity_hash@ == before.integrity_hash@
    &&& after.isolation_level == level
    &&& after.access_flags == upgraded_flags(before.access_flags, level)
    &&& opt_view(after.quarantine_reason) == if level == IsolationLevel::Quarantined {
        Some(reason)
    } else {
        opt_view(before.quarantine_reason)
    }
}

/// A security event for the audit log.
#[derive(Debug)]
pub struct SecurityEvent {
    /// Event timestamp (seconds since the Unix epoch)
    pub timestamp: u64,
    /// Event type
    pub event_type: SecurityEventType,
    /// Associated chunk
    pub chunk_id: u128,
    /// Event description
    pub description: String,
    /// Security level at the time of the event
    pub security_level: IsolationLevel,
    /// Additional key-value metadata
    pub metadata: Vec<(String, String)>,
}

impl SecurityEvent {
    /// The two values record the same event.
    pub open spec fn same_as(self, other: Self) -> bool {
        &&& self.timestamp == other.timestamp
        &&& self.event_type == other.event_type
        &&& self.chunk_id == other.chunk_id
        &&& self.description@ == other.description@
        &&& self.security_level == other.security_level
        &&& self.metadata@ == other.metadata@
    }

    /// A copy of the event.
    pub fn duplicate(&self) -> (r: Self)
        ensures
            r.same_as(*self),
    {
        let mut metadata: Vec<(String, String)> = Vec::new();
        let mut k: usize = 0;
        while k < self.metadata.len()
            invariant
                k <= self.metadata@.len(),
                metadata@ == self.metadata@.subrange(0, k as int),
            decreases self.metadata@.len() - k,
        {
            let key = self.metadata[k].0.clone();
            let value = self.metadata[k].1.clone();
            metadata.push((key, value));
            proof {
                assert(metadata@ =~= self.metadata@.subrange(0, k + 1));
            }
            k = k + 1;
        }
        proof {
            assert(self.metadata@.subrange(0, self.metadata@.len() as int) =~= self.metadata@);
        }
        SecurityEvent {
            timestamp: self.timestamp,
            event_type: self.event_type,
            chunk_id: self.chunk_id,
            description: self.description.clone(),
            security_level: self.security_level,
            metadata,
        }
    }
}

/// `e` records an event of type `ty` for chunk `id` at `timestamp`, with `description`,
/// at level `level`, and no metadata.
pub open spec fn event_is(
    e: SecurityEvent,
    timestamp: u64,
    ty: SecurityEventType,
    id: u128,
    description: Seq<char>,
    level: IsolationLevel,
) -> bool {
    &&& e.timestamp == timestamp
    &&& e.event_type == ty
    &&& e.chunk_id == id
    &&& e.description@ == description
    &&& e.security_level == level
    &&& e.metadata@.len() == 0
}

/// Number of events above which the oldest are dropped.
pub const SECURITY_LOG_LIMIT: usize = 10000;

/// Number of oldest events dropped when the log grows past its limit.
pub const SECURITY_LOG_TRIM: usize = 1000;

/// What remains of the log before a new event once that event is appended: all of it,
/// or, when the log would exceed its limit, all but the oldest thousand events.
pub open spec fn log_kept(log: Seq<SecurityEvent>) -> Seq<SecurityEvent> {
    if log.len() + 1 > SECURITY_LOG_LIMIT {
        log.subrange(SECURITY_LOG_TRIM as int, log.len() as int)
    } else {
        log
    }
}

/// `after` is `before` with one more event recorded at its end.
pub open spec fn logged_one(before: Seq<SecurityEvent>, after: Seq<SecurityEvent>) -> bool {
    after.len() > 0 && after.drop_last() == log_kept(before)
}

/// The events of the log that concern chunk `id`, in order.
pub open spec fn events_of(log: Seq<SecurityEvent>, id: u128) -> Seq<SecurityEvent>
    decreases log.len(),
{
    if log.len() == 0 {
        Seq::empty()
    } else if log.last().chunk_id == id {
        events_of(log.drop_last(), id).push(log.last())
    } else {
        events_of(log.drop_last(), id)
    }
}

/// The events selected from the log: those of one chunk, or all of them.
pub open spec fn selected_events(log: Seq<SecurityEvent>, chunk_id: Option<u128>) -> Seq<SecurityEvent> {
    match chunk_id {
        Some(id) => events_of(log, id),
        None => log,
    }
}

/// Some chunk in `chunks` has identifier `id`.
pub open spec fn holds_chunk(chunks: Seq<IsolatedChunk>, id: u128) -> bool {
    exists|i: int| 0 <= i < chunks.len() && (#[trigger] chunks[i]).chunk_id == id
}

/// The position of the chunk with identifier `id`.
pub open spec fn index_with(chunks: Seq<IsolatedChunk>, id: u128) -> int {
    choose|i: int| 0 <= i < chunks.len() && (#[trigger] chunks[i]).chunk_id == id
}

/// The chunk with identifier `id`.
pub open spec fn chunk_with(chunks: Seq<IsolatedChunk>, id: u128) -> IsolatedChunk {
    chunks[index_with(chunks, id)]
}

/// No two chunks share an identifier.
pub open spec fn ids_distinct(chunks: Seq<IsolatedChunk>) -> bool {
    forall|i: int, j: int|
        0 <= i < chunks.len() && 0 <= j < chunks.len() && i != j ==> (#[trigger] chunks[i]).chunk_id
            != (#[trigger] chunks[j]).chunk_id
}

/// With distinct identifiers, the chunk found at a position is the chunk with its identifier.
proof fn lemma_index_with(chunks: Seq<IsolatedChunk>, i: int)
    requires
        ids_distinct(chunks),
        0 <= i < chunks.len(),
    ensures
        holds_chunk(chunks, chunks[i].chunk_id),
        index_with(chunks, chunks[i].chunk_id) == i,
{
    assert(holds_chunk(chunks, chunks[i].chunk_id));
}

/// Why the chunk security manager refused a request.
#[derive(Debug, Clone, Copy, PartialEq, Eq)]
pub enum SecurityError {
    /// No chunk has the given identifier.
    ChunkNotFound,
    /// The system clock reads a time before the Unix epoch.
    ClockBeforeEpoch,
}

/// The outcome of a content-blind security analysis of an isolated chunk.
#[derive(Debug)]
pub struct SecurityAnalysis {
    pub chunk_id: u128,
    pub threat_level: ThreatLevel,
    pub suspicious_indicators: Vec<String>,
    pub recommendations: Vec<String>,
}

/// Per-chunk security manager: isolated chunks, each under an identifier of its own, an
/// audit log of security events, and the active quarantine rules.
pub struct ChunkSecurityManager {
    chunks: Vec<IsolatedChunk>,
    security_log: Vec<SecurityEvent>,
    quarantine_rules: Vec<QuarantineRule>,
}

impl ChunkSecurityManager {
    /// The isolated chunks.
    pub closed spec fn chunk_seq(&self) -> Seq<IsolatedChunk> {
        self.chunks@
    }

    /// The security events recorded, oldest first.
    pub closed spec fn log_seq(&self) -> Seq<SecurityEvent> {
        self.security_log@
    }

    /// The quarantine rules.
    pub closed spec fn rules_seq(&self) -> Seq<QuarantineRule> {
        self.quarantine_rules@
    }

    /// No two chunks share an identifier.
    pub open spec fn wf(&self) -> bool {
        ids_distinct(self.chunk_seq())
    }

    /// A manager with no chunks, an empty log and the standard quarantine rules.
    pub fn new() -> (m: Self)
        ensures
            m.wf(),
            m.chunk_seq().len() == 0,
            m.log_seq().len() == 0,
            standard_rules(m.rules_seq()),
    {
        ChunkSecurityManager {
            chunks: Vec::new(),
            security_log: Vec::new(),
            quarantine_rules: default_quarantine_rules(),
        }
    }

    /// The fingerprint of the key context of encrypted content.
    pub fn generate_key_fingerprint(&self, encrypted_data: &EncryptedData) -> (s: String)
        requires
            encrypted_data.hashable(),
        ensures
            s@ == key_fingerprint_of(*encrypted_data),
    {
        let mut context = concat_bytes(encrypted_data.nonce.as_slice(), encrypted_data.aad.as_slice());
        let path = &encrypted_data.key_path;
        let ghost head = encrypted_data.nonce@ + encrypted_data.aad@;
        let mut k: usize = 0;
        proof {
            assert(Seq::new(0, |i: int| le_bytes(path@[i] as nat, 4)) =~= Seq::<Seq<u8>>::empty());
            assert(key_path_bytes(path@.subrange(0, 0)) =~= Seq::<u8>::empty());
            assert(context@ =~= head + key_path_bytes(path@.subrange(0, 0)));
        }
        while k < path.len()
            invariant
                k <= path@.len(),
                head == encrypted_data.nonce@ + encrypted_data.aad@,
                context@ == head + key_path_bytes(path@.subrange(0, k as int)),
            decreases path@.len() - k,
        {
            let le = le_bytes_of(path[k] as u64, 4);
            let ghost prev = Seq::new(k as nat, |i: int| le_bytes(path@.subrange(0, k as int)[i] as nat, 4));
            let ghost next = Seq::new((k + 1) as nat, |i: int| le_bytes(path@.subrange(0, k + 1)[i] as nat, 4));
            proof {
                assert(next =~= prev.push(le@));
                prev.lemma_flatten_push(le@);
            }
            context = concat_bytes(context.as_slice(), le.as_slice());
            proof {
                assert(context@ =~= head + key_path_bytes(path@.subrange(0, k + 1)));
            }
            k = k + 1;
        }
        proof {
            assert(path@.subrange(0, path@.len() as int) =~= path@);
        }
        let hash = ring_digest(RingAlgorithm::Sha256, context.as_slice());
        hex_encode(hash.as_slice())
    }

    /// The integrity hash of encrypted content.
    pub fn calculate_integrity_hash(&self, encrypted_data: &EncryptedData) -> (s: String)
        requires
            encrypted_data.hashable(),
        ensures
            s@ == integrity_hash_of(*encrypted_data),
    {
        let head = concat_bytes(encrypted_data.ciphertext.as_slice(), encrypted_data.nonce.as_slice());
        let data = concat_bytes(head.as_slice(), encrypted_data.aad.as_slice());
        let hash = ring_digest(RingAlgorithm::Sha256, data.as_slice());
        hex_encode(hash.as_slice())
    }

    /// The position of the chunk with identifier `chunk_id`, if there is one.
    fn position(&self, chunk_id: u128) -> (r: Option<usize>)
        ensures
            match r {
                Some(i) => i < self.chunk_seq().len() && self.chunk_seq()[i as int].chunk_id == chunk_id,
                None => !holds_chunk(self.chunk_seq(), chunk_id),
            },
    {
        let mut i: usize = 0;
        while i < self.chunks.len()
            invariant
                i <= self.chunks@.len(),
                forall|j: int| 0 <= j < i ==> (#[trigger] self.chunks@[j]).chunk_id != chunk_id,
            decreases self.chunks@.len() - i,
        {
            if self.chunks[i].chunk_id == chunk_id {
                return Some(i);
            }
            i = i + 1;
        }
        None
    }

    /// The isolated chunk with identifier `chunk_id`, if there is one.
    pub fn get_chunk(&self, chunk_id: u128) -> (r: Option<&IsolatedChunk>)
        requires
            self.wf(),
        ensures
            match r {
                Some(c) => holds_chunk(self.chunk_seq(), chunk_id) && *c == chunk_with(self.chunk_seq(), chunk_id),
                None => !holds_chunk(self.chunk_seq(), chunk_id),
            },
    {
        match self.position(chunk_id) {
            Some(i) => {
                proof {
                    lemma_index_with(self.chunk_seq(), i as int);
                }
                Some(&self.chunks[i])
            },
            None => None,
        }
    }

    /// Appends an event to the audit log, dropping the oldest thousand events once it
    /// holds more than ten thousand.
    fn log_security_event(&mut self, event: SecurityEvent)
        ensures
            final(self).chunk_seq() == old(self).chunk_seq(),
            final(self).rules_seq() == old(self).rules_seq(),
            logged_one(old(self).log_seq(), final(self).log_seq()),
            final(self).log_seq().last() == event,
    {
        let ghost before = self.security_log@;
        self.security_log.push(event);
        if self.security_log.len() > SECURITY_LOG_LIMIT {
            let rest = self.security_log.split_off(SECURITY_LOG_TRIM);
            self.security_log = rest;
        }
        proof {
            assert(self.security_log@.drop_last() =~= log_kept(before));
        }
    }

    /// The recorded events of one chunk, or all of them.
    pub fn get_security_events(&self, chunk_id: Option<u128>) -> (r: Vec<SecurityEvent>)
        ensures
            r@.len() == selected_events(self.log_seq(), chunk_id).len(),
            forall|k: int|
                0 <= k < r@.len() ==> (#[trigger] r@[k]).same_as(selected_events(self.log_seq(), chunk_id)[k]),
    {
        let ghost log = self.security_log@;
        let mut out: Vec<SecurityEvent> = Vec::new();
        let mut k: usize = 0;
        proof {
            assert(log.subrange(0, 0) =~= Seq::<SecurityEvent>::empty());
        }
        while k < self.security_log.len()
            invariant
                log == self.security_log@,
                k <= log.len(),
                out@.len() == selected_events(log.subrange(0, k as int), chunk_id).len(),
                forall|t: int|
                    0 <= t < out@.len() ==> (#[trigger] out@[t]).same_as(
                        selected_events(log.subrange(0, k as int), chunk_id)[t],
                    ),
            decreases log.len() - k,
        {
            let ghost prev = log.subrange(0, k as int);
            let ghost next = log.subrange(0, k + 1);
            proof {
                assert(next.drop_last() =~= prev);
                assert(next.last() == log[k as int]);
            }
            let event = &self.security_log[k];
            let wanted = match chunk_id {
                Some(id) => event.chunk_id == id,
                None => true,
            };
            if wanted {
                out.push(event.duplicate());
            }
            proof {
                assert forall|t: int| 0 <= t < out@.len() implies (#[trigger] out@[t]).same_as(
                    selected_events(next, chunk_id)[t],
                ) by {
                    if t < out@.len() - 1 || !wanted {
                        assert(selected_events(next, chunk_id)[t] == selected_events(prev, chunk_id)[t]);
                    }
                }
            }
            k = k + 1;
        }
        proof {
            assert(log.subrange(0, log.len() as int) =~= log);
        }
        out
    }

    /// Isolates encrypted content under a fresh identifier at `isolation_level`, with access
    /// flags for that level, and records the isolation. A chunk that happened to hold the
    /// same identifier is replaced. Fails, changing nothing, when the system clock reads a
    /// time before the Unix epoch.
    pub fn create_isolated_chunk(&mut self, encrypted_data: EncryptedData, isolation_level: IsolationLevel) -> (r: Result<
        IsolatedChunk,
        SecurityError,
    >)
        requires
            old(self).wf(),
            encrypted_data.hashable(),
        ensures
            final(self).wf(),
            final(self).rules_seq() == old(self).rules_seq(),
            match r {
                Ok(c) => {
                    &&& c.encrypted_data == encrypted_data
                    &&& c.key_fingerprint@ == key_fingerprint_of(encrypted_data)
                    &&& c.integrity_hash@ == integrity_hash_of(encrypted_data)
                    &&& c.isolation_level == isolation_level
                    &&& c.access_flags == flags_for_level(isolation_level)
                    &&& c.security_metadata@.len() == 0
                    &&& c.quarantine_reason is None
                    &&& holds_chunk(final(self).chunk_seq(), c.chunk_id)
                    &&& chunk_with(final(self).chunk_seq(), c.chunk_id).same_as(c)
                    &&& final(self).chunk_seq() == if holds_chunk(old(self).chunk_seq(), c.chunk_id) {
                        old(self).chunk_seq().update(
                            index_with(old(self).chunk_seq(), c.chunk_id),
                            chunk_with(final(self).chunk_seq(), c.chunk_id),
                        )
                    } else {
                        old(self).chunk_seq().push(chunk_with(final(self).chunk_seq(), c.chunk_id))
                    }
                    &&& logged_one(old(self).log_seq(), final(self).log_seq())
                    &&& event_is(
                        final(self).log_seq().last(),
                        c.isolated_at,
                        SecurityEventType::ChunkIsolated,
                        c.chunk_id,
                        "Chunk isolated with level: "@ + level_name(isolation_level),
                        isolation_level,
                    )
                },
                Err(e) => {
                    &&& e == SecurityError::ClockBeforeEpoch
                    &&& final(self).chunk_seq() == old(self).chunk_seq()
                    &&& final(self).log_seq() == old(self).log_seq()
                },
            },
    {
        let chunk_id = new_chunk_id();
        let key_fingerprint = self.generate_key_fingerprint(&encrypted_data);
        let integrity_hash = self.calculate_integrity_hash(&encrypted_data);
        let access_flags = ChunkAccessFlags::for_level(isolation_level);
        let isolated_at = match unix_time_secs() {
            Some(t) => t,
            None => {
                return Err(SecurityError::ClockBeforeEpoch);
            },
        };
        let isolated_chunk = IsolatedChunk {
            chunk_id,
            encrypted_data,
            key_fingerprint,
            isolation_level,
            isolated_at,
            security_metadata: Vec::new(),
            integrity_hash,
            access_flags,
            quarantine_reason: None,
        };
        let stored = isolated_chunk.duplicate();
        let ghost before = self.chunks@;
        match self.position(chunk_id) {
            Some(i) => {
                self.chunks.set(i, stored);
                proof {
                    lemma_index_with(before, i as int);
                    lemma_index_with(self.chunks@, i as int);
                }
            },
            None => {
                self.chunks.push(stored);
                proof {
                    lemma_index_with(self.chunks@, before.len() as int);
                }
            },
        }
        let description = "Chunk isolated with level: ".to_owned().concat(level_text(isolation_level).as_str());
        self.log_security_event(
            SecurityEvent {
                timestamp: isolated_at,
                event_type: SecurityEventType::ChunkIsolated,
                chunk_id,
                description,
                security_level: isolation_level,
                metadata: Vec::new(),
            },
        );
        Ok(isolated_chunk)
    }

    /// Whether the chunk may be accessed in the given way; a refusal is recorded. Fails
    /// when no chunk has the identifier, or when a refusal is to be recorded and the system
    /// clock reads a time before the Unix epoch.
    pub fn access_chunk(&mut self, chunk_id: u128, access_type: ChunkAccessType) -> (r: Result<bool, SecurityError>)
        requires
            old(self).wf(),
        ensures
            final(self).wf(),
            final(self).chunk_seq() == old(self).chunk_seq(),
            final(self).rules_seq() == old(self).rules_seq(),
            !holds_chunk(old(self).chunk_seq(), chunk_id) ==> {
                &&& r == Err::<bool, SecurityError>(SecurityError::ChunkNotFound)
                &&& final(self).log_seq() == old(self).log_seq()
            },
            holds_chunk(old(self).chunk_seq(), chunk_id) ==> {
                let c = chunk_with(old(self).chunk_seq(), chunk_id);
                if flags_allow(c.access_flags, access_type) {
                    &&& r == Ok::<bool, SecurityError>(true)
                    &&& final(self).log_seq() == old(self).log_seq()
                } else {
                    match r {
                        Ok(b) => {
                            &&& !b
                            &&& logged_one(old(self).log_seq(), final(self).log_seq())
                            &&& event_is(
                                final(self).log_seq().last(),
                                final(self).log_seq().last().timestamp,
                                SecurityEventType::AccessDenied,
                                chunk_id,
                                "Access denied for type: "@ + access_name(access_type),
                                c.isolation_level,
                            )
                        },
                        Err(e) => e == SecurityError::ClockBeforeEpoch && final(self).log_seq() == old(self).log_seq(),
                    }
                }
            },
    {
        let i = match self.position(chunk_id) {
            Some(i) => i,
            None => {
                return Err(SecurityError::ChunkNotFound);
            },
        };
        proof {
            lemma_index_with(self.chunk_seq(), i as int);
        }
        let allowed = self.chunks[i].access_flags.allows(access_type);
        if !allowed {
            let level = self.chunks[i].isolation_level;
            let timestamp = match unix_time_secs() {
                Some(t) => t,
                None => {
                    return Err(SecurityError::ClockBeforeEpoch);
                },
            };
            let description = "Access denied for type: ".to_owned().concat(access_text(access_type).as_str());
            self.log_security_event(
                SecurityEvent {
                    timestamp,
                    event_type: SecurityEventType::AccessDenied,
                    chunk_id,
                    description,
                    security_level: level,
                    metadata: Vec::new(),
                },
            );
        }
        Ok(allowed)
    }

    /// Raises a chunk's isolation level; a request to lower it changes nothing. Entering
    /// the enhanced level turns on authentication and monitoring; entering quarantine also
    /// closes every access and records `reason`. An applied upgrade is recorded. Fails when
    /// no chunk has the identifier, or, after upgrading, when the event cannot be stamped
    /// because the system clock reads a time before the Unix epoch.
    pub fn upgrade_security(&mut self, chunk_id: u128, new_level: IsolationLevel, reason: String) -> (r: Result<
        (),
        SecurityError,
    >)
        requires
            old(self).wf(),
        ensures
            final(self).wf(),
            final(self).rules_seq() == old(self).rules_seq(),
            !holds_chunk(old(self).chunk_seq(), chunk_id) ==> {
                &&& r == Err::<(), SecurityError>(SecurityError::ChunkNotFound)
                &&& final(self).chunk_seq() == old(self).chunk_seq()
                &&& final(self).log_seq() == old(self).log_seq()
            },
            holds_chunk(old(self).chunk_seq(), chunk_id) ==> {
                let i = index_with(old(self).chunk_seq(), chunk_id);
                let c = old(self).chunk_seq()[i];
                if new_level.rank() < c.isolation_level.rank() {
                    &&& r is Ok
                    &&& final(self).chunk_seq() == old(self).chunk_seq()
                    &&& final(self).log_seq() == old(self).log_seq()
                } else {
                    &&& final(self).chunk_seq() == old(self).chunk_seq().update(i, final(self).chunk_seq()[i])
                    &&& chunk_upgraded(c, final(self).chunk_seq()[i], new_level, reason@)
                    &&& match r {
                        Ok(_) => {
                            &&& logged_one(old(self).log_seq(), final(self).log_seq())
                            &&& event_is(
                                final(self).log_seq().last(),
                                final(self).log_seq().last().timestamp,
                                SecurityEventType::SecurityUpgraded,
                                chunk_id,
                                "Security upgraded from "@ + level_name(c.isolation_level) + " to "@ + level_name(
                                    new_level,
                                ) + ": "@ + reason@,
                                new_level,
                            )
                        },
                        Err(e) => e == SecurityError::ClockBeforeEpoch && final(self).log_seq() == old(
                            self,
                        ).log_seq(),
                    }
                }
            },
    {
        let i = match self.position(chunk_id) {
            Some(i) => i,
            None => {
                return Err(SecurityError::ChunkNotFound);
            },
        };
        proof {
            lemma_index_with(self.chunk_seq(), i as int);
        }
        let old_level = self.chunks[i].isolation_level;
        if new_level.ordinal() < old_level.ordinal() {
            return Ok(());
        }
        let current = &self.chunks[i];
        let mut state = ChunkSecurityState {
            isolation_level: current.isolation_level,
            access_flags: current.access_flags,
            quarantine_reason: copy_opt_string(&current.quarantine_reason),
        };
        state.upgrade(new_level, reason.clone());
        let security_metadata = current.security_metadata.clone();
        proof {
            assert(security_metadata@ =~= current.security_metadata@);
        }
        let upgraded = IsolatedChunk {
            chunk_id: current.chunk_id,
            encrypted_data: current.encrypted_data.duplicate(),
            key_fingerprint: current.key_fingerprint.clone(),
            isolation_level: state.isolation_level,
            isolated_at: current.isolated_at,
            security_metadata,
            integrity_hash: current.integrity_hash.clone(),
            access_flags: state.access_flags,
            quarantine_reason: state.quarantine_reason,
        };
        let ghost before = self.chunks@;
        self.chunks.set(i, upgraded);
        proof {
            assert forall|a: int, b: int|
                0 <= a < self.chunks@.len() && 0 <= b < self.chunks@.len() && a != b implies (#[trigger] self.chunks@[a]).chunk_id
                != (#[trigger] self.chunks@[b]).chunk_id by {
                assert(before[a].chunk_id != before[b].chunk_id);
            }
        }
        let timestamp = match unix_time_secs() {
            Some(t) => t,
            None => {
                return Err(SecurityError::ClockBeforeEpoch);
            },
        };
        let mut description = "Security upgraded from ".to_owned().concat(level_text(old_level).as_str());
        description = description.concat(" to ");
        description = description.concat(level_text(new_level).as_str());
        description = description.concat(": ");
        description = description.concat(reason.as_str());
        self.log_security_event(
            SecurityEvent {
                timestamp,
                event_type: SecurityEventType::SecurityUpgraded,
                chunk_id,
                description,
                security_level: new_level,
                metadata: Vec::new(),
            },
        );
        Ok(())
    }
}

/// The level an analysis raises a chunk at `current` to for `threat`: the response level
/// when there is one and it is not below the current level, else the current level.
pub open spec fn level_after_analysis(current: IsolationLevel, threat: ThreatLevel) -> IsolationLevel {
    match threat {
        ThreatLevel::Low => current,
        ThreatLevel::Medium => if current.rank() <= 1 {
            IsolationLevel::Enhanced
        } else {
            current
        },
        _ => IsolationLevel::Quarantined,
    }
}

impl ChunkSecurityManager {
    /// Content-blind analysis of an isolated chunk: its size, the low-entropy verdict that
    /// the caller computed on its ciphertext, block repetition and the quarantine rules give
    /// a threat level, and the chunk is raised to the enhanced level for a medium threat or
    /// quarantined for a high or critical one. Fails when no chunk has the identifier, or
    /// when the upgrade cannot be recorded because the system clock reads a time before
    /// the Unix epoch.
    pub fn analyze_chunk_security(&mut self, chunk_id: u128, low_entropy: bool) -> (r: Result<
        SecurityAnalysis,
        SecurityError,
    >)
        requires
            old(self).wf(),
        ensures
            final(self).wf(),
            final(self).rules_seq() == old(self).rules_seq(),
            !holds_chunk(old(self).chunk_seq(), chunk_id) ==> {
                &&& r matches Err(e) && e == SecurityError::ChunkNotFound
                &&& final(self).chunk_seq() == old(self).chunk_seq()
                &&& final(self).log_seq() == old(self).log_seq()
            },
            holds_chunk(old(self).chunk_seq(), chunk_id) ==> {
                let i = index_with(old(self).chunk_seq(), chunk_id);
                let c = old(self).chunk_seq()[i];
                let data = c.encrypted_data.ciphertext@;
                let repeated = repetition_suspicious(data);
                let rule_match = matches_some_rule(old(self).rules_seq(), data);
                let threat = assessed_threat(data.len(), low_entropy, repeated, rule_match);
                &&& final(self).chunk_seq().len() == old(self).chunk_seq().len()
                &&& forall|j: int|
                    0 <= j < old(self).chunk_seq().len() && j != i ==> final(self).chunk_seq()[j]
                        == old(self).chunk_seq()[j]
                &&& final(self).chunk_seq()[i].isolation_level == level_after_analysis(c.isolation_level, threat)
                &&& match r {
                    Ok(a) => {
                        &&& a.chunk_id == chunk_id
                        &&& a.threat_level == threat
                        &&& string_views(a.suspicious_indicators@) == assessed_indicators(
                            data.len(),
                            low_entropy,
                            repeated,
                            rule_match,
                        )
                        &&& string_views(a.recommendations@) == assessed_recommendations(low_entropy, rule_match)
                    },
                    Err(e) => e == SecurityError::ClockBeforeEpoch,
                }
            },
    {
        let i = match self.position(chunk_id) {
            Some(i) => i,
            None => {
                return Err(SecurityError::ChunkNotFound);
            },
        };
        proof {
            lemma_index_with(self.chunk_seq(), i as int);
        }
        let data = self.chunks[i].encrypted_data.ciphertext.as_slice();
        let repeated = detect_pattern_repetition(data);
        let rule_match = check_against_quarantine_rules(self.quarantine_rules.as_slice(), data);
        let assessment = assess_chunk(data.len(), low_entropy, repeated, rule_match);
        let ghost before = self.chunks@;
        match response_level(assessment.threat_level) {
            Some(level) => {
                let reason = match level {
                    IsolationLevel::Enhanced => "Automated security analysis".to_owned(),
                    _ => "High threat detected: ".to_owned().concat(format_list(&assessment.suspicious_indicators).as_str()),
                };
                let outcome = self.upgrade_security(chunk_id, level, reason);
                proof {
                    lemma_index_with(before, i as int);
                }
                if let Err(e) = outcome {
                    return Err(e);
                }
            },
            None => {},
        }
        Ok(
            SecurityAnalysis {
                chunk_id,
                threat_level: assessment.threat_level,
                suspicious_indicators: assessment.suspicious_indicators,
                recommendations: assessment.recommendations,
            },
        )
    }
}

} // verus!
