//! Security policy: how a chunk's threat assessment decides its isolation, its
//! clearance, whether it is quarantined, and whether a request may access it.

pub mod chunk_isolation;
pub mod malicious_detection;

use vstd::prelude::*;
use crate::security::chunk_isolation::{IsolationLevel, ThreatLevel, ChunkAccessFlags, ChunkAccessType, flags_allow};

verus! {

/// Global security policies.
#[derive(Debug, Clone, Copy, PartialEq, Eq)]
pub struct GlobalSecurityPolicies {
    /// Minimum isolation level for new chunks
    pub minimum_isolation_level: IsolationLevel,
    /// Automatic quarantine on threat detection
    pub auto_quarantine_enabled: bool,
    /// Threat level from which a chunk is quarantined
    pub quarantine_threshold: ThreatLevel,
    /// Security audit logging enabled
    pub audit_logging_enabled: bool,
    /// Zero-knowledge enforcement
    pub zero_knowledge_enforced: bool,
}

/// The policies of the default configuration.
pub open spec fn default_policies() -> GlobalSecurityPolicies {
    GlobalSecurityPolicies {
        minimum_isolation_level: IsolationLevel::Standard,
        auto_quarantine_enabled: true,
        quarantine_threshold: ThreatLevel::Medium,
        audit_logging_enabled: true,
        zero_knowledge_enforced: true,
    }
}

/// Security configuration for the entire system.
#[derive(Debug, Clone, Copy, PartialEq, Eq)]
pub struct SecurityConfig {
    /// Global security policies
    pub global_policies: GlobalSecurityPolicies,
}

impl Default for SecurityConfig {
    /// Standard minimum isolation, quarantine from a medium threat on, everything enforced.
    fn default() -> (c: Self)
        ensures
            c.global_policies == default_policies(),
    {
        SecurityConfig {
            global_policies: GlobalSecurityPolicies {
                minimum_isolation_level: IsolationLevel::Standard,
                auto_quarantine_enabled: true,
                quarantine_threshold: ThreatLevel::Medium,
                audit_logging_enabled: true,
                zero_knowledge_enforced: true,
            },
        }
    }
}

/// Quarantine decision.
#[derive(Debug, Clone, Copy, PartialEq, Eq)]
pub enum QuarantineDecision {
    Allowed,
    Quarantined,
    PendingReview,
}

/// Security clearance levels, from least to most restricted.
#[derive(Debug, Clone, Copy, PartialEq, Eq, PartialOrd, Ord)]
pub enum SecurityClearance {
    Public,
    Internal,
    Restricted,
    Confidential,
    Secret,
    TopSecret,
}

impl SecurityClearance {
    /// Position of the clearance in the order Public < ... < TopSecret.
    pub open spec fn rank(self) -> nat {
        match self {
            SecurityClearance::Public => 0,
            SecurityClearance::Internal => 1,
            SecurityClearance::Restricted => 2,
            SecurityClearance::Confidential => 3,
            SecurityClearance::Secret => 4,
            SecurityClearance::TopSecret => 5,
        }
    }
}

/// Access decision result.
#[derive(Debug, Clone)]
pub enum AccessDecision {
    Granted { conditions: Vec<AccessCondition> },
    Denied { reason: String },
}

/// Conditions for chunk access.
#[derive(Debug, Clone, Copy, PartialEq, Eq)]
pub enum AccessCondition {
    AuditLogging,
    RateLimit,
    TimeRestriction,
    LocationRestriction,
    AdditionalAuthentication,
}

/// Context for access requests.
#[derive(Debug, Clone)]
pub struct AccessContext {
    pub requester_id: String,
    pub security_clearance: SecurityClearance,
    pub request_timestamp: u64,
    pub request_origin: String,
    pub additional_context: Vec<(String, String)>,
}

/// The isolation level a new chunk gets: the policy minimum for a low threat, enhanced
/// for a medium one, quarantine for a high or critical one.
pub open spec fn isolation_for(policies: GlobalSecurityPolicies, threat: ThreatLevel) -> IsolationLevel {
    match threat {
        ThreatLevel::Low => policies.minimum_isolation_level,
        ThreatLevel::Medium => IsolationLevel::Enhanced,
        _ => IsolationLevel::Quarantined,
    }
}

/// Determines the isolation level of a new chunk from its threat assessment.
pub fn determine_isolation_level(policies: &GlobalSecurityPolicies, threat: ThreatLevel) -> (l: IsolationLevel)
    ensures
        l == isolation_for(*policies, threat),
{
    match threat {
        ThreatLevel::Low => {
            if policies.minimum_isolation_level.ordinal() > IsolationLevel::Standard.ordinal() {
                policies.minimum_isolation_level
            } else {
                IsolationLevel::Standard
            }
        },
        ThreatLevel::Medium => IsolationLevel::Enhanced,
        ThreatLevel::High | ThreatLevel::Critical => IsolationLevel::Quarantined,
    }
}

/// The clearance a chunk carries, from its threat level and isolation level.
pub open spec fn clearance_for(threat: ThreatLevel, level: IsolationLevel) -> SecurityClearance {
    match (threat, level) {
        (ThreatLevel::Low, IsolationLevel::Standard) => SecurityClearance::Internal,
        (ThreatLevel::Medium, _) | (ThreatLevel::Low, IsolationLevel::Enhanced) => SecurityClearance::Restricted,
        (ThreatLevel::High, _) => SecurityClearance::Confidential,
        (ThreatLevel::Critical, _) => SecurityClearance::TopSecret,
        _ => SecurityClearance::Internal,
    }
}

/// Calculates the security clearance of a chunk.
pub fn calculate_security_clearance(threat: ThreatLevel, level: IsolationLevel) -> (c: SecurityClearance)
    ensures
        c == clearance_for(threat, level),
{
    match (threat, level) {
        (ThreatLevel::Low, IsolationLevel::Standard) => SecurityClearance::Internal,
        (ThreatLevel::Medium, _) | (ThreatLevel::Low, IsolationLevel::Enhanced) => SecurityClearance::Restricted,
        (ThreatLevel::High, _) => SecurityClearance::Confidential,
        (ThreatLevel::Critical, _) => SecurityClearance::TopSecret,
        _ => SecurityClearance::Internal,
    }
}

/// A more severe threat never earns a lower clearance, at any isolation level.
pub proof fn lemma_clearance_monotone(a: ThreatLevel, b: ThreatLevel, level: IsolationLevel)
    requires
        a.rank() <= b.rank(),
    ensures
        clearance_for(a, level).rank() <= clearance_for(b, level).rank(),
{
}

/// The clearance a chunk carries: a medium threat is restricted at every isolation level,
/// as is a low threat under enhanced isolation; a low threat under standard or quarantine
/// isolation is internal; a high threat is confidential and a critical one top secret.
/// Clearance therefore rises strictly from a low threat under standard isolation through a
/// medium, a high and a critical threat, and does not depend on the isolation level once
/// the threat is medium or above.
pub proof fn lemma_clearance_levels(level: IsolationLevel, other: IsolationLevel)
    ensures
        clearance_for(ThreatLevel::Medium, level) == SecurityClearance::Restricted,
        clearance_for(ThreatLevel::Low, IsolationLevel::Enhanced) == SecurityClearance::Restricted,
        clearance_for(ThreatLevel::Low, IsolationLevel::Standard) == SecurityClearance::Internal,
        clearance_for(ThreatLevel::Low, IsolationLevel::Quarantined) == SecurityClearance::Internal,
        clearance_for(ThreatLevel::High, level) == SecurityClearance::Confidential,
        clearance_for(ThreatLevel::Critical, level) == SecurityClearance::TopSecret,
        clearance_for(ThreatLevel::Medium, level) == clearance_for(ThreatLevel::Low, IsolationLevel::Enhanced),
        clearance_for(ThreatLevel::Low, IsolationLevel::Standard).rank() < clearance_for(ThreatLevel::Medium, level).rank(),
        clearance_for(ThreatLevel::Medium, level).rank() < clearance_for(ThreatLevel::High, level).rank(),
        clearance_for(ThreatLevel::High, level).rank() < clearance_for(ThreatLevel::Critical, level).rank(),
        clearance_for(ThreatLevel::Medium, level) == clearance_for(ThreatLevel::Medium, other),
        clearance_for(ThreatLevel::High, level) == clearance_for(ThreatLevel::High, other),
        clearance_for(ThreatLevel::Critical, level) == clearance_for(ThreatLevel::Critical, other),
{
}

/// The isolation a new chunk gets honours the policy minimum: a low threat gets exactly
/// the minimum (never less than standard), a medium threat at least enhanced isolation,
/// and a high or critical threat the strictest level there is. So the level is never below
/// the policy minimum, except for a medium threat when the minimum is quarantine, where
/// enhanced isolation is chosen.
pub proof fn lemma_isolation_respects_minimum(
    policies: GlobalSecurityPolicies,
    threat: ThreatLevel,
    any_level: IsolationLevel,
)
    ensures
        !(threat == ThreatLevel::Medium && policies.minimum_isolation_level.rank()
            > IsolationLevel::Enhanced.rank()) ==> isolation_for(policies, threat).rank()
            >= policies.minimum_isolation_level.rank(),
        threat == ThreatLevel::Low ==> isolation_for(policies, threat) == policies.minimum_isolation_level,
        isolation_for(policies, threat).rank() >= IsolationLevel::Standard.rank(),
        threat == ThreatLevel::Medium ==> isolation_for(policies, threat) == IsolationLevel::Enhanced,
        threat.rank() >= ThreatLevel::High.rank() ==> isolation_for(policies, threat).rank() >= any_level.rank(),
        threat.rank() >= ThreatLevel::High.rank() ==> isolation_for(policies, threat) == IsolationLevel::Quarantined,
{
}

/// Whether a new chunk assessed at `threat` is quarantined: from the policy threshold on.
pub fn quarantine_decision(policies: &GlobalSecurityPolicies, threat: ThreatLevel) -> (d: QuarantineDecision)
    ensures
        d == if threat.rank() >= policies.quarantine_threshold.rank() {
            QuarantineDecision::Quarantined
        } else {
            QuarantineDecision::Allowed
        },
{
    if threat.at_least(policies.quarantine_threshold) {
        QuarantineDecision::Quarantined
    } else {
        QuarantineDecision::Allowed
    }
}

/// A chunk quarantined at some threat level is quarantined at every more severe one.
pub proof fn lemma_quarantine_monotone(policies: GlobalSecurityPolicies, a: ThreatLevel, b: ThreatLevel)
    requires
        a.rank() <= b.rank(),
        a.rank() >= policies.quarantine_threshold.rank(),
    ensures
        b.rank() >= policies.quarantine_threshold.rank(),
{
}

/// The kind of access a set of requested flags asks for: writing if it asks to write,
/// else transmitting if it asks to transmit, else reading.
pub open spec fn requested_access(requested: ChunkAccessFlags) -> ChunkAccessType {
    if requested.writable {
        ChunkAccessType::Write
    } else if requested.transmittable {
        ChunkAccessType::Transmit
    } else {
        ChunkAccessType::Read
    }
}

/// A request is judged by the strongest access it asks for: a request to write is allowed
/// exactly when the chunk is writable, whatever else it asks; otherwise a request to
/// transmit exactly when the chunk is transmittable; and any other request exactly when
/// the chunk is readable.
pub proof fn lemma_access_judged_by_strongest_request(chunk: ChunkAccessFlags, request: ChunkAccessFlags)
    ensures
        request.writable ==> (flags_allow(chunk, requested_access(request)) <==> chunk.writable),
        !request.writable && request.transmittable ==> (flags_allow(chunk, requested_access(request))
            <==> chunk.transmittable),
        !request.writable && !request.transmittable ==> (flags_allow(chunk, requested_access(request))
            <==> chunk.readable),
{
}

/// The conditions under which access is granted: audit logging and rate limiting.
pub fn get_access_conditions() -> (c: Vec<AccessCondition>)
    ensures
        c@ == seq![AccessCondition::AuditLogging, AccessCondition::RateLimit],
{
    let mut c: Vec<AccessCondition> = Vec::new();
    c.push(AccessCondition::AuditLogging);
    c.push(AccessCondition::RateLimit);
    c
}

/// Decides a request to access a chunk with the given flags: a quarantined chunk is
/// refused; otherwise the access is granted, under audit logging and rate limiting,
/// exactly when the chunk's flags allow the kind of access requested.
pub fn decide_chunk_access(quarantined: bool, chunk_flags: &ChunkAccessFlags, requested: &ChunkAccessFlags) -> (d: AccessDecision)
    ensures
        quarantined ==> (d matches AccessDecision::Denied { reason } && reason@ == "Chunk is quarantined"@),
        !quarantined && flags_allow(*chunk_flags, requested_access(*requested)) ==> (d matches AccessDecision::Granted {
            conditions,
        } && conditions@ == seq![AccessCondition::AuditLogging, AccessCondition::RateLimit]),
        !quarantined && !flags_allow(*chunk_flags, requested_access(*requested)) ==> (d matches AccessDecision::Denied {
            reason,
        } && reason@ == "Insufficient security clearance"@),
{
    if quarantined {
        return AccessDecision::Denied { reason: "Chunk is quarantined".to_owned() };
    }
    let access_type = if requested.writable {
        ChunkAccessType::Write
    } else if requested.transmittable {
        ChunkAccessType::Transmit
    } else {
        ChunkAccessType::Read
    };
    if chunk_flags.allows(access_type) {
        AccessDecision::Granted { conditions: get_access_conditions() }
    } else {
        AccessDecision::Denied { reason: "Insufficient security clearance".to_owned() }
    }
}

} // verus!
