//! The integer side of adaptive replication: the kinds of content, schemes and nodes,
//! which connections satisfy a requirement, how replica targets are clamped to a policy,
//! and the binomial coefficients the durability estimate is built on.

use vstd::prelude::*;

verus! {

/// Kinds of content, by importance.
#[derive(Debug, Clone, Copy, PartialEq, Eq, Hash)]
pub enum ContentType {
    /// System-critical data
    Critical,
    /// User-important files
    Important,
    /// Regular user files
    Standard,
    /// Long-term storage
    Archive,
    /// Short-term cache
    Temporary,
    /// Backup copies
    Backup,
}

/// How a chunk is made redundant.
#[derive(Debug, Clone, Copy, PartialEq, Eq)]
pub enum RedundancyScheme {
    /// Basic copying
    SimpleReplication,
    /// (n,k) Reed-Solomon
    ReedSolomon { data: u32, parity: u32 },
    /// Combination
    HybridErasure { replicas: u32, erasure: (u32, u32) },
}

/// Priority of a replication.
#[derive(Debug, Clone, Copy, PartialEq, Eq)]
pub enum ReplicationPriority {
    Immediate,
    High,
    Normal,
    Low,
    Background,
}

/// Quality of a node's connection, from best to worst.
#[derive(Debug, Clone, Copy, PartialEq, Eq)]
pub enum ConnectionQuality {
    Fiber,
    Broadband,
    Mobile,
    Satellite,
}

impl ConnectionQuality {
    /// Position of the quality in the order Fiber < Broadband < Mobile < Satellite.
    pub open spec fn rank(self) -> nat {
        match self {
            ConnectionQuality::Fiber => 0,
            ConnectionQuality::Broadband => 1,
            ConnectionQuality::Mobile => 2,
            ConnectionQuality::Satellite => 3,
        }
    }
}

/// Whether a node's connection satisfies a required one: a connection satisfies every
/// requirement of its own quality or worse.
pub fn connection_quality_matches(actual: ConnectionQuality, required: ConnectionQuality) -> (r: bool)
    ensures
        r == (actual.rank() <= required.rank()),
{
    match (actual, required) {
        (ConnectionQuality::Fiber, _) => true,
        (ConnectionQuality::Broadband, ConnectionQuality::Fiber) => false,
        (ConnectionQuality::Broadband, _) => true,
        (ConnectionQuality::Mobile, ConnectionQuality::Fiber) | (
            ConnectionQuality::Mobile,
            ConnectionQuality::Broadband,
        ) => false,
        (ConnectionQuality::Mobile, _) => true,
        (ConnectionQuality::Satellite, ConnectionQuality::Satellite) => true,
        (ConnectionQuality::Satellite, _) => false,
    }
}

/// Satisfying a connection requirement is reflexive and transitive: a node that satisfies
/// a stricter requirement satisfies every looser one.
pub proof fn lemma_connection_requirements_chain(a: ConnectionQuality, b: ConnectionQuality, c: ConnectionQuality)
    ensures
        a.rank() <= a.rank(),
        a.rank() <= b.rank() && b.rank() <= c.rank() ==> a.rank() <= c.rank(),
{
}

/// State of a replica.
#[derive(Debug, Clone, Copy, PartialEq, Eq)]
pub enum ReplicaStatus {
    Healthy,
    Degraded,
    Unreachable,
    Corrupted,
    Missing,
}

/// Kinds of repair events.
#[derive(Debug, Clone, Copy, PartialEq, Eq)]
pub enum RepairEventType {
    ReplicaCreated,
    ReplicaRepaired,
    ReplicaMigrated,
    ReplicaRemoved,
    IntegrityCheckFailed,
}

/// Ways of repairing a chunk.
#[derive(Debug, Clone, Copy, PartialEq, Eq)]
pub enum RepairStrategy {
    ReplicateFromHealthy,
    ReconstructFromParity,
    MigrateReplica,
    IncreaseRedundancy,
    RebuildFromErasure,
}

/// How often content is accessed.
#[derive(Debug, Clone, Copy, PartialEq, Eq)]
pub enum AccessFrequency {
    /// Multiple times per hour
    VeryHigh,
    /// Multiple times per day
    High,
    /// Daily access
    Medium,
    /// Weekly access
    Low,
    /// Monthly access
    VeryLow,
    /// Rarely accessed
    Archive,
}

/// Performance tier of a node.
#[derive(Debug, Clone, Copy, PartialEq, Eq)]
pub enum PerformanceTier {
    /// Top 10% performers
    Premium,
    /// Top 25% performers
    High,
    /// Average performers
    Standard,
    /// Below average
    Basic,
    /// Poor performance or reliability
    Unreliable,
}

/// Kinds of replication recommendations.
#[derive(Debug, Clone, Copy, PartialEq, Eq)]
pub enum RecommendationType {
    IncreaseReplicas,
    DecreaseReplicas,
    RepairReplicas,
    MigrateReplicas,
    ImproveGeographicDistribution,
    OptimizeCost,
    UpgradeRedundancyScheme,
}

/// A replica target kept within a policy's bounds: raised to the minimum, then lowered to
/// the maximum (which wins when the bounds cross).
pub fn clamp_replicas(target: u32, min_replicas: u32, max_replicas: u32) -> (r: u32)
    ensures
        r == (if (if target >= min_replicas { target } else { min_replicas }) <= max_replicas {
            if target >= min_replicas { target } else { min_replicas }
        } else {
            max_replicas
        }),
        min_replicas <= max_replicas ==> min_replicas <= r <= max_replicas,
        min_replicas <= target <= max_replicas ==> r == target,
{
    let raised = if target >= min_replicas {
        target
    } else {
        min_replicas
    };
    if raised <= max_replicas {
        raised
    } else {
        max_replicas
    }
}

/// `n!`.
pub open spec fn factorial_spec(n: nat) -> nat
    decreases n,
{
    if n == 0 {
        1
    } else {
        n * factorial_spec((n - 1) as nat)
    }
}

/// Factorials are positive.
proof fn lemma_factorial_positive(n: nat)
    ensures
        factorial_spec(n) >= 1,
    decreases n,
{
    if n > 0 {
        lemma_factorial_positive((n - 1) as nat);
        assert(n * factorial_spec((n - 1) as nat) >= 1) by (nonlinear_arith)
            requires
                n >= 1,
                factorial_spec((n - 1) as nat) >= 1,
        ;
    }
}

/// Factorials grow with their argument.
proof fn lemma_factorial_monotone(a: nat, b: nat)
    requires
        a <= b,
    ensures
        factorial_spec(a) <= factorial_spec(b),
    decreases b,
{
    if a < b {
        lemma_factorial_monotone(a, (b - 1) as nat);
        lemma_factorial_positive((b - 1) as nat);
        assert(factorial_spec((b - 1) as nat) <= b * factorial_spec((b - 1) as nat)) by (nonlinear_arith)
            requires
                b >= 1,
                factorial_spec((b - 1) as nat) >= 1,
        ;
    }
}

/// `20!` is the largest factorial a `u64` holds.
pub proof fn lemma_factorial_fits(n: nat)
    requires
        n <= 20,
    ensures
        1 <= factorial_spec(n) <= 2432902008176640000,
{
    assert(factorial_spec(0) == 1);
    assert(factorial_spec(1) == 1);
    assert(factorial_spec(2) == 2);
    assert(factorial_spec(3) == 6);
    assert(factorial_spec(4) == 24);
    assert(factorial_spec(5) == 120);
    assert(factorial_spec(6) == 720);
    assert(factorial_spec(7) == 5040);
    assert(factorial_spec(8) == 40320);
    assert(factorial_spec(9) == 362880);
    assert(factorial_spec(10) == 3628800);
    assert(factorial_spec(11) == 39916800);
    assert(factorial_spec(12) == 479001600);
    assert(factorial_spec(13) == 6227020800);
    assert(factorial_spec(14) == 87178291200);
    assert(factorial_spec(15) == 1307674368000);
    assert(factorial_spec(16) == 20922789888000);
    assert(factorial_spec(17) == 355687428096000);
    assert(factorial_spec(18) == 6402373705728000);
    assert(factorial_spec(19) == 121645100408832000);
    assert(factorial_spec(20) == 2432902008176640000);
    lemma_factorial_positive(n);
    lemma_factorial_monotone(n, 20);
}

/// `n!` for `n` up to 20 (the largest a `u64` holds).
pub fn factorial(n: u32) -> (f: u64)
    requires
        n <= 20,
    ensures
        f == factorial_spec(n as nat),
{
    let mut f: u64 = 1;
    let mut k: u32 = 0;
    while k < n
        invariant
            k <= n <= 20,
            f == factorial_spec(k as nat),
        decreases n - k,
    {
        proof {
            lemma_factorial_fits((k + 1) as nat);
            assert(factorial_spec((k + 1) as nat) == (k + 1) * factorial_spec(k as nat));
            assert(f * (k + 1) == factorial_spec((k + 1) as nat)) by (nonlinear_arith)
                requires
                    f == factorial_spec(k as nat),
                    factorial_spec((k + 1) as nat) == (k + 1) * factorial_spec(k as nat),
            ;
        }
        f = f * (k as u64 + 1);
        k = k + 1;
    }
    f
}

/// The number of ways to choose `k` of `n`, as `n! / (k! (n-k)!)`.
pub open spec fn binomial_spec(n: nat, k: nat) -> nat {
    if k > n {
        0
    } else {
        factorial_spec(n) / (factorial_spec(k) * factorial_spec((n - k) as nat))
    }
}

/// The binomial coefficient `n` choose `k`, computed from factorials as the durability
/// estimate does; zero when `k > n`.
pub fn binomial_coefficient(n: u32, k: u32) -> (c: u64)
    requires
        n <= 20,
    ensures
        c == binomial_spec(n as nat, k as nat),
{
    if k > n {
        return 0;
    }
    let fk = factorial(k);
    let fnk = factorial(n - k);
    proof {
        lemma_factorial_positive(k as nat);
        lemma_factorial_positive((n - k) as nat);
        lemma_factorial_split(n as nat, k as nat);
        lemma_factorial_fits(n as nat);
        assert(fk * fnk >= 1) by (nonlinear_arith)
            requires
                fk >= 1,
                fnk >= 1,
        ;
    }
    let denominator = fk * fnk;
    factorial(n) / denominator
}

/// `k! (n-k)!` divides into `n!` and so fits wherever `n!` does.
proof fn lemma_factorial_split(n: nat, k: nat)
    requires
        k <= n <= 20,
    ensures
        factorial_spec(k) * factorial_spec((n - k) as nat) <= factorial_spec(n),
    decreases n,
{
    reveal_with_fuel(factorial_spec, 2);
    lemma_factorial_positive(k);
    lemma_factorial_positive((n - k) as nat);
    if k == n {
        assert(factorial_spec(0) == 1);
        assert(factorial_spec(k) * factorial_spec(0) == factorial_spec(k));
    } else {
        lemma_factorial_split((n - 1) as nat, k);
        lemma_factorial_positive((n - 1 - k) as nat);
        let a = factorial_spec(k);
        let b = factorial_spec((n - 1 - k) as nat);
        let c = factorial_spec((n - 1) as nat);
        assert(factorial_spec((n - k) as nat) == (n - k) * b);
        assert(factorial_spec(n) == n * c);
        assert(a * ((n - k) * b) <= n * c) by (nonlinear_arith)
            requires
                a * b <= c,
                n - k <= n,
                a >= 1,
                b >= 1,
        ;
    }
}

} // verus!
