//! Redundancy: Galois-field arithmetic, Reed-Solomon erasure coding, and the node
//! tracking that decides when data must be replicated again.

pub mod galois;
pub mod gf_matrix;
pub mod reed_solomon;
pub mod auto_replication;
pub mod intelligent_replication;
pub mod health_monitor;
pub mod network_health_monitor;
pub mod reputation_system;
