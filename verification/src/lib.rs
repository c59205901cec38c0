//! Storage, redundancy and integrity logic of a distributed file store.

pub mod redundancy;
pub mod text;
pub mod digest;
pub mod clock;
pub mod bytes;
pub mod storage;
pub mod security;
pub mod verification;
