//! Query compilation and secure-update preparation for an encrypted
//! key-value store backed by relational SQL engines.
//!
//! The crate turns a parsed tag-query tree plus an optional encryption
//! capability into a parameterized SQL boolean fragment, rewrites
//! backend-neutral placeholder markers into backend-specific syntax,
//! injects pagination, accumulates bound arguments in call order, derives
//! deterministic per-record lock tokens, and encrypts batches of update
//! requests while preserving input order.

use vstd::prelude::*;

pub mod backend;
pub mod encrypt;
pub mod filter;
pub mod params;
pub mod query;
pub mod rewrite;
pub mod types;
pub mod update;

verus! {

/// The error of this crate: says which stage of an operation failed.
#[derive(Clone, Copy, PartialEq, Eq, Structural, Debug)]
pub enum KvError {
    /// An encryption callback failed; the operation was aborted with no
    /// partial output.
    Encryption,
    /// Computing an absolute expiry from a relative offset overflowed the
    /// representable range of timestamps.
    Timestamp,
}

} // verus!
