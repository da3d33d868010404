//! Error taxonomy of the fact cache.
//!
//! Refresh-path errors (`AppError`) cover the fetch and validation pipeline;
//! health-path problems (`HealthProblem`) cover the read-only audit.

use vstd::prelude::*;

verus! {

/// Errors raised while fetching, validating, or serving facts.
#[derive(Clone, Copy, Debug, PartialEq, Eq, Structural)]
pub enum AppError {
    /// The transport layer failed to reach the provider.
    TransportError,
    /// The provider answered with a non-success HTTP status.
    UnexpectedStatus(u16),
    /// The provider's payload is not a document of the expected shape.
    ParseError,
    /// The provider's own success indicator was false.
    ProviderReportedFailure,
    /// The provider returned `got` facts where `want` were requested.
    CountMismatch { got: usize, want: usize },
    /// A parsed fact is the empty string.
    EmptyFactFound,
    /// The addressed shard's lock was invalidated by a crashed critical section.
    PoisonedShard,
    /// The cache (or the chosen shard) had nothing to return.
    NoData,
}

/// Problems reported by the read-only health audit.
#[derive(Clone, Copy, Debug, PartialEq, Eq, Structural)]
pub enum HealthProblem {
    /// The cache's structure does not match the configuration.
    UnexpectedState,
    /// A shard's lock was invalidated by a crashed critical section.
    PoisonedShard,
    /// A shard's last successful refresh is older than the staleness threshold.
    StaleShard,
}

} // verus!
