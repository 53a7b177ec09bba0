//! A content-addressed workflow engine: workflows are finite DAGs of
//! WebAssembly tasks whose identities are content identifiers (CIDs) over a
//! canonical binary encoding.  Workers execute tasks, memoize outputs as
//! receipts, and share receipts so that no instruction needs to run twice.

use vstd::prelude::*;

pub mod cid;
pub mod codec;
pub mod workflow;
pub mod receipt;
pub mod store;
pub mod scheduler;
pub mod resolver;
pub mod message;
pub mod runner;

verus! {

/// Every failure the engine reports.
#[derive(Clone, Copy, Debug, PartialEq, Eq, Structural)]
pub enum Error {
    /// A promise references a task that is not strictly earlier in the workflow.
    InvalidDag,
    /// Decoding met bytes that no canonical encoding produces.
    Malformed,
    /// A lookup found nothing under the given key.
    NotFound,
    /// A promise could not be resolved against the selected receipt output.
    PromiseResolutionFailed,
    /// The sandbox reported that a task ran over its resource budget.
    ResourceExhausted,
    /// The sandbox trapped while running a task.
    SandboxTrap,
    /// The network dropped while a task was awaiting a remote receipt.
    NetworkDropped,
    /// An RPC request ran past its deadline.
    DeadlineExceeded,
    /// The receipt store could not commit a write.
    StoreWriteFailed,
}

/// Per-workflow scheduling settings.
#[derive(Clone, Copy, Debug)]
pub struct Settings {
    /// Upper bound on concurrently running tasks.
    pub max_parallel: u64,
    /// How many times a retryable task failure is retried.
    pub retries: u64,
    /// How long a task waits for a peer's receipt before running locally, in ms.
    pub p2p_check_timeout_ms: u64,
    /// How long cancellation may take before it is abandoned, in ms.
    pub shutdown_timeout_ms: u64,
}

impl Default for Settings {
    fn default() -> (r: Self)
        ensures
            r.max_parallel == 4,
            r.retries == 2,
            r.p2p_check_timeout_ms == 5000,
            r.shutdown_timeout_ms == 2000,
    {
        Settings { max_parallel: 4, retries: 2, p2p_check_timeout_ms: 5000, shutdown_timeout_ms: 2000 }
    }
}

} // verus!
