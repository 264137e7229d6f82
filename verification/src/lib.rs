//! A verified core for a Redis-backed asynchronous job-processing engine.
//!
//! Producers enqueue typed units of work; workers execute them immediately,
//! after a delay, or on a cron schedule, with at-least-once delivery,
//! optional de-duplication, and middleware-based interception.  All
//! cross-process state is modeled as an explicit store value that stands
//! for the Redis keyspace; the host process owns the real connection and
//! the clock and passes both in at every call.
use vstd::prelude::*;

pub mod codec;
pub mod job;
pub mod middleware;
pub mod periodic;
pub mod processor;
pub mod scheduled;
pub mod store;
pub mod worker;

verus! {

/// How a dispatched or promoted unit of work can fail.
#[derive(Debug, Clone, PartialEq, Eq, Structural)]
pub enum JobError {
    /// The stored string does not parse as a job envelope: permanent,
    /// the entry is dead-lettered, never retried.
    MalformedJob,
    /// No worker is registered under the job's class name: permanent.
    UnknownWorker,
    /// The worker itself reported a failure: transient, retried with
    /// backoff until the retry budget is exhausted.
    WorkerFailure,
}

} // verus!
