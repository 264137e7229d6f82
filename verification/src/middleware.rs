//! Middleware chain: ordered interceptors around worker dispatch.
//!
//! Links are added once at startup, in the order they will run.  The
//! processor hands each link the job in turn; a link either continues the
//! chain or halts it, in which case no later link runs and the worker's
//! `perform` is never invoked.  The continuation is the verdict a link
//! returns: every link must return one, so a job can never be silently
//! dropped by a link that forgets to act.
use crate::job::Job;
use vstd::prelude::*;

verus! {

/// What a middleware link decides about the job it was handed.
#[derive(Debug, Clone, Copy, PartialEq, Eq, Structural)]
pub enum MiddlewareVerdict {
    /// Hand the job to the next link (or to the worker after the last one).
    Continue,
    /// Short-circuit: the job is considered handled; the worker never runs.
    Halt,
}

/// One interceptor in the server middleware chain.
pub trait ServerMiddleware {
    fn call(&self, job: &Job) -> MiddlewareVerdict;
}

} // verus!
