//! Worker pool: the shared context that every delegated job receives.

use std::sync::Arc;
use vstd::prelude::*;

verus! {

/// A worker pool: holds the context shared with the jobs it runs. The jobs
/// themselves are spawned on an asynchronous runtime by the caller.
pub struct WorkerPool<ContextType: Send + Sync + 'static> {
    context: Arc<ContextType>,
}

impl<ContextType: Send + Sync + 'static> WorkerPool<ContextType> {
    /// The context shared with every job.
    pub closed spec fn shared_context(&self) -> Arc<ContextType> {
        self.context
    }

    /// Creates a new WorkerPool sharing `context` with its jobs.
    pub fn new(context: Arc<ContextType>) -> (r: Self)
        ensures
            r.shared_context() == context,
    {
        WorkerPool { context }
    }

    /// The context shared with every job.
    pub fn context(&self) -> (r: &Arc<ContextType>)
        ensures
            *r == self.shared_context(),
    {
        &self.context
    }
}

} // verus!
