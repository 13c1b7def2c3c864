//! The execution context: a pool of worker threads of fixed size, and the
//! parallel map that the workloads run on it.

use rayon::iter::{IntoParallelIterator, ParallelIterator};
use std::sync::Arc;
use vstd::prelude::*;
use vstd::std_specs::convert::FromSpecImpl;
use vstd::string::StringExecFns;

verus! {

/// `ThreadPool` of `rayon`, a pool of worker threads. Nothing inside it is
/// seen; the number of its threads is named by [`pool_threads`].
#[verifier::external_type_specification]
#[verifier::external_body]
pub struct ExPool(rayon::ThreadPool);

/// `ThreadPoolBuildError` of `rayon`, the reason why a pool was not built.
#[verifier::external_type_specification]
#[verifier::external_body]
pub struct ExBuildError(rayon::ThreadPoolBuildError);

/// The number of worker threads of a `rayon` pool, fixed when it was built.
pub uninterp spec fn pool_threads(pool: rayon::ThreadPool) -> nat;

/// The most threads that `rayon` gives to one pool, as of `rayon-core` 1.13,
/// to which this crate is locked: its counters keep 16 bits for them where a
/// pointer has 64 bits, and 8 bits where it has 32.
pub open spec fn max_pool_threads() -> nat {
    if usize::BITS == 64 {
        0xFFFF
    } else {
        0xFF
    }
}

/// The number of threads of a pool that is built for `n_jobs` jobs, where
/// `n_jobs` is not 0: as many, up to the most that a pool can have.
pub open spec fn threads_for(n_jobs: usize) -> nat
    recommends
        n_jobs > 0,
{
    if n_jobs <= max_pool_threads() {
        n_jobs as nat
    } else {
        max_pool_threads()
    }
}

/// `ThreadPoolBuilder::new`, `num_threads` and `build` of `rayon`. Whether a
/// pool can be built depends on the machine. A pool that was built has at
/// least one thread and at most [`max_pool_threads`]; asked for a number of
/// threads other than 0, it has as many, up to that limit. Asked for 0, it has
/// as many as `rayon` finds fit on the machine. Every build makes a registry
/// of its own, so the pool is another pool than one that stands `beside` it.
#[verifier::external_body]
#[allow(unused_variables)]
fn build_pool(n_jobs: usize, beside: Option<&rayon::ThreadPool>) -> (r: Result<
    rayon::ThreadPool,
    rayon::ThreadPoolBuildError,
>)
    ensures
        r matches Ok(pool) ==> 1 <= pool_threads(pool) <= max_pool_threads(),
        r matches Ok(pool) ==> n_jobs > 0 ==> pool_threads(pool) == threads_for(n_jobs),
        r matches Ok(pool) ==> (beside matches Some(other) ==> pool != *other),
{
    rayon::ThreadPoolBuilder::new().num_threads(n_jobs).build()
}

/// `ThreadPool::current_num_threads` of `rayon`: the number of threads of the
/// pool. Every pool of `rayon` comes from its builder, which starts at least
/// one thread and at most [`max_pool_threads`].
pub assume_specification[ rayon::ThreadPool::current_num_threads ](
    pool: &rayon::ThreadPool,
) -> (n: usize)
    ensures
        n == pool_threads(*pool),
        1 <= n <= max_pool_threads(),
;

/// The `Display` text of `rayon`'s error, which for a thread that could not
/// be started is the text of the operating system.
#[verifier::external_body]
fn build_error_text(err: &rayon::ThreadPoolBuildError) -> (text: String) {
    format!("{err}")
}

/// `Arc::clone`: one more handle on the same pool.
#[verifier::external_body]
fn share_pool(pool: &Arc<rayon::ThreadPool>) -> (shared: Arc<rayon::ThreadPool>)
    ensures
        *shared == **pool,
{
    Arc::clone(pool)
}

/// `ThreadPool::install` of `rayon` around a parallel map of the indices below
/// `n`, collected into a vector: entry `i` is what `f` returned for `i`,
/// whichever thread computed it and whenever.
#[verifier::external_body]
pub(crate) fn par_map_indices<T: Send, F: Fn(usize) -> T + Sync + Send>(
    pool: &rayon::ThreadPool,
    n: usize,
    f: F,
) -> (out: Vec<T>)
    requires
        forall|i: usize| i < n ==> call_requires(f, (i,)),
    ensures
        out@.len() == n,
        forall|i: usize| i < n ==> call_ensures(f, (i,), #[trigger] out@[i as int]),
{
    pool.install(|| (0..n).into_par_iter().map(f).collect())
}

/// Why no pool could be built: the reason that `rayon` gave.
#[derive(Debug, PartialEq, Eq)]
pub struct PoolError {
    pub reason: String,
}

impl PoolError {
    /// The text of [`PoolError::message`].
    pub open spec fn spec_message(self) -> Seq<char> {
        "Error happened on the Rust side when creating ThreadPool: \""@ + self.reason@ + "\""@
    }

    /// A sentence that says what failed, and quotes the reason.
    pub fn message(&self) -> (text: String)
        ensures
            text@ == self.spec_message(),
    {
        let mut text = String::from_str(
            "Error happened on the Rust side when creating ThreadPool: \"",
        );
        text.append(self.reason.as_str());
        text.append("\"");
        text
    }
}

/// What is kept of a pool when it is stored: the number of its threads.
#[derive(Clone, Copy, Debug, PartialEq, Eq, Structural)]
pub struct ContextState {
    pub n_jobs: usize,
}

/// A pool of worker threads whose number is fixed when it is made. A clone
/// shares the pool; a deep copy is a pool of its own with as many threads.
pub struct ExecutionContext {
    inner: Arc<rayon::ThreadPool>,
}

impl ExecutionContext {
    /// The number of worker threads.
    pub closed spec fn threads(&self) -> nat {
        pool_threads(*self.inner)
    }

    /// Whether the context is a handle on `pool`.
    pub closed spec fn holds(&self, pool: rayon::ThreadPool) -> bool {
        *self.inner == pool
    }

    /// Whether two contexts are handles on one pool.
    pub closed spec fn shares(&self, other: &ExecutionContext) -> bool {
        *self.inner == *other.inner
    }

    /// A pool of `n_jobs` threads, or, for 0, of as many as fit the machine.
    /// Whether it can be built is for the machine to say.
    pub fn new(n_jobs: usize) -> (r: Result<ExecutionContext, PoolError>)
        ensures
            r matches Ok(pool) ==> 1 <= pool.threads() <= max_pool_threads(),
            r matches Ok(pool) ==> n_jobs > 0 ==> pool.threads() == threads_for(n_jobs),
    {
        ExecutionContext::from_built(build_pool(n_jobs, None))
    }

    /// The context around what `rayon` gave when it was asked for a pool: a
    /// handle on that very pool, where it built one, and otherwise the reason
    /// why it built none.
    pub fn from_built(built: Result<rayon::ThreadPool, rayon::ThreadPoolBuildError>) -> (r: Result<
        ExecutionContext,
        PoolError,
    >)
        ensures
            match built {
                Ok(pool) => r matches Ok(context) && context.holds(pool) && context.threads()
                    == pool_threads(pool),
                Err(_) => r is Err,
            },
    {
        match built {
            Ok(pool) => Ok(ExecutionContext { inner: Arc::new(pool) }),
            Err(err) => Err(PoolError { reason: build_error_text(&err) }),
        }
    }

    /// The number of worker threads.
    pub fn current_num_threads(&self) -> (n: usize)
        ensures
            n == self.threads(),
            1 <= n <= max_pool_threads(),
    {
        self.inner.current_num_threads()
    }

    /// The `rayon` pool itself, to run work on.
    pub fn pool(&self) -> (pool: &rayon::ThreadPool)
        ensures
            self.holds(*pool),
            pool_threads(*pool) == self.threads(),
    {
        &self.inner
    }

    /// What is stored of the pool: the number of its threads.
    pub fn state(&self) -> (state: ContextState)
        ensures
            state.n_jobs == self.threads(),
            1 <= state.n_jobs <= max_pool_threads(),
    {
        ContextState { n_jobs: self.inner.current_num_threads() }
    }

    /// A new pool from what was stored of one, with as many threads as
    /// [`ExecutionContext::new`] gives for the stored number: a stored number
    /// other than 0, and no greater than a pool can have, is the number of its
    /// threads.
    pub fn from_state(state: ContextState) -> (r: Result<ExecutionContext, PoolError>)
        ensures
            r matches Ok(pool) ==> 1 <= pool.threads() <= max_pool_threads(),
            r matches Ok(pool) ==> state.n_jobs > 0 ==> pool.threads() == threads_for(
                state.n_jobs,
            ),
            r matches Ok(pool) ==> 0 < state.n_jobs <= max_pool_threads() ==> pool.threads()
                == state.n_jobs,
    {
        ExecutionContext::new(state.n_jobs)
    }

    /// A pool of its own with as many threads as this one: it is built anew
    /// from what is stored of this one, and shares nothing with it.
    pub fn deep_copy(&self) -> (r: Result<ExecutionContext, PoolError>)
        ensures
            r matches Ok(copy) ==> copy.threads() == self.threads(),
            r matches Ok(copy) ==> !copy.shares(self),
    {
        let state = self.state();
        ExecutionContext::from_built(build_pool(state.n_jobs, Some(self.pool())))
    }
}

impl Clone for ExecutionContext {
    /// One more handle on the same pool.
    fn clone(&self) -> (shared: ExecutionContext)
        ensures
            shared.shares(self),
            shared.threads() == self.threads(),
    {
        ExecutionContext { inner: share_pool(&self.inner) }
    }
}

impl From<ExecutionContext> for ContextState {
    fn from(context: ExecutionContext) -> (state: ContextState) {
        context.state()
    }
}

impl FromSpecImpl<ExecutionContext> for ContextState {
    open spec fn obeys_from_spec() -> bool {
        true
    }

    open spec fn from_spec(context: ExecutionContext) -> ContextState {
        ContextState { n_jobs: context.threads() as usize }
    }
}

} // verus!
