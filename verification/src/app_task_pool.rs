//! The task pool the map client runs its background work on: the
//! multi-threaded backend where this build has one, the manual one otherwise.
use vstd::prelude::*;
use crate::task_pool::{backend_available, backend_is_available, TaskPool, TaskPoolBackendKind};

verus! {

/// The backend the client's pool runs on: Rayon where this build has it,
/// the manual queue otherwise.
pub open spec fn app_backend() -> TaskPoolBackendKind {
    if backend_is_available(TaskPoolBackendKind::Rayon) {
        TaskPoolBackendKind::Rayon
    } else {
        TaskPoolBackendKind::Manual
    }
}

/// The map client's shared task pool.
#[verifier::reject_recursive_types(T)]
#[verifier::reject_recursive_types(F)]
pub struct AppTaskPool<T, F> {
    pool: TaskPool<T, F>,
}

impl<T, F: FnOnce() -> T> AppTaskPool<T, F> {
    pub closed spec fn spec_pool(&self) -> TaskPool<T, F> {
        self.pool
    }

    /// An empty pool on the best backend this build has.
    pub fn new() -> (app_pool: Self)
        ensures
            app_pool.spec_pool().wf(),
            app_pool.spec_pool().spec_backend_kind() == app_backend(),
            app_pool.spec_pool().task_count() == 0,
            app_pool.spec_pool().pending_tasks() == Seq::<Option<nat>>::empty(),
    {
        let backend = if backend_available(TaskPoolBackendKind::Rayon) {
            TaskPoolBackendKind::Rayon
        } else {
            TaskPoolBackendKind::Manual
        };
        let pool = TaskPool::builder().backend(backend).build();
        AppTaskPool { pool }
    }

    /// The pool, to look at.
    pub fn pool(&self) -> (pool: &TaskPool<T, F>)
        ensures
            *pool == self.spec_pool(),
    {
        &self.pool
    }

    /// The pool, to spawn on and tick.
    pub fn pool_mut(&mut self) -> (pool: &mut TaskPool<T, F>)
        ensures
            *pool == old(self).spec_pool(),
            final(self).spec_pool() == *final(pool),
    {
        &mut self.pool
    }
}

impl<T, F: FnOnce() -> T> Default for AppTaskPool<T, F> {
    fn default() -> (app_pool: Self)
        ensures
            app_pool.spec_pool().wf(),
            app_pool.spec_pool().spec_backend_kind() == app_backend(),
            app_pool.spec_pool().task_count() == 0,
    {
        AppTaskPool::new()
    }
}

} // verus!
