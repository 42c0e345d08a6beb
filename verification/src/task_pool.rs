//! A deferred task pool: spawned work is queued and only runs when the owner
//! ticks the pool, one task at a time, oldest first.
//!
//! The pool owns the state of every task it hands out; a `Task` is a handle
//! that reads that state through the pool. Jobs are of one closure type `F`
//! per pool (for example `fn() -> T`, or a boxed closure chosen by the host).
use std::collections::VecDeque;
use std::marker::PhantomData;
use vstd::prelude::*;

verus! {

/// Worker threads kept free for the host when the number of background tasks
/// is derived from the Rayon worker count.
pub const DEFAULT_RAYON_RESERVED_THREADS: usize = 2;

/// Which executor runs queued work.
#[derive(Debug, Clone, Copy, PartialEq, Eq, Structural)]
pub enum TaskPoolBackendKind {
    Manual,
    Rayon,
}

/// Whether `backend` can run in this build. This crate is built without a
/// multi-threaded host, so only the manual backend is available.
pub open spec fn backend_is_available(backend: TaskPoolBackendKind) -> bool {
    backend == TaskPoolBackendKind::Manual
}

/// Executable form of [`backend_is_available`].
pub fn backend_available(backend: TaskPoolBackendKind) -> (available: bool)
    ensures
        available == backend_is_available(backend),
{
    match backend {
        TaskPoolBackendKind::Manual => true,
        TaskPoolBackendKind::Rayon => false,
    }
}

/// `max(worker_count - reserved_threads, 1)`, where the subtraction saturates at 0.
pub open spec fn task_limit(worker_count: int, reserved_threads: int) -> int {
    if worker_count > reserved_threads {
        worker_count - reserved_threads
    } else {
        1
    }
}

/// Number of background tasks to run at once on `worker_count` workers when
/// `reserved_threads` of them stay free for the host; never below one.
pub fn background_task_limit(worker_count: usize, reserved_threads: usize) -> (limit: usize)
    ensures
        limit == task_limit(worker_count as int, reserved_threads as int),
        limit >= 1,
{
    let free = worker_count.saturating_sub(reserved_threads);
    if free > 1 {
        free
    } else {
        1
    }
}

/// The task limit leaves exactly `reserved_threads` workers free when there
/// are more workers than that, and is a single task otherwise: it is never
/// zero, never more than the free workers when some are free, and one more
/// worker raises it by one once the reserve is covered.
pub proof fn lemma_task_limit_reserves_threads(worker_count: nat, reserved_threads: nat)
    ensures
        worker_count > reserved_threads ==> task_limit(worker_count as int, reserved_threads as int)
            + reserved_threads == worker_count,
        worker_count <= reserved_threads ==> task_limit(worker_count as int, reserved_threads as int) == 1,
        task_limit(worker_count as int, reserved_threads as int) >= 1,
        worker_count >= reserved_threads + 1 ==> task_limit(worker_count as int + 1, reserved_threads as int)
            == task_limit(worker_count as int, reserved_threads as int) + 1,
{
}

/// Number of Rayon workers known to this build: without a multi-threaded
/// host there is a single one.
fn rayon_worker_count() -> (count: usize)
    ensures
        count == 1,
{
    1
}

/// Settings for a [`TaskPool`].
pub struct TaskPoolBuilder {
    backend: TaskPoolBackendKind,
    num_threads: Option<usize>,
    thread_name: Option<String>,
    max_concurrent_tasks: Option<usize>,
}

impl TaskPoolBuilder {
    pub closed spec fn spec_backend(&self) -> TaskPoolBackendKind {
        self.backend
    }

    pub closed spec fn spec_num_threads(&self) -> Option<usize> {
        self.num_threads
    }

    pub closed spec fn spec_thread_name(&self) -> Option<Seq<char>> {
        match self.thread_name {
            Some(name) => Some(name@),
            None => None,
        }
    }

    pub closed spec fn spec_max_concurrent_tasks(&self) -> Option<usize> {
        self.max_concurrent_tasks
    }

    /// The number of tasks a Rayon-backed pool built from these settings
    /// would run at once.
    pub open spec fn spec_rayon_task_limit(&self) -> int {
        match self.spec_max_concurrent_tasks() {
            Some(limit) => limit as int,
            None => task_limit(
                match self.spec_num_threads() {
                    Some(n) => n as int,
                    None => 1,
                },
                DEFAULT_RAYON_RESERVED_THREADS as int,
            ),
        }
    }

    /// Manual backend, every other setting unset.
    pub fn new() -> (builder: Self)
        ensures
            builder.spec_backend() == TaskPoolBackendKind::Manual,
            builder.spec_num_threads() is None,
            builder.spec_thread_name() is None,
            builder.spec_max_concurrent_tasks() is None,
    {
        TaskPoolBuilder {
            backend: TaskPoolBackendKind::Manual,
            num_threads: None,
            thread_name: None,
            max_concurrent_tasks: None,
        }
    }

    pub fn backend(self, backend: TaskPoolBackendKind) -> (builder: Self)
        ensures
            builder.spec_backend() == backend,
            builder.spec_num_threads() == self.spec_num_threads(),
            builder.spec_thread_name() == self.spec_thread_name(),
            builder.spec_max_concurrent_tasks() == self.spec_max_concurrent_tasks(),
    {
        TaskPoolBuilder { backend, ..self }
    }

    /// Recorded for a Rayon host; the manual backend runs on the caller's thread.
    pub fn num_threads(self, num_threads: usize) -> (builder: Self)
        ensures
            builder.spec_backend() == self.spec_backend(),
            builder.spec_num_threads() == Some(num_threads),
            builder.spec_thread_name() == self.spec_thread_name(),
            builder.spec_max_concurrent_tasks() == self.spec_max_concurrent_tasks(),
    {
        TaskPoolBuilder { num_threads: Some(num_threads), ..self }
    }

    /// Recorded for a Rayon host, which owns the naming of its workers.
    pub fn thread_name(self, thread_name: &str) -> (builder: Self)
        ensures
            builder.spec_backend() == self.spec_backend(),
            builder.spec_num_threads() == self.spec_num_threads(),
            builder.spec_thread_name() == Some(thread_name@),
            builder.spec_max_concurrent_tasks() == self.spec_max_concurrent_tasks(),
    {
        TaskPoolBuilder { thread_name: Some(thread_name.to_owned()), ..self }
    }

    /// Caps the tasks running at once; a cap of 0 is raised to 1.
    pub fn max_concurrent_tasks(self, max_concurrent_tasks: usize) -> (builder: Self)
        ensures
            builder.spec_backend() == self.spec_backend(),
            builder.spec_num_threads() == self.spec_num_threads(),
            builder.spec_thread_name() == self.spec_thread_name(),
            builder.spec_max_concurrent_tasks() == Some(
                if max_concurrent_tasks >= 1 { max_concurrent_tasks } else { 1usize },
            ),
    {
        let limit = if max_concurrent_tasks >= 1 { max_concurrent_tasks } else { 1 };
        TaskPoolBuilder { max_concurrent_tasks: Some(limit), ..self }
    }

    /// The concurrency limit a Rayon-backed pool would use: the explicit cap
    /// if one was set, else the worker count (the configured thread count, or
    /// the Rayon workers of this build) less the reserved threads, at least 1.
    pub fn rayon_task_limit(&self) -> (limit: usize)
        ensures
            limit == self.spec_rayon_task_limit(),
    {
        match self.max_concurrent_tasks {
            Some(limit) => limit,
            None => {
                let worker_count = match self.num_threads {
                    Some(n) => n,
                    None => rayon_worker_count(),
                };
                background_task_limit(worker_count, DEFAULT_RAYON_RESERVED_THREADS)
            },
        }
    }

    /// An empty pool on the chosen backend, which must be available in this build.
    pub fn build<T, F: FnOnce() -> T>(self) -> (pool: TaskPool<T, F>)
        requires
            backend_is_available(self.spec_backend()),
        ensures
            pool.wf(),
            pool.spec_backend_kind() == self.spec_backend(),
            pool.pending_tasks() == Seq::<Option<nat>>::empty(),
            pool.task_count() == 0,
    {
        TaskPool { queue: ManualTaskQueue::new() }
    }
}

impl Default for TaskPoolBuilder {
    fn default() -> (builder: Self)
        ensures
            builder.spec_backend() == TaskPoolBackendKind::Manual,
            builder.spec_num_threads() is None,
            builder.spec_thread_name() is None,
            builder.spec_max_concurrent_tasks() is None,
    {
        TaskPoolBuilder::new()
    }
}

impl<T, F: FnOnce() -> T> Default for ManualTaskQueue<T, F> {
    fn default() -> (queue: Self)
        ensures
            queue.wf(),
            queue.pending_tasks() == Seq::<Option<nat>>::empty(),
            queue.task_count() == 0,
    {
        ManualTaskQueue::new()
    }
}

/// What is known of one task: its result slot and whether it has run.
pub struct TaskState<T> {
    result: Option<T>,
    finished: bool,
}

impl<T> TaskState<T> {
    fn pending() -> (state: Self)
        ensures
            state.result is None,
            !state.finished,
    {
        TaskState { result: None, finished: false }
    }

    /// Moves the value out, leaving the slot empty.
    fn take(&mut self) -> (result: Option<T>)
        ensures
            result == old(self).result,
            final(self).result is None,
            final(self).finished == old(self).finished,
    {
        self.result.take()
    }

    /// Records the value a task produced.
    fn complete(&mut self, result: T)
        ensures
            final(self).result == Some(result),
            final(self).finished,
    {
        self.result = Some(result);
        self.finished = true;
    }
}

/// A queued job; `task` is the id of the task it completes, `None` for
/// detached work whose value is dropped.
struct PendingJob<F> {
    task: Option<usize>,
    job: F,
}

/// A FIFO queue of jobs that runs them on the caller's thread, one per tick,
/// together with the state of every task it was given.
#[verifier::reject_recursive_types(T)]
#[verifier::reject_recursive_types(F)]
pub struct ManualTaskQueue<T, F> {
    pending: VecDeque<PendingJob<F>>,
    tasks: Vec<TaskState<T>>,
    /// The closure each task was spawned with, by task id.
    jobs: Ghost<Seq<F>>,
    /// Tasks finish in spawn order: ids below this one have run.
    finished_below: Ghost<nat>,
}

impl<T, F: FnOnce() -> T> ManualTaskQueue<T, F> {
    /// The queue from front to back: the task each job completes, `None` for detached work.
    pub closed spec fn pending_tasks(&self) -> Seq<Option<nat>> {
        self.pending@.map_values(|p: PendingJob<F>| match p.task {
            Some(id) => Some(id as nat),
            None => None,
        })
    }

    /// The queued closures from front to back.
    pub closed spec fn pending_jobs(&self) -> Seq<F> {
        self.pending@.map_values(|p: PendingJob<F>| p.job)
    }

    /// Number of tasks spawned so far; they have ids `0..task_count()`.
    pub closed spec fn task_count(&self) -> nat {
        self.tasks@.len()
    }

    pub closed spec fn finished(&self, id: nat) -> bool {
        self.tasks@[id as int].finished
    }

    pub closed spec fn result(&self, id: nat) -> Option<T> {
        self.tasks@[id as int].result
    }

    /// The closure task `id` was spawned with.
    pub closed spec fn spawned_job(&self, id: nat) -> F {
        self.jobs@[id as int]
    }

    pub closed spec fn wf(&self) -> bool {
        let n = self.tasks@.len();
        let k = self.finished_below@;
        &&& self.jobs@.len() == n
        &&& k <= n
        &&& forall|id: int| 0 <= id < n ==> (#[trigger] self.tasks@[id]).finished == (id < k)
        &&& forall|id: int|
            0 <= id < n && !(#[trigger] self.tasks@[id]).finished ==> self.tasks@[id].result is None
        &&& forall|id: int|
            0 <= id < n && (#[trigger] self.tasks@[id]).result is Some ==> call_ensures(
                self.jobs@[id],
                (),
                self.tasks@[id].result->0,
            )
        &&& forall|i: int|
            0 <= i < self.pending@.len() ==> call_requires((#[trigger] self.pending@[i]).job, ())
        &&& forall|i: int|
            0 <= i < self.pending@.len() && (#[trigger] self.pending@[i]).task is Some ==> k
                <= self.pending@[i].task->0 < n && self.pending@[i].job
                == self.jobs@[self.pending@[i].task->0 as int]
        &&& forall|i: int, j: int|
            0 <= i < j < self.pending@.len() && (#[trigger] self.pending@[i]).task is Some && (
            #[trigger] self.pending@[j]).task is Some ==> self.pending@[i].task->0
                < self.pending@[j].task->0
        &&& forall|id: int| k <= id < n ==> #[trigger] Self::queued_in(self.pending@, id)
    }

    /// Some queued job completes task `id`.
    closed spec fn queued_in(pending: Seq<PendingJob<F>>, id: int) -> bool {
        exists|i: int|
            0 <= i < pending.len() && (#[trigger] pending[i]).task is Some
                && pending[i].task->0 == id
    }

    /// An empty queue.
    pub fn new() -> (queue: Self)
        ensures
            queue.wf(),
            queue.pending_tasks() == Seq::<Option<nat>>::empty(),
            queue.task_count() == 0,
    {
        let queue = ManualTaskQueue {
            pending: VecDeque::new(),
            tasks: Vec::new(),
            jobs: Ghost(Seq::empty()),
            finished_below: Ghost(0),
        };
        assert(queue.pending_tasks() =~= Seq::<Option<nat>>::empty());
        queue
    }

    /// Adds a job at the back of the queue; `task` names the task it completes.
    fn push(&mut self, task: Option<usize>, job: F)
        ensures
            final(self).pending@ == old(self).pending@.push(PendingJob { task, job }),
            final(self).tasks@ == old(self).tasks@,
            final(self).jobs@ == old(self).jobs@,
            final(self).finished_below@ == old(self).finished_below@,
    {
        self.pending.push_back(PendingJob { task, job });
    }

    /// Number of queued jobs, detached ones included.
    pub fn queued_len(&self) -> (len: usize)
        ensures
            len == self.pending_tasks().len(),
    {
        self.pending.len()
    }
}

impl<T, F: FnOnce() -> T> ManualTaskQueue<T, F> {
    /// Registers a new task that `job` completes and queues the job.
    fn spawn_task(&mut self, job: F) -> (id: usize)
        requires
            old(self).wf(),
            call_requires(job, ()),
            old(self).task_count() < usize::MAX,
        ensures
            final(self).wf(),
            id == old(self).task_count(),
            final(self).task_count() == old(self).task_count() + 1,
            final(self).pending_tasks() == old(self).pending_tasks().push(Some(id as nat)),
            final(self).pending_jobs() == old(self).pending_jobs().push(job),
            final(self).spawned_job(id as nat) == job,
            !final(self).finished(id as nat),
            final(self).result(id as nat) is None,
            forall|t: nat|
                t < old(self).task_count() ==> final(self).finished(t) == old(self).finished(t)
                    && final(self).result(t) == old(self).result(t) && final(self).spawned_job(t)
                    == old(self).spawned_job(t),
    {
        let id = self.tasks.len();
        let ghost old_pending = self.pending@;
        self.tasks.push(TaskState::pending());
        self.jobs = Ghost(self.jobs@.push(job));
        self.push(Some(id), job);
        proof {
            let n = self.tasks@.len();
            assert(self.pending@[old_pending.len() as int].task == Some(id));
            assert forall|t: int| self.finished_below@ <= t < n implies Self::queued_in(self.pending@, t) by {
                if t < id {
                    assert(Self::queued_in(old(self).pending@, t));
                    let i = choose|i: int|
                        0 <= i < old_pending.len() && (#[trigger] old_pending[i]).task is Some && old_pending[i].task->0 == t;
                    assert(self.pending@[i] == old_pending[i]);
                } else {
                    assert(self.pending@[old_pending.len() as int].task == Some(t as usize));
                }
            }
            assert(self.pending_tasks() =~= old(self).pending_tasks().push(Some(id as nat)));
            assert(self.pending_jobs() =~= old(self).pending_jobs().push(job));
        }
        id
    }

    /// Queues work whose value nobody waits for.
    fn spawn_detached_job(&mut self, job: F)
        requires
            old(self).wf(),
            call_requires(job, ()),
        ensures
            final(self).wf(),
            final(self).task_count() == old(self).task_count(),
            final(self).pending_tasks() == old(self).pending_tasks().push(None),
            final(self).pending_jobs() == old(self).pending_jobs().push(job),
            forall|t: nat|
                t < old(self).task_count() ==> final(self).finished(t) == old(self).finished(t)
                    && final(self).result(t) == old(self).result(t) && final(self).spawned_job(t)
                    == old(self).spawned_job(t),
    {
        let ghost old_pending = self.pending@;
        self.push(None, job);
        proof {
            let n = self.tasks@.len();
            assert forall|t: int| self.finished_below@ <= t < n implies Self::queued_in(self.pending@, t) by {
                assert(Self::queued_in(old(self).pending@, t));
                let i = choose|i: int|
                    0 <= i < old_pending.len() && (#[trigger] old_pending[i]).task is Some && old_pending[i].task->0 == t;
                assert(self.pending@[i] == old_pending[i]);
            }
            assert(self.pending_tasks() =~= old(self).pending_tasks().push(None));
            assert(self.pending_jobs() =~= old(self).pending_jobs().push(job));
        }
    }

    /// Runs the job at the front of the queue, if there is one, and reports
    /// whether it did.
    pub fn try_tick(&mut self) -> (ran: bool)
        requires
            old(self).wf(),
        ensures
            final(self).wf(),
            ran == (old(self).pending_tasks().len() > 0),
            ran ==> final(self).pending_tasks() == old(self).pending_tasks().drop_first()
                && final(self).pending_jobs() == old(self).pending_jobs().drop_first(),
            !ran ==> final(self).pending_tasks() == old(self).pending_tasks(),
            final(self).task_count() == old(self).task_count(),
            forall|t: nat| #[trigger]
                final(self).spawned_job(t) == old(self).spawned_job(t),
            forall|t: nat|
                t < old(self).task_count() && !(ran && old(self).pending_tasks()[0] == Some(t))
                    ==> final(self).finished(t) == old(self).finished(t) && final(self).result(t)
                    == old(self).result(t),
            ran ==> (old(self).pending_tasks()[0] matches Some(t) ==> final(self).finished(t)
                && final(self).result(t) is Some),
    {
        let ghost old_pending = self.pending@;
        let ghost k = self.finished_below@;
        let front = self.pending.pop_front();
        match front {
            None => {
                proof {
                    assert(old_pending.len() == 0);
                    assert(self.pending@ == old_pending);
                    assert(self.tasks@ == old(self).tasks@);
                }
                false
            },
            Some(p) => {
                assert(p == old_pending[0]);
                let value = (p.job)();
                match p.task {
                    Some(id) => {
                        proof {
                            // The front job completes the oldest unfinished task.
                            assert(Self::queued_in(old(self).pending@, k as int));
                            let w = choose|i: int|
                                0 <= i < old_pending.len() && (#[trigger] old_pending[i]).task is Some && old_pending[i].task->0 == k;
                            if w != 0 {
                                assert(old_pending[0].task->0 < old_pending[w].task->0);
                            }
                            assert(id == k);
                        }
                        self.tasks[id].complete(value);
                        self.finished_below = Ghost(k + 1);
                    },
                    None => {},
                }
                proof {
                    let n = self.tasks@.len();
                    assert(forall|i: int|
                        0 <= i < self.pending@.len() ==> self.pending@[i] == old_pending[i + 1]);
                    assert forall|t: int| self.finished_below@ <= t < n implies Self::queued_in(self.pending@, t) by {
                        assert(Self::queued_in(old(self).pending@, t));
                        let w = choose|i: int|
                            0 <= i < old_pending.len() && (#[trigger] old_pending[i]).task is Some && old_pending[i].task->0 == t;
                        assert(w != 0);
                        assert(self.pending@[w - 1] == old_pending[w]);
                    }
                    assert(self.pending_tasks() =~= old(self).pending_tasks().drop_first());
                    assert(self.pending_jobs() =~= old(self).pending_jobs().drop_first());
                }
                true
            },
        }
    }
}

/// Dispatch bookkeeping for work handed to Rayon workers: jobs wait in FIFO
/// order and at most `max_running` of them run at once. Each operation
/// returns the jobs the host should start now, and the host reports every
/// finished job back with [`RayonTaskQueue::task_finished`].
#[verifier::reject_recursive_types(J)]
pub struct RayonTaskQueue<J> {
    pending: VecDeque<J>,
    running: usize,
    max_running: usize,
}

impl<J> RayonTaskQueue<J> {
    pub closed spec fn pending_jobs(&self) -> Seq<J> {
        self.pending@
    }

    pub closed spec fn running(&self) -> nat {
        self.running as nat
    }

    pub closed spec fn max_running(&self) -> nat {
        self.max_running as nat
    }

    /// The limit is positive, never exceeded, and no job waits while a
    /// worker slot is free.
    pub open spec fn wf(&self) -> bool {
        &&& 1 <= self.max_running()
        &&& self.running() <= self.max_running()
        &&& self.running() < self.max_running() ==> self.pending_jobs().len() == 0
    }

    /// How many waiting jobs start when the queue is drained with `running`
    /// jobs in flight.
    pub open spec fn dispatch_count(&self, running: nat) -> nat {
        let free = if running < self.max_running() { (self.max_running() - running) as nat } else { 0 };
        if self.pending_jobs().len() < free { self.pending_jobs().len() } else { free }
    }

    /// An idle queue that runs at most `max_running` jobs at once (at least one).
    pub fn new(max_running: usize) -> (queue: Self)
        ensures
            queue.wf(),
            queue.pending_jobs() == Seq::<J>::empty(),
            queue.running() == 0,
            queue.max_running() == if max_running >= 1 { max_running as nat } else { 1 },
    {
        let max_running = if max_running >= 1 { max_running } else { 1 };
        RayonTaskQueue { pending: VecDeque::new(), running: 0, max_running }
    }

    /// Starts waiting jobs, oldest first, while a worker slot is free; returns
    /// the started jobs in order.
    pub fn dispatch_pending(&mut self) -> (started: Vec<J>)
        requires
            1 <= old(self).max_running(),
            old(self).running() <= old(self).max_running(),
        ensures
            final(self).wf(),
            started@ == old(self).pending_jobs().take(old(self).dispatch_count(old(self).running()) as int),
            final(self).pending_jobs() == old(self).pending_jobs().skip(old(self).dispatch_count(old(self).running()) as int),
            final(self).running() == old(self).running() + old(self).dispatch_count(old(self).running()),
            final(self).max_running() == old(self).max_running(),
    {
        let mut started: Vec<J> = Vec::new();
        let ghost start = self.pending@;
        let ghost d = self.dispatch_count(self.running());
        loop
            invariant
                1 <= self.max_running,
                self.running <= self.max_running,
                self.max_running == old(self).max_running,
                started@.len() <= d,
                self.running == old(self).running + started@.len(),
                started@ == start.take(started@.len() as int),
                self.pending@ == start.skip(started@.len() as int),
                d == old(self).dispatch_count(old(self).running()),
                start == old(self).pending@,
            decreases self.pending@.len(),
        {
            if self.running >= self.max_running {
                return started;
            }
            let next = self.pending.pop_front();
            match next {
                None => {
                    return started;
                },
                Some(job) => {
                    let ghost k = started@.len() as int;
                    self.running = self.running + 1;
                    started.push(job);
                    proof {
                        assert(start.take(k + 1) =~= start.take(k).push(start[k]));
                        assert(self.pending@ =~= start.skip(k + 1));
                    }
                },
            }
        }
    }

    /// Adds a job at the back and starts what fits; returns the started jobs.
    pub fn push(&mut self, job: J) -> (started: Vec<J>)
        requires
            old(self).wf(),
        ensures
            final(self).wf(),
            started@ + final(self).pending_jobs() == old(self).pending_jobs().push(job),
            final(self).running() == old(self).running() + started@.len(),
            final(self).max_running() == old(self).max_running(),
    {
        self.pending.push_back(job);
        let ghost all = self.pending@;
        let started = self.dispatch_pending();
        proof {
            let d = started@.len() as int;
            assert(all.take(d) + all.skip(d) =~= all);
        }
        started
    }

    /// Records that one started job has finished (a report with nothing
    /// running is ignored) and starts what now fits; returns the started jobs.
    pub fn task_finished(&mut self) -> (started: Vec<J>)
        requires
            old(self).wf(),
        ensures
            final(self).wf(),
            started@ + final(self).pending_jobs() == old(self).pending_jobs(),
            final(self).running() + 1 == (if old(self).running() > 0 { old(self).running() } else { 1 }) + started@.len(),
            old(self).running() > 0 ==> started@.len() == if old(self).pending_jobs().len() > 0 { 1int } else { 0int },
            final(self).max_running() == old(self).max_running(),
    {
        self.running = self.running.saturating_sub(1);
        let ghost all = self.pending@;
        let started = self.dispatch_pending();
        proof {
            let d = started@.len() as int;
            assert(all.take(d) + all.skip(d) =~= all);
        }
        started
    }

    /// Number of jobs waiting for a worker.
    pub fn queued_len(&self) -> (len: usize)
        ensures
            len == self.pending_jobs().len(),
    {
        self.pending.len()
    }

    /// The concurrency limit.
    pub fn max_concurrent_tasks(&self) -> (limit: usize)
        ensures
            limit == self.max_running(),
    {
        self.max_running
    }
}

/// A pool of deferred tasks; see the module documentation.
#[verifier::reject_recursive_types(T)]
#[verifier::reject_recursive_types(F)]
pub struct TaskPool<T, F> {
    queue: ManualTaskQueue<T, F>,
}

/// A handle to a spawned task, read through the pool that spawned it.
pub struct Task<T> {
    id: usize,
    marker: PhantomData<T>,
}

impl<T, F: FnOnce() -> T> ManualTaskQueue<T, F> {
    /// Runs queued jobs, front first, until `max_tasks` have run or the queue
    /// is empty; returns how many ran.
    pub fn tick_n(&mut self, max_tasks: usize) -> (completed: usize)
        requires
            old(self).wf(),
        ensures
            final(self).wf(),
            completed == if max_tasks < old(self).pending_tasks().len() {
                max_tasks as int
            } else {
                old(self).pending_tasks().len() as int
            },
            final(self).pending_tasks() == old(self).pending_tasks().skip(completed as int),
            final(self).pending_jobs() == old(self).pending_jobs().skip(completed as int),
            final(self).task_count() == old(self).task_count(),
            forall|t: nat| #[trigger]
                final(self).spawned_job(t) == old(self).spawned_job(t),
            forall|t: nat|
                t < old(self).task_count() ==> #[trigger] final(self).finished(t) == (old(self).finished(t) || old(self).pending_tasks().take(completed as int).contains(
                    Some(t),
                )),
            forall|t: nat|
                t < old(self).task_count() && old(self).finished(t) ==> #[trigger] final(self).result(t) == old(self).result(t),
            forall|t: nat|
                t < old(self).task_count() && #[trigger] final(self).finished(t) && !old(self).finished(t) ==> final(self).result(t) is Some,
    {
        let ghost start = *self;
        let mut completed: usize = 0;
        while completed < max_tasks
            invariant
                self.wf(),
                start.wf(),
                completed <= max_tasks,
                completed <= start.pending_tasks().len(),
                self.pending_tasks() == start.pending_tasks().skip(completed as int),
                self.pending_jobs() == start.pending_jobs().skip(completed as int),
                self.task_count() == start.task_count(),
                forall|t: nat| #[trigger] self.spawned_job(t) == start.spawned_job(t),
                forall|t: nat|
                    t < start.task_count() ==> #[trigger] self.finished(t) == (start.finished(t)
                        || start.pending_tasks().take(completed as int).contains(Some(t))),
                forall|t: nat|
                    t < start.task_count() && start.finished(t) ==> #[trigger] self.result(t)
                        == start.result(t),
                forall|t: nat|
                    t < start.task_count() && #[trigger] self.finished(t) && !start.finished(t)
                        ==> self.result(t) is Some,
            ensures
                self.wf(),
                completed == if max_tasks < start.pending_tasks().len() {
                    max_tasks as int
                } else {
                    start.pending_tasks().len() as int
                },
                self.pending_tasks() == start.pending_tasks().skip(completed as int),
                self.pending_jobs() == start.pending_jobs().skip(completed as int),
                self.task_count() == start.task_count(),
                forall|t: nat| #[trigger] self.spawned_job(t) == start.spawned_job(t),
                forall|t: nat|
                    t < start.task_count() ==> #[trigger] self.finished(t) == (start.finished(t)
                        || start.pending_tasks().take(completed as int).contains(Some(t))),
                forall|t: nat|
                    t < start.task_count() && start.finished(t) ==> #[trigger] self.result(t)
                        == start.result(t),
                forall|t: nat|
                    t < start.task_count() && #[trigger] self.finished(t) && !start.finished(t)
                        ==> self.result(t) is Some,
            decreases max_tasks - completed,
        {
            let ghost before = *self;
            let ran = self.try_tick();
            if !ran {
                break;
            }
            proof {
                let all = start.pending_tasks();
                let c = completed as int;
                assert(before.pending_tasks()[0] == all[c]);
                assert(all.take(c + 1) =~= all.take(c).push(all[c]));
                assert(self.pending_tasks() =~= all.skip(c + 1));
                assert(self.pending_jobs() =~= start.pending_jobs().skip(c + 1));
                assert forall|t: nat| t < start.task_count() implies #[trigger] self.finished(t)
                    == (start.finished(t) || all.take(c + 1).contains(Some(t))) by {
                    if all[c] == Some(t) {
                        assert(all.take(c + 1)[c] == Some(t));
                    } else {
                        if all.take(c + 1).contains(Some(t)) {
                            let j = choose|j: int|
                                0 <= j < all.take(c + 1).len() && #[trigger] all.take(c + 1)[j] == Some(t);
                            assert(all.take(c)[j] == Some(t));
                        }
                        if all.take(c).contains(Some(t)) {
                            let j = choose|j: int|
                                0 <= j < all.take(c).len() && #[trigger] all.take(c)[j] == Some(t);
                            assert(all.take(c + 1)[j] == Some(t));
                        }
                    }
                }
            }
            completed = completed + 1;
        }
        completed
    }

    /// Runs queued jobs until the queue is empty; returns how many ran.
    pub fn tick_until_empty(&mut self) -> (completed: usize)
        requires
            old(self).wf(),
        ensures
            final(self).wf(),
            completed == old(self).pending_tasks().len(),
            final(self).pending_tasks() == Seq::<Option<nat>>::empty(),
            final(self).task_count() == old(self).task_count(),
            forall|t: nat| #[trigger]
                final(self).spawned_job(t) == old(self).spawned_job(t),
            forall|t: nat| t < old(self).task_count() ==> #[trigger] final(self).finished(t),
            forall|t: nat|
                t < old(self).task_count() && old(self).finished(t) ==> #[trigger] final(self).result(t) == old(self).result(t),
            forall|t: nat|
                t < old(self).task_count() && !old(self).finished(t) ==> #[trigger] final(self).result(t) is Some,
    {
        proof {
            self.lemma_unfinished_tasks_are_queued();
        }
        let len = self.pending.len();
        let completed = self.tick_n(len);
        proof {
            let all = old(self).pending_tasks();
            assert(all.take(completed as int) =~= all);
            assert forall|t: nat|
                t < old(self).task_count() && !old(self).finished(t) implies #[trigger] self.result(t) is Some by {
                assert(self.finished(t));
            }
            assert(self.pending_tasks() =~= Seq::<Option<nat>>::empty());
        }
        completed
    }

    /// A task's value is one its closure can return: the value satisfies the
    /// postcondition of the closure the task was spawned with.
    pub proof fn lemma_result_comes_from_job(&self, id: nat)
        requires
            self.wf(),
            id < self.task_count(),
            self.result(id) is Some,
        ensures
            call_ensures(self.spawned_job(id), (), self.result(id)->0),
    {
    }

    /// A task that has not run has no value.
    pub proof fn lemma_no_result_before_finished(&self, id: nat)
        requires
            self.wf(),
            id < self.task_count(),
            !self.finished(id),
        ensures
            self.result(id) is None,
    {
    }

    /// Queued tasks stand in the order they were spawned, and each at most
    /// once, so the oldest runs first.
    pub proof fn lemma_queue_in_spawn_order(&self)
        requires
            self.wf(),
        ensures
            forall|i: int, j: int|
                0 <= i < j < self.pending_tasks().len() && self.pending_tasks()[i] is Some
                    && self.pending_tasks()[j] is Some ==> self.pending_tasks()[i]->0
                    < self.pending_tasks()[j]->0,
            forall|i: int|
                0 <= i < self.pending_tasks().len() && self.pending_tasks()[i] is Some ==> (
                self.pending_tasks()[i]->0 < self.task_count() && !self.finished(
                    self.pending_tasks()[i]->0,
                ) && self.pending_jobs()[i] == self.spawned_job(self.pending_tasks()[i]->0)),
    {
        assert forall|i: int, j: int|
            0 <= i < j < self.pending_tasks().len() && self.pending_tasks()[i] is Some
                && self.pending_tasks()[j] is Some implies self.pending_tasks()[i]->0
            < self.pending_tasks()[j]->0 by {
            assert(self.pending@[i].task is Some && self.pending@[j].task is Some);
        }
        assert forall|i: int|
            0 <= i < self.pending_tasks().len() && self.pending_tasks()[i] is Some implies (
            self.pending_tasks()[i]->0 < self.task_count() && !self.finished(
                self.pending_tasks()[i]->0,
            ) && self.pending_jobs()[i] == self.spawned_job(self.pending_tasks()[i]->0)) by {
            assert(self.pending@[i].task is Some);
            let id = self.pending@[i].task->0 as int;
            assert(self.tasks@[id].finished == (id < self.finished_below@));
        }
    }

    /// Every task that has not run is still queued, and every task that has
    /// run is not.
    pub proof fn lemma_unfinished_tasks_are_queued(&self)
        requires
            self.wf(),
        ensures
            forall|t: nat|
                t < self.task_count() ==> (!self.finished(t) <==> self.pending_tasks().contains(
                    Some(t),
                )),
    {
        assert forall|t: nat| t < self.task_count() implies (!self.finished(t)
            <==> self.pending_tasks().contains(Some(t))) by {
            if !self.finished(t) {
                assert(Self::queued_in(self.pending@, t as int));
                let i = choose|i: int|
                    0 <= i < self.pending@.len() && (#[trigger] self.pending@[i]).task is Some && self.pending@[i].task->0 == t;
                assert(self.pending_tasks()[i] == Some(t));
            }
            if self.pending_tasks().contains(Some(t)) {
                let i = choose|i: int|
                    0 <= i < self.pending_tasks().len() && #[trigger] self.pending_tasks()[i] == Some(t);
                assert(self.pending@[i].task is Some);
            }
        }
    }
}

impl<T> Task<T> {
    /// The task's number in its pool.
    pub closed spec fn spec_id(&self) -> nat {
        self.id as nat
    }
}

impl<T, F: FnOnce() -> T> TaskPool<T, F> {
    pub closed spec fn wf(&self) -> bool {
        self.queue.wf()
    }

    /// The backend this pool runs on.
    pub open spec fn spec_backend_kind(&self) -> TaskPoolBackendKind {
        TaskPoolBackendKind::Manual
    }

    pub closed spec fn pending_tasks(&self) -> Seq<Option<nat>> {
        self.queue.pending_tasks()
    }

    pub closed spec fn pending_jobs(&self) -> Seq<F> {
        self.queue.pending_jobs()
    }

    pub closed spec fn task_count(&self) -> nat {
        self.queue.task_count()
    }

    pub closed spec fn finished(&self, id: nat) -> bool {
        self.queue.finished(id)
    }

    pub closed spec fn result(&self, id: nat) -> Option<T> {
        self.queue.result(id)
    }

    pub closed spec fn spawned_job(&self, id: nat) -> F {
        self.queue.spawned_job(id)
    }

    /// `task` was spawned by this pool.
    pub open spec fn owns(&self, task: Task<T>) -> bool {
        task.spec_id() < self.task_count()
    }

    /// `later` still has every task of this pool, and every task that had
    /// run here has run there.
    pub open spec fn finished_kept(&self, later: Self) -> bool {
        &&& self.task_count() <= later.task_count()
        &&& forall|t: nat| t < self.task_count() && #[trigger] self.finished(t) ==> later.finished(t)
    }

    /// A task's value satisfies the postcondition of the closure it was spawned with.
    pub proof fn lemma_result_comes_from_job(&self, id: nat)
        requires
            self.wf(),
            id < self.task_count(),
            self.result(id) is Some,
        ensures
            call_ensures(self.spawned_job(id), (), self.result(id)->0),
    {
        self.queue.lemma_result_comes_from_job(id);
    }

    /// A task that has not run has no value.
    pub proof fn lemma_no_result_before_finished(&self, id: nat)
        requires
            self.wf(),
            id < self.task_count(),
            !self.finished(id),
        ensures
            self.result(id) is None,
    {
        self.queue.lemma_no_result_before_finished(id);
    }

    /// Queued tasks stand in spawn order, each at most once, and each is an
    /// unfinished task queued with the closure it was spawned with.
    pub proof fn lemma_queue_in_spawn_order(&self)
        requires
            self.wf(),
        ensures
            forall|i: int, j: int|
                0 <= i < j < self.pending_tasks().len() && self.pending_tasks()[i] is Some
                    && self.pending_tasks()[j] is Some ==> self.pending_tasks()[i]->0
                    < self.pending_tasks()[j]->0,
            forall|i: int|
                0 <= i < self.pending_tasks().len() && self.pending_tasks()[i] is Some ==> (
                self.pending_tasks()[i]->0 < self.task_count() && !self.finished(
                    self.pending_tasks()[i]->0,
                ) && self.pending_jobs()[i] == self.spawned_job(self.pending_tasks()[i]->0)),
    {
        self.queue.lemma_queue_in_spawn_order();
    }

    /// A task has not run exactly when it is still queued.
    pub proof fn lemma_unfinished_tasks_are_queued(&self)
        requires
            self.wf(),
        ensures
            forall|t: nat|
                t < self.task_count() ==> (!self.finished(t) <==> self.pending_tasks().contains(
                    Some(t),
                )),
    {
        self.queue.lemma_unfinished_tasks_are_queued();
    }


    /// Queues `task`; it runs on a later tick, after everything queued before it.
    pub fn spawn(&mut self, task: F) -> (handle: Task<T>)
        requires
            old(self).wf(),
            call_requires(task, ()),
            old(self).task_count() < usize::MAX,
        ensures
            old(self).finished_kept(*final(self)),
            final(self).wf(),
            handle.spec_id() == old(self).task_count(),
            final(self).task_count() == old(self).task_count() + 1,
            final(self).pending_tasks() == old(self).pending_tasks().push(Some(handle.spec_id())),
            final(self).pending_jobs() == old(self).pending_jobs().push(task),
            final(self).spawned_job(handle.spec_id()) == task,
            !final(self).finished(handle.spec_id()),
            final(self).result(handle.spec_id()) is None,
            forall|t: nat|
                t < old(self).task_count() ==> final(self).finished(t) == old(self).finished(t)
                    && final(self).result(t) == old(self).result(t) && final(self).spawned_job(t)
                    == old(self).spawned_job(t),
    {
        let id = self.queue.spawn_task(task);
        Task { id, marker: PhantomData }
    }

    /// Queues `task` without a handle; its value is dropped when it runs.
    pub fn spawn_detached(&mut self, task: F)
        requires
            old(self).wf(),
            call_requires(task, ()),
        ensures
            old(self).finished_kept(*final(self)),
            final(self).wf(),
            final(self).task_count() == old(self).task_count(),
            final(self).pending_tasks() == old(self).pending_tasks().push(None),
            final(self).pending_jobs() == old(self).pending_jobs().push(task),
            forall|t: nat|
                t < old(self).task_count() ==> final(self).finished(t) == old(self).finished(t)
                    && final(self).result(t) == old(self).result(t) && final(self).spawned_job(t)
                    == old(self).spawned_job(t),
    {
        self.queue.spawn_detached_job(task);
    }

    /// Runs the oldest queued job, if any; reports whether one ran.
    pub fn try_tick(&mut self) -> (ran: bool)
        requires
            old(self).wf(),
        ensures
            old(self).finished_kept(*final(self)),
            final(self).wf(),
            ran == (old(self).pending_tasks().len() > 0),
            ran ==> final(self).pending_tasks() == old(self).pending_tasks().drop_first()
                && final(self).pending_jobs() == old(self).pending_jobs().drop_first(),
            !ran ==> final(self).pending_tasks() == old(self).pending_tasks(),
            final(self).task_count() == old(self).task_count(),
            forall|t: nat| #[trigger]
                final(self).spawned_job(t) == old(self).spawned_job(t),
            forall|t: nat|
                t < old(self).task_count() && !(ran && old(self).pending_tasks()[0] == Some(t))
                    ==> final(self).finished(t) == old(self).finished(t) && final(self).result(t)
                    == old(self).result(t),
            ran ==> (old(self).pending_tasks()[0] matches Some(t) ==> final(self).finished(t)
                && final(self).result(t) is Some),
    {
        self.queue.try_tick()
    }

    /// Runs up to `max_tasks` queued jobs, oldest first; returns how many ran.
    pub fn tick_n(&mut self, max_tasks: usize) -> (completed: usize)
        requires
            old(self).wf(),
        ensures
            old(self).finished_kept(*final(self)),
            final(self).wf(),
            completed == if max_tasks < old(self).pending_tasks().len() {
                max_tasks as int
            } else {
                old(self).pending_tasks().len() as int
            },
            final(self).pending_tasks() == old(self).pending_tasks().skip(completed as int),
            final(self).pending_jobs() == old(self).pending_jobs().skip(completed as int),
            final(self).task_count() == old(self).task_count(),
            forall|t: nat| #[trigger]
                final(self).spawned_job(t) == old(self).spawned_job(t),
            forall|t: nat|
                t < old(self).task_count() ==> #[trigger] final(self).finished(t) == (old(
                    self).finished(t) || old(self).pending_tasks().take(completed as int).contains(
                    Some(t),
                )),
            forall|t: nat|
                t < old(self).task_count() && old(self).finished(t) ==> #[trigger] final(
                    self).result(t) == old(self).result(t),
            forall|t: nat|
                t < old(self).task_count() && #[trigger] final(self).finished(t) && !old(
                    self).finished(t) ==> final(self).result(t) is Some,
    {
        self.queue.tick_n(max_tasks)
    }

    /// Runs every queued job; returns how many ran.
    pub fn tick_until_empty(&mut self) -> (completed: usize)
        requires
            old(self).wf(),
        ensures
            old(self).finished_kept(*final(self)),
            final(self).wf(),
            completed == old(self).pending_tasks().len(),
            final(self).pending_tasks() == Seq::<Option<nat>>::empty(),
            final(self).task_count() == old(self).task_count(),
            forall|t: nat| #[trigger]
                final(self).spawned_job(t) == old(self).spawned_job(t),
            forall|t: nat| t < old(self).task_count() ==> #[trigger] final(self).finished(t),
            forall|t: nat|
                t < old(self).task_count() && old(self).finished(t) ==> #[trigger] final(
                    self).result(t) == old(self).result(t),
            forall|t: nat|
                t < old(self).task_count() && !old(self).finished(t) ==> #[trigger] final(
                    self).result(t) is Some,
    {
        self.queue.tick_until_empty()
    }

    /// Number of queued jobs, detached ones included.
    pub fn queued_len(&self) -> (len: usize)
        ensures
            len == self.pending_tasks().len(),
    {
        self.queue.queued_len()
    }

    pub fn backend_kind(&self) -> (kind: TaskPoolBackendKind)
        ensures
            kind == self.spec_backend_kind(),
    {
        TaskPoolBackendKind::Manual
    }

    /// How many tasks run at once: the manual backend runs one at a time.
    pub fn max_concurrent_tasks(&self) -> (limit: usize)
        ensures
            limit == 1,
    {
        1
    }
}

/// A spawned task runs only when the pool is ticked: right after `spawn` it
/// has neither run nor a value, and once every queued job has run it has
/// run and holds a value its closure can return.
pub proof fn lemma_spawned_task_runs_when_ticked<T, F: FnOnce() -> T>(
    spawned: TaskPool<T, F>,
    ticked: TaskPool<T, F>,
    task: Task<T>,
    job: F,
)
    requires
        spawned.wf(),
        ticked.wf(),
        spawned.owns(task),
        spawned.spawned_job(task.spec_id()) == job,
        !spawned.finished(task.spec_id()),
        ticked.task_count() == spawned.task_count(),
        forall|t: nat| #[trigger] ticked.spawned_job(t) == spawned.spawned_job(t),
        forall|t: nat| t < spawned.task_count() ==> #[trigger] ticked.finished(t),
        forall|t: nat| t < spawned.task_count() && !spawned.finished(t) ==> #[trigger] ticked.result(t) is Some,
    ensures
        spawned.result(task.spec_id()) is None,
        ticked.finished(task.spec_id()),
        ticked.result(task.spec_id()) is Some,
        call_ensures(job, (), ticked.result(task.spec_id())->0),
{
    spawned.lemma_no_result_before_finished(task.spec_id());
    ticked.lemma_result_comes_from_job(task.spec_id());
}

/// A task that has run stays run: along any sequence of pool operations,
/// each of which keeps finished tasks finished, the first state's finished
/// tasks are finished in the last.
pub proof fn lemma_finished_stays_finished<T, F: FnOnce() -> T>(states: Seq<TaskPool<T, F>>, task: Task<T>)
    requires
        states.len() >= 1,
        forall|i: int| 0 <= i < states.len() - 1 ==> (#[trigger] states[i]).finished_kept(states[i + 1]),
        states[0].owns(task),
        states[0].finished(task.spec_id()),
    ensures
        forall|i: int| 0 <= i < states.len() ==> (#[trigger] states[i]).owns(task) && states[i].finished(task.spec_id()),
    decreases states.len(),
{
    if states.len() > 1 {
        let front = states.drop_last();
        lemma_finished_stays_finished(front, task);
        assert forall|i: int| 0 <= i < states.len() implies (#[trigger] states[i]).owns(task) && states[i].finished(task.spec_id()) by {
            if i < states.len() - 1 {
                assert(states[i] == front[i]);
            } else {
                assert(front[i - 1] == states[i - 1]);
                assert(states[i - 1].finished_kept(states[i]));
            }
        }
    }
}

/// Naming the threads changes nothing in the pool a builder builds: the
/// backend (and so whether it can be built), the thread count, the task cap
/// and the task limit all stay as they were.
pub proof fn lemma_thread_name_is_inert(builder: TaskPoolBuilder, named: TaskPoolBuilder, name: Seq<char>)
    requires
        named.spec_backend() == builder.spec_backend(),
        named.spec_num_threads() == builder.spec_num_threads(),
        named.spec_thread_name() == Some(name),
        named.spec_max_concurrent_tasks() == builder.spec_max_concurrent_tasks(),
    ensures
        backend_is_available(named.spec_backend()) == backend_is_available(builder.spec_backend()),
        named.spec_rayon_task_limit() == builder.spec_rayon_task_limit(),
{
}

impl TaskPool<(), ()> {
    /// A builder with default settings.
    pub fn builder() -> (builder: TaskPoolBuilder)
        ensures
            builder.spec_backend() == TaskPoolBackendKind::Manual,
            builder.spec_num_threads() is None,
            builder.spec_thread_name() is None,
            builder.spec_max_concurrent_tasks() is None,
    {
        TaskPoolBuilder::new()
    }
}

impl<T> Task<T> {
    /// Moves the task's value out, if it has run and the value was not taken
    /// before; the task stays finished.
    pub fn take_result<F: FnOnce() -> T>(&mut self, pool: &mut TaskPool<T, F>) -> (result: Option<T>)
        requires
            old(pool).wf(),
            old(pool).owns(*old(self)),
        ensures
            old(pool).finished_kept(*final(pool)),
            *final(self) == *old(self),
            final(pool).wf(),
            result == old(pool).result(old(self).spec_id()),
            final(pool).result(old(self).spec_id()) is None,
            final(pool).pending_tasks() == old(pool).pending_tasks(),
            final(pool).pending_jobs() == old(pool).pending_jobs(),
            final(pool).task_count() == old(pool).task_count(),
            forall|t: nat| #[trigger]
                final(pool).spawned_job(t) == old(pool).spawned_job(t),
            forall|t: nat|
                t < old(pool).task_count() ==> #[trigger] final(pool).finished(t) == old(
                    pool).finished(t),
            forall|t: nat|
                t < old(pool).task_count() && t != old(self).spec_id() ==> #[trigger] final(
                    pool).result(t) == old(pool).result(t),
    {
        pool.queue.take_task_result(self.id)
    }

    /// Whether the task has a value waiting to be taken.
    pub fn has_result<F: FnOnce() -> T>(&self, pool: &TaskPool<T, F>) -> (has: bool)
        requires
            pool.wf(),
            pool.owns(*self),
        ensures
            has == pool.result(self.spec_id()) is Some,
    {
        pool.queue.task_has_result(self.id)
    }

    /// Whether the task has run.
    pub fn is_finished<F: FnOnce() -> T>(&self, pool: &TaskPool<T, F>) -> (finished: bool)
        requires
            pool.wf(),
            pool.owns(*self),
        ensures
            finished == pool.finished(self.spec_id()),
    {
        pool.queue.task_is_finished(self.id)
    }

    /// Gives up the handle. The pool is not touched: the job stays queued
    /// and runs, once, when its turn comes.
    pub fn detach(self) {
    }
}

impl<T, F: FnOnce() -> T> ManualTaskQueue<T, F> {
    fn take_task_result(&mut self, id: usize) -> (result: Option<T>)
        requires
            old(self).wf(),
            id < old(self).task_count(),
        ensures
            final(self).wf(),
            result == old(self).result(id as nat),
            final(self).result(id as nat) is None,
            final(self).pending_tasks() == old(self).pending_tasks(),
            final(self).pending_jobs() == old(self).pending_jobs(),
            final(self).task_count() == old(self).task_count(),
            forall|t: nat| #[trigger]
                final(self).spawned_job(t) == old(self).spawned_job(t),
            forall|t: nat|
                t < old(self).task_count() ==> #[trigger] final(self).finished(t) == old(
                    self).finished(t),
            forall|t: nat|
                t < old(self).task_count() && t != id ==> #[trigger] final(self).result(t)
                    == old(self).result(t),
    {
        let result = self.tasks[id].take();
        proof {
            assert(self.pending_tasks() =~= old(self).pending_tasks());
            assert(self.pending_jobs() =~= old(self).pending_jobs());
        }
        result
    }

    fn task_has_result(&self, id: usize) -> (has: bool)
        requires
            id < self.task_count(),
        ensures
            has == self.result(id as nat) is Some,
    {
        self.tasks[id].result.is_some()
    }

    fn task_is_finished(&self, id: usize) -> (finished: bool)
        requires
            id < self.task_count(),
        ensures
            finished == self.finished(id as nat),
    {
        self.tasks[id].finished
    }
}

} // verus!
