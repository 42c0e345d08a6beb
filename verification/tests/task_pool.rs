use jlh_maps::app_task_pool::AppTaskPool;
use jlh_maps::task_pool::{
    background_task_limit, backend_available, ManualTaskQueue, RayonTaskQueue, TaskPool,
    TaskPoolBackendKind, TaskPoolBuilder,
};

type Job = fn() -> i32;

fn manual_pool() -> TaskPool<i32, Job> {
    TaskPool::builder().backend(TaskPoolBackendKind::Manual).build()
}

#[test]
fn manual_backend_defers_work_until_ticked() {
    let mut pool = manual_pool();
    let mut task = pool.spawn(|| 42);

    assert_eq!(pool.queued_len(), 1);
    assert!(!task.is_finished(&pool));
    assert_eq!(pool.tick_n(1), 1);
    assert!(task.is_finished(&pool));
    assert!(task.has_result(&pool));
    assert_eq!(task.take_result(&mut pool), Some(42));
    assert!(task.is_finished(&pool));
    assert!(!task.has_result(&pool));
}

#[test]
fn manual_backend_ticks_bounded_work() {
    let mut pool = manual_pool();
    let mut a = pool.spawn(|| 1);
    let mut b = pool.spawn(|| 2);

    assert_eq!(pool.tick_n(1), 1);
    assert_eq!(pool.queued_len(), 1);
    assert_eq!(a.take_result(&mut pool), Some(1));
    assert_eq!(b.take_result(&mut pool), None);

    assert_eq!(pool.tick_until_empty(), 1);
    assert_eq!(b.take_result(&mut pool), Some(2));
}

#[test]
fn jobs_run_in_spawn_order() {
    let mut pool = manual_pool();
    let a = pool.spawn(|| 10);
    let b = pool.spawn(|| 20);
    let c = pool.spawn(|| 30);
    assert!(pool.try_tick());
    assert!(a.is_finished(&pool));
    assert!(!b.is_finished(&pool));
    assert!(!c.is_finished(&pool));
    assert_eq!(pool.tick_n(5), 2);
    assert!(c.is_finished(&pool));
    assert!(!pool.try_tick());
    assert_eq!(pool.queued_len(), 0);
}

#[test]
fn detached_work_still_runs() {
    let mut pool = manual_pool();
    pool.spawn_detached(|| 7);
    let task = pool.spawn(|| 8);
    task.detach();
    assert_eq!(pool.queued_len(), 2);
    assert_eq!(pool.tick_until_empty(), 2);
    assert_eq!(pool.queued_len(), 0);
}

#[test]
fn ticking_an_empty_pool_does_nothing() {
    let mut pool = manual_pool();
    assert!(!pool.try_tick());
    assert_eq!(pool.tick_n(3), 0);
    assert_eq!(pool.tick_until_empty(), 0);
}

#[test]
fn manual_pool_reports_its_backend_and_limit() {
    let pool = manual_pool();
    assert_eq!(pool.backend_kind(), TaskPoolBackendKind::Manual);
    assert_eq!(pool.max_concurrent_tasks(), 1);
}

#[test]
fn only_the_manual_backend_is_available() {
    assert!(backend_available(TaskPoolBackendKind::Manual));
    assert!(!backend_available(TaskPoolBackendKind::Rayon));
}

#[test]
fn background_limit_keeps_at_least_one_worker() {
    assert_eq!(background_task_limit(8, 2), 6);
    assert_eq!(background_task_limit(2, 2), 1);
    assert_eq!(background_task_limit(1, 5), 1);
    assert_eq!(background_task_limit(0, 0), 1);
}

#[test]
fn builder_keeps_settings() {
    let builder = TaskPoolBuilder::new()
        .num_threads(4)
        .thread_name("worker")
        .max_concurrent_tasks(3);
    let pool: TaskPool<i32, Job> = builder.build();
    assert_eq!(pool.backend_kind(), TaskPoolBackendKind::Manual);
    assert_eq!(TaskPoolBuilder::default().backend(TaskPoolBackendKind::Manual).rayon_task_limit(), 1);
}

#[test]
fn manual_queue_runs_front_first() {
    let mut queue: ManualTaskQueue<i32, Job> = ManualTaskQueue::new();
    assert_eq!(queue.queued_len(), 0);
    assert!(!queue.try_tick());
}

#[test]
fn rayon_queue_caps_running_jobs() {
    let mut queue: RayonTaskQueue<u32> = RayonTaskQueue::new(2);
    assert_eq!(queue.max_concurrent_tasks(), 2);
    assert_eq!(queue.push(1), vec![1]);
    assert_eq!(queue.push(2), vec![2]);
    assert_eq!(queue.push(3), Vec::<u32>::new());
    assert_eq!(queue.queued_len(), 1);
    assert_eq!(queue.task_finished(), vec![3]);
    assert_eq!(queue.queued_len(), 0);
    assert_eq!(queue.task_finished(), Vec::<u32>::new());
}

#[test]
fn app_pool_uses_the_manual_backend_here() {
    let mut app_pool: AppTaskPool<i32, Job> = AppTaskPool::new();
    assert_eq!(app_pool.pool().backend_kind(), TaskPoolBackendKind::Manual);
    let mut task = app_pool.pool_mut().spawn(|| 5);
    assert_eq!(app_pool.pool_mut().tick_until_empty(), 1);
    assert_eq!(task.take_result(app_pool.pool_mut()), Some(5));
}

#[test]
fn thread_names_do_not_change_the_built_pool() {
    let named: TaskPool<i32, Job> = TaskPoolBuilder::new().thread_name("w").build();
    let plain: TaskPool<i32, Job> = TaskPoolBuilder::new().build();
    assert_eq!(named.backend_kind(), plain.backend_kind());
    assert_eq!(named.backend_kind(), TaskPoolBackendKind::Manual);
    assert_eq!(named.max_concurrent_tasks(), 1);
    assert_eq!(named.queued_len(), 0);
    assert_eq!(plain.queued_len(), 0);
}
