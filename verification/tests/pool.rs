use http_rs::pool::{JobOutcome, PoolError, Step, WorkerPool, WorkerState};

fn pool_of(workers: usize) -> WorkerPool<u32> {
    WorkerPool::new(workers).unwrap()
}

#[test]
fn pool_needs_a_worker() {
    let got: Result<WorkerPool<u32>, PoolError> = WorkerPool::new(0);
    assert_eq!(got.err(), Some(PoolError::NoWorkers));
    for workers in [1, 2, 8, 100] {
        let pool = pool_of(workers);
        assert_eq!(pool.workers(), workers);
        assert_eq!(pool.pending(), 0);
        assert!(!pool.is_closed());
        assert!(!pool.is_terminated());
        assert_eq!(pool.failures(), 0);
        assert_eq!(pool.worker_state(0), Some(WorkerState::Idle));
        assert_eq!(pool.worker_state(workers - 1), Some(WorkerState::Idle));
        assert_eq!(pool.worker_state(workers), None);
    }
}

#[test]
fn jobs_leave_in_the_order_they_came() {
    let mut pool = pool_of(2);
    for job in [10, 20, 30] {
        assert_eq!(pool.submit(job), Ok(()));
    }
    assert_eq!(pool.pending(), 3);
    assert!(matches!(pool.next_step(0), Step::Run(10)));
    assert!(matches!(pool.next_step(1), Step::Run(20)));
    assert_eq!(pool.worker_state(0), Some(WorkerState::Busy));
    assert_eq!(pool.pending(), 1);
    assert!(pool.finish_job(1, JobOutcome::Completed));
    assert!(matches!(pool.next_step(1), Step::Run(30)));
    assert_eq!(pool.pending(), 0);
}

#[test]
fn an_idle_worker_of_an_open_pool_waits() {
    let mut pool = pool_of(1);
    assert!(matches!(pool.next_step(0), Step::Wait));
    assert_eq!(pool.worker_state(0), Some(WorkerState::Idle));
    assert_eq!(pool.submit(7), Ok(()));
    assert!(matches!(pool.next_step(0), Step::Run(7)));
}

#[test]
fn every_job_is_handed_out_exactly_once() {
    for workers in 1..5usize {
        let mut pool = pool_of(workers);
        let jobs: Vec<u32> = (0..23).collect();
        for &job in &jobs {
            assert_eq!(pool.submit(job), Ok(()));
        }
        pool.close();
        let mut ran: Vec<u32> = Vec::new();
        let mut turn = 0;
        while !pool.is_terminated() {
            match pool.next_step(turn % workers) {
                Step::Run(job) => ran.push(job),
                Step::Wait => panic!("a closed pool lets no worker wait"),
                Step::Exit => {}
            }
            turn += 1;
            assert!(turn < 1000);
        }
        assert_eq!(ran, jobs);
        assert_eq!(pool.pending(), 0);
    }
}

#[test]
fn a_closed_pool_takes_no_job() {
    let mut pool = pool_of(1);
    assert_eq!(pool.submit(1), Ok(()));
    pool.close();
    assert!(pool.is_closed());
    assert_eq!(pool.submit(2), Err((PoolError::Closed, 2)));
    assert_eq!(pool.pending(), 1);
    assert!(matches!(pool.next_step(0), Step::Run(1)));
    assert!(matches!(pool.next_step(0), Step::Exit));
    assert!(pool.is_terminated());
    assert_eq!(pool.submit(3), Err((PoolError::Closed, 3)));
    assert_eq!(pool.pending(), 0);
}

#[test]
fn closing_twice_changes_nothing() {
    let mut pool = pool_of(2);
    assert_eq!(pool.submit(1), Ok(()));
    pool.close();
    pool.close();
    assert!(pool.is_closed());
    assert_eq!(pool.pending(), 1);
    assert_eq!(pool.worker_state(0), Some(WorkerState::Idle));
    assert_eq!(pool.worker_state(1), Some(WorkerState::Idle));
}

#[test]
fn a_closed_pool_still_hands_out_what_waits() {
    let mut pool = pool_of(2);
    assert_eq!(pool.submit(1), Ok(()));
    assert_eq!(pool.submit(2), Ok(()));
    pool.close();
    assert!(matches!(pool.next_step(0), Step::Run(1)));
    assert!(matches!(pool.next_step(1), Step::Run(2)));
    assert!(!pool.is_terminated());
    assert!(matches!(pool.next_step(0), Step::Exit));
    assert!(!pool.is_terminated());
    assert!(matches!(pool.next_step(1), Step::Exit));
    assert!(pool.is_terminated());
    assert_eq!(pool.worker_state(0), Some(WorkerState::Gone));
}

#[test]
fn a_failed_job_leaves_its_worker_in_the_pool() {
    let mut pool = pool_of(1);
    assert_eq!(pool.submit(1), Ok(()));
    assert!(matches!(pool.next_step(0), Step::Run(1)));
    assert!(pool.finish_job(0, JobOutcome::Failed));
    assert_eq!(pool.failures(), 1);
    assert_eq!(pool.worker_state(0), Some(WorkerState::Idle));
    assert_eq!(pool.submit(2), Ok(()));
    assert!(matches!(pool.next_step(0), Step::Run(2)));
    assert!(pool.finish_job(0, JobOutcome::Completed));
    assert_eq!(pool.failures(), 1);
    assert!(!pool.is_closed());
}

#[test]
fn only_a_busy_worker_comes_back_from_a_job() {
    let mut pool = pool_of(2);
    assert!(!pool.finish_job(0, JobOutcome::Failed));
    assert!(!pool.finish_job(2, JobOutcome::Failed));
    assert_eq!(pool.failures(), 0);
    pool.close();
    assert!(matches!(pool.next_step(1), Step::Exit));
    assert!(!pool.finish_job(1, JobOutcome::Completed));
    assert_eq!(pool.worker_state(1), Some(WorkerState::Gone));
}

#[test]
fn a_stranger_or_a_gone_worker_is_told_to_leave() {
    let mut pool = pool_of(1);
    assert_eq!(pool.submit(1), Ok(()));
    assert!(matches!(pool.next_step(1), Step::Exit));
    assert!(matches!(pool.next_step(usize::MAX), Step::Exit));
    assert_eq!(pool.pending(), 1);
    pool.close();
    assert!(matches!(pool.next_step(0), Step::Run(1)));
    assert!(matches!(pool.next_step(0), Step::Exit));
    assert!(matches!(pool.next_step(0), Step::Exit));
    assert!(pool.is_terminated());
}

#[test]
fn jobs_need_not_be_comparable() {
    let mut pool: WorkerPool<Box<dyn FnOnce() -> u32>> = WorkerPool::new(1).unwrap();
    assert!(pool.submit(Box::new(|| 42)).is_ok());
    match pool.next_step(0) {
        Step::Run(job) => assert_eq!(job(), 42),
        _ => panic!("the job was not handed out"),
    }
}
