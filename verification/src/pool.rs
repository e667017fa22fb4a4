//! The bookkeeping of a pool of workers that run jobs from one shared queue.
//!
//! The pool here holds no thread. It is the state that the threads of a pool
//! share, and the rules by which that state changes: who submits a job
//! calls [`WorkerPool::submit`], and each worker asks
//! [`WorkerPool::next_step`] what to do next and does it. Whoever drives the
//! workers keeps the pool behind a lock, lets a worker that was told to wait
//! sleep until a job is submitted or the pool is closed, and runs jobs
//! outside the lock.

use std::collections::VecDeque;
use vstd::prelude::*;

verus! {

/// Why the pool refused.
#[derive(Debug, Clone, Copy, PartialEq, Eq, Structural)]
pub enum PoolError {
    /// A pool needs at least one worker.
    NoWorkers,
    /// The pool is closed and takes no more jobs.
    Closed,
}

/// What a worker of the pool is doing.
#[derive(Debug, Clone, Copy, PartialEq, Eq, Structural)]
pub enum WorkerState {
    /// It waits for a job.
    Idle,
    /// It was handed a job and has not come back from it.
    Busy,
    /// It was told to leave.
    Gone,
}

/// How a job ended.
#[derive(Debug, Clone, Copy, PartialEq, Eq, Structural)]
pub enum JobOutcome {
    Completed,
    Failed,
}

/// What a worker is to do next.
#[derive(Debug)]
pub enum Step<J> {
    /// Run this job, then ask again.
    Run(J),
    /// There is nothing to do: sleep until the pool changes, then ask again.
    Wait,
    /// Leave: the pool has no more work for this worker, and never will.
    Exit,
}

/// The state of a pool, with the history of its jobs.
pub struct PoolView<J> {
    /// The state of each worker; a worker is known by its place here.
    pub workers: Seq<WorkerState>,
    /// The jobs that wait, the oldest first.
    pub queue: Seq<J>,
    /// Whether the pool has stopped taking jobs.
    pub closed: bool,
    /// Every job that was ever taken in, in the order of submission.
    pub accepted: Seq<J>,
    /// Every job that was ever handed to a worker, in the order of handing out.
    pub started: Seq<J>,
    /// How many jobs workers have come back from.
    pub finished: nat,
    /// How many of those had failed, as far as the tally reaches.
    pub failed: u64,
}

/// How many workers are busy.
pub open spec fn busy_count(workers: Seq<WorkerState>) -> nat
    decreases workers.len(),
{
    if workers.len() == 0 {
        0
    } else {
        busy_count(workers.drop_last()) + if workers.last() is Busy {
            1nat
        } else {
            0nat
        }
    }
}

/// The failure tally after one more job: it stops at its largest value.
pub open spec fn tally(failed: u64, outcome: JobOutcome) -> u64 {
    if outcome is Failed && failed < u64::MAX {
        (failed + 1) as u64
    } else {
        failed
    }
}

impl<J> PoolView<J> {
    /// A pool of `n` idle workers that has seen no job.
    pub open spec fn fresh(n: nat) -> PoolView<J> {
        PoolView {
            workers: Seq::new(n, |i: int| WorkerState::Idle),
            queue: Seq::empty(),
            closed: false,
            accepted: Seq::empty(),
            started: Seq::empty(),
            finished: 0,
            failed: 0,
        }
    }

    /// What holds of a pool at all times.
    ///
    /// The jobs handed out, followed by the jobs that wait, are the jobs
    /// taken in: none is lost, none is handed out twice, and they leave in
    /// the order in which they came. Each job handed out is finished or is
    /// with one busy worker. And no worker has left while the pool was open
    /// or a job was waiting.
    pub open spec fn wf(self) -> bool {
        &&& self.workers.len() >= 1
        &&& self.accepted == self.started + self.queue
        &&& self.started.len() == self.finished + busy_count(self.workers)
        &&& self.failed <= self.finished
        &&& forall|w: int|
            0 <= w < self.workers.len() && (#[trigger] self.workers[w]) is Gone ==> self.closed
                && self.queue.len() == 0
    }

    /// Whether every worker has left.
    pub open spec fn terminated(self) -> bool {
        forall|w: int| 0 <= w < self.workers.len() ==> (#[trigger] self.workers[w]) is Gone
    }

    /// Whether `worker` is a worker of this pool in state `state`.
    pub open spec fn worker_is(self, worker: int, state: WorkerState) -> bool {
        0 <= worker < self.workers.len() && self.workers[worker] == state
    }

    /// The pool after `job` was submitted: an open pool puts it last in the
    /// queue, a closed pool does not change.
    pub open spec fn submit(self, job: J) -> PoolView<J> {
        if self.closed {
            self
        } else {
            PoolView { queue: self.queue.push(job), accepted: self.accepted.push(job), ..self }
        }
    }

    /// The pool after it was closed.
    pub open spec fn close(self) -> PoolView<J> {
        PoolView { closed: true, ..self }
    }

    /// The pool after `worker` came back from its job: a busy worker is idle
    /// again, whatever the outcome. For any other worker nothing changes.
    pub open spec fn finish(self, worker: int, outcome: JobOutcome) -> PoolView<J> {
        if self.worker_is(worker, WorkerState::Busy) {
            PoolView {
                workers: self.workers.update(worker, WorkerState::Idle),
                finished: self.finished + 1,
                failed: tally(self.failed, outcome),
                ..self
            }
        } else {
            self
        }
    }

    /// What an idle `worker` is told: to run the oldest waiting job; with no
    /// job waiting, to leave if the pool is closed and to wait if it is not.
    /// A worker that has left, or that the pool does not know, is told to leave.
    pub open spec fn step_of_idle(self, worker: int) -> Step<J> {
        if !self.worker_is(worker, WorkerState::Idle) {
            Step::Exit
        } else if self.queue.len() > 0 {
            Step::Run(self.queue.first())
        } else if self.closed {
            Step::Exit
        } else {
            Step::Wait
        }
    }

    /// The pool after an idle `worker` was told its step.
    pub open spec fn after_step_of_idle(self, worker: int) -> PoolView<J> {
        if !self.worker_is(worker, WorkerState::Idle) {
            self
        } else if self.queue.len() > 0 {
            PoolView {
                workers: self.workers.update(worker, WorkerState::Busy),
                queue: self.queue.drop_first(),
                started: self.started.push(self.queue.first()),
                ..self
            }
        } else if self.closed {
            PoolView { workers: self.workers.update(worker, WorkerState::Gone), ..self }
        } else {
            self
        }
    }

    /// What `worker` is told when it asks what to do next. A busy worker
    /// that asks has come back from its job.
    pub open spec fn step(self, worker: int) -> Step<J> {
        self.finish(worker, JobOutcome::Completed).step_of_idle(worker)
    }

    /// The pool after `worker` asked what to do next.
    pub open spec fn after_step(self, worker: int) -> PoolView<J> {
        self.finish(worker, JobOutcome::Completed).after_step_of_idle(worker)
    }
}

/// Changing one worker's state changes the number of busy workers by what
/// that worker adds to it.
pub proof fn lemma_busy_count_update(workers: Seq<WorkerState>, worker: int, state: WorkerState)
    requires
        0 <= worker < workers.len(),
    ensures
        busy_count(workers.update(worker, state)) + (if workers[worker] is Busy {
            1nat
        } else {
            0nat
        }) == busy_count(workers) + (if state is Busy {
            1nat
        } else {
            0nat
        }),
    decreases workers.len(),
{
    let changed = workers.update(worker, state);
    if worker == workers.len() - 1 {
        assert(changed.drop_last() == workers.drop_last());
    } else {
        assert(changed.drop_last() == workers.drop_last().update(worker, state));
        lemma_busy_count_update(workers.drop_last(), worker, state);
    }
}

/// Where no worker is busy, the number of busy workers is zero.
pub proof fn lemma_busy_count_zero(workers: Seq<WorkerState>)
    requires
        forall|w: int| 0 <= w < workers.len() ==> !((#[trigger] workers[w]) is Busy),
    ensures
        busy_count(workers) == 0,
    decreases workers.len(),
{
    if workers.len() > 0 {
        assert forall|w: int| 0 <= w < workers.drop_last().len() implies !((
        #[trigger] workers.drop_last()[w]) is Busy) by {
            assert(workers.drop_last()[w] == workers[w]);
        }
        lemma_busy_count_zero(workers.drop_last());
    }
}


/// The state that the threads of a worker pool share. `J` is what a job is
/// to whoever runs it; the pool only keeps jobs and hands them out.
pub struct WorkerPool<J> {
    workers: Vec<WorkerState>,
    queue: VecDeque<J>,
    closed: bool,
    failed: u64,
    accepted: Ghost<Seq<J>>,
    started: Ghost<Seq<J>>,
    finished: Ghost<nat>,
}

impl<J> View for WorkerPool<J> {
    type V = PoolView<J>;

    closed spec fn view(&self) -> PoolView<J> {
        PoolView {
            workers: self.workers@,
            queue: self.queue@,
            closed: self.closed,
            accepted: self.accepted@,
            started: self.started@,
            finished: self.finished@,
            failed: self.failed,
        }
    }
}

impl<J> WorkerPool<J> {
    /// A pool of `workers` idle workers, known by the numbers from zero up.
    /// A pool without workers is refused.
    pub fn new(workers: usize) -> (r: Result<WorkerPool<J>, PoolError>)
        ensures
            match r {
                Ok(pool) => workers >= 1 && pool@ == PoolView::<J>::fresh(workers as nat) && pool@.wf(),
                Err(e) => workers == 0 && e == PoolError::NoWorkers,
            },
    {
        if workers == 0 {
            return Err(PoolError::NoWorkers);
        }
        let mut states: Vec<WorkerState> = Vec::new();
        while states.len() < workers
            invariant
                states@.len() <= workers,
                forall|i: int| 0 <= i < states@.len() ==> states@[i] == WorkerState::Idle,
            decreases workers - states@.len(),
        {
            states.push(WorkerState::Idle);
        }
        let pool = WorkerPool {
            workers: states,
            queue: VecDeque::new(),
            closed: false,
            failed: 0,
            accepted: Ghost(Seq::empty()),
            started: Ghost(Seq::empty()),
            finished: Ghost(0),
        };
        proof {
            assert(pool@.workers == PoolView::<J>::fresh(workers as nat).workers);
            lemma_fresh_is_wf::<J>(workers as nat);
        }
        Ok(pool)
    }

    /// Puts `job` last in the queue. A closed pool takes no job: it hands
    /// `job` back and does not change.
    pub fn submit(&mut self, job: J) -> (r: Result<(), (PoolError, J)>)
        ensures
            final(self)@ == old(self)@.submit(job),
            r == if old(self)@.closed {
                Err::<(), (PoolError, J)>((PoolError::Closed, job))
            } else {
                Ok::<(), (PoolError, J)>(())
            },
            old(self)@.wf() ==> final(self)@.wf(),
    {
        proof {
            if self@.wf() {
                lemma_submit_keeps_wf(self@, job);
            }
        }
        if self.closed {
            return Err((PoolError::Closed, job));
        }
        self.accepted = Ghost(self.accepted@.push(job));
        self.queue.push_back(job);
        Ok(())
    }

    /// Closes the pool: from now on it takes no job. The jobs that wait are
    /// still handed out. Closing a closed pool changes nothing.
    pub fn close(&mut self)
        ensures
            final(self)@ == old(self)@.close(),
            old(self)@.wf() ==> final(self)@.wf(),
    {
        self.closed = true;
    }

    /// Records that `worker` came back from its job with `outcome`. The
    /// worker is idle again; a failed job costs the pool nothing but a mark
    /// in the tally. Returns whether `worker` was busy: if it was not,
    /// nothing changes.
    pub fn finish_job(&mut self, worker: usize, outcome: JobOutcome) -> (r: bool)
        ensures
            final(self)@ == old(self)@.finish(worker as int, outcome),
            r == old(self)@.worker_is(worker as int, WorkerState::Busy),
            old(self)@.wf() ==> final(self)@.wf(),
    {
        proof {
            if self@.wf() {
                lemma_finish_keeps_wf(self@, worker as int, outcome);
            }
        }
        if worker >= self.workers.len() {
            return false;
        }
        match self.workers[worker] {
            WorkerState::Busy => {},
            _ => {
                return false;
            },
        }
        self.workers[worker] = WorkerState::Idle;
        self.finished = Ghost(self.finished@ + 1);
        match outcome {
            JobOutcome::Failed => {
                if self.failed < u64::MAX {
                    self.failed = self.failed + 1;
                }
            },
            JobOutcome::Completed => {},
        }
        true
    }

    /// Tells `worker` what to do next, and records it. A busy worker that
    /// asks has come back from its job.
    pub fn next_step(&mut self, worker: usize) -> (r: Step<J>)
        ensures
            final(self)@ == old(self)@.after_step(worker as int),
            r == old(self)@.step(worker as int),
            old(self)@.wf() ==> final(self)@.wf(),
    {
        proof {
            if self@.wf() {
                lemma_step_keeps_wf(self@, worker as int);
            }
        }
        self.finish_job(worker, JobOutcome::Completed);
        if worker >= self.workers.len() {
            return Step::Exit;
        }
        match self.workers[worker] {
            WorkerState::Idle => {},
            _ => {
                return Step::Exit;
            },
        }
        match self.queue.pop_front() {
            Some(job) => {
                self.workers[worker] = WorkerState::Busy;
                self.started = Ghost(self.started@.push(job));
                Step::Run(job)
            },
            None => {
                if self.closed {
                    self.workers[worker] = WorkerState::Gone;
                    Step::Exit
                } else {
                    Step::Wait
                }
            },
        }
    }

    /// Whether every worker has left.
    pub fn is_terminated(&self) -> (r: bool)
        ensures
            r == self@.terminated(),
    {
        let mut i: usize = 0;
        while i < self.workers.len()
            invariant
                i <= self.workers@.len(),
                forall|w: int| 0 <= w < i ==> (#[trigger] self.workers@[w]) is Gone,
            decreases self.workers@.len() - i,
        {
            match self.workers[i] {
                WorkerState::Gone => {},
                _ => {
                    return false;
                },
            }
            i = i + 1;
        }
        true
    }

    /// Whether the pool has stopped taking jobs.
    pub fn is_closed(&self) -> (r: bool)
        ensures
            r == self@.closed,
    {
        self.closed
    }

    /// The number of workers, gone ones included.
    pub fn workers(&self) -> (r: usize)
        ensures
            r == self@.workers.len(),
    {
        self.workers.len()
    }

    /// The number of jobs that wait.
    pub fn pending(&self) -> (r: usize)
        ensures
            r == self@.queue.len(),
    {
        self.queue.len()
    }

    /// The number of jobs that failed, as far as the tally reaches.
    pub fn failures(&self) -> (r: u64)
        ensures
            r == self@.failed,
    {
        self.failed
    }

    /// What `worker` is doing, if the pool has such a worker.
    pub fn worker_state(&self, worker: usize) -> (r: Option<WorkerState>)
        ensures
            r == if worker < self@.workers.len() {
                Some(self@.workers[worker as int])
            } else {
                None
            },
    {
        if worker < self.workers.len() {
            Some(self.workers[worker])
        } else {
            None
        }
    }
}

/// A new pool with at least one worker is well formed.
pub proof fn lemma_fresh_is_wf<J>(n: nat)
    requires
        n >= 1,
    ensures
        PoolView::<J>::fresh(n).wf(),
{
    let pool = PoolView::<J>::fresh(n);
    lemma_busy_count_zero(pool.workers);
    assert(pool.accepted == pool.started + pool.queue);
}

/// Submitting a job keeps a pool well formed.
pub proof fn lemma_submit_keeps_wf<J>(pool: PoolView<J>, job: J)
    requires
        pool.wf(),
    ensures
        pool.submit(job).wf(),
{
    let after = pool.submit(job);
    if !pool.closed {
        assert(after.accepted == after.started + after.queue);
        assert forall|w: int| 0 <= w < after.workers.len() implies !((
        #[trigger] after.workers[w]) is Gone) by {
            assert(pool.workers[w] == after.workers[w]);
        }
    }
}

/// A worker that comes back from its job keeps a pool well formed.
pub proof fn lemma_finish_keeps_wf<J>(pool: PoolView<J>, worker: int, outcome: JobOutcome)
    requires
        pool.wf(),
    ensures
        pool.finish(worker, outcome).wf(),
{
    let after = pool.finish(worker, outcome);
    if pool.worker_is(worker, WorkerState::Busy) {
        lemma_busy_count_update(pool.workers, worker, WorkerState::Idle);
        assert forall|w: int|
            0 <= w < after.workers.len() && (#[trigger] after.workers[w]) is Gone implies after.closed
            && after.queue.len() == 0 by {
            assert(pool.workers[w] is Gone);
        }
    }
}

/// A worker that asks what to do next keeps a pool well formed.
pub proof fn lemma_step_keeps_wf<J>(pool: PoolView<J>, worker: int)
    requires
        pool.wf(),
    ensures
        pool.after_step(worker).wf(),
{
    lemma_finish_keeps_wf(pool, worker, JobOutcome::Completed);
    let idle = pool.finish(worker, JobOutcome::Completed);
    let after = idle.after_step_of_idle(worker);
    if idle.worker_is(worker, WorkerState::Idle) {
        if idle.queue.len() > 0 {
            lemma_busy_count_update(idle.workers, worker, WorkerState::Busy);
            assert(after.accepted == after.started + after.queue);
            assert forall|w: int| 0 <= w < after.workers.len() implies !((
            #[trigger] after.workers[w]) is Gone) by {
                if w != worker {
                    assert(idle.workers[w] == after.workers[w]);
                }
            }
        } else if idle.closed {
            lemma_busy_count_update(idle.workers, worker, WorkerState::Gone);
            assert forall|w: int|
                0 <= w < after.workers.len() && (#[trigger] after.workers[w]) is Gone implies after.closed
                && after.queue.len() == 0 by {}
        }
    }
}

} // verus!
