//! What holds of a pool after any history.
//!
//! A history is what happened to a pool since it was made, one event after
//! the other: jobs were submitted, workers asked what to do and came back
//! from jobs, the pool was closed. The statements here hold of every pool of
//! at least one worker and of every history, whatever the order of events.

use crate::pool::{
    lemma_busy_count_zero, lemma_finish_keeps_wf, lemma_fresh_is_wf, lemma_step_keeps_wf,
    lemma_submit_keeps_wf, JobOutcome, PoolView,
};
use vstd::prelude::*;

verus! {

/// Something that happens to a pool.
pub enum PoolEvent<J> {
    /// A job is submitted.
    Submit(J),
    /// The pool is closed.
    Close,
    /// The worker of this number asks what to do next.
    Ask(int),
    /// The worker of this number comes back from its job.
    Finish(int, JobOutcome),
}

/// The pool after one event.
pub open spec fn after_event<J>(pool: PoolView<J>, event: PoolEvent<J>) -> PoolView<J> {
    match event {
        PoolEvent::Submit(job) => pool.submit(job),
        PoolEvent::Close => pool.close(),
        PoolEvent::Ask(worker) => pool.after_step(worker),
        PoolEvent::Finish(worker, outcome) => pool.finish(worker, outcome),
    }
}

/// The pool after the events of `history`, starting from `pool`.
pub open spec fn after_history<J>(pool: PoolView<J>, history: Seq<PoolEvent<J>>) -> PoolView<J>
    decreases history.len(),
{
    if history.len() == 0 {
        pool
    } else {
        after_event(after_history(pool, history.drop_last()), history.last())
    }
}

/// Whether the pool is closed somewhere in `history`.
pub open spec fn closes<J>(history: Seq<PoolEvent<J>>) -> bool {
    exists|i: int| 0 <= i < history.len() && (#[trigger] history[i]) is Close
}

/// The jobs submitted in `history` before the pool is first closed, in the
/// order of submission.
pub open spec fn submitted_in_time<J>(history: Seq<PoolEvent<J>>) -> Seq<J>
    decreases history.len(),
{
    if history.len() == 0 {
        Seq::empty()
    } else {
        let earlier = submitted_in_time(history.drop_last());
        match history.last() {
            PoolEvent::Submit(job) => if closes(history.drop_last()) {
                earlier
            } else {
                earlier.push(job)
            },
            _ => earlier,
        }
    }
}

/// Whether two pools are the same but for the failure tally.
pub open spec fn same_but_tally<J>(a: PoolView<J>, b: PoolView<J>) -> bool {
    a == (PoolView { failed: a.failed, ..b })
}

/// An event keeps a pool well formed.
pub proof fn lemma_event_keeps_wf<J>(pool: PoolView<J>, event: PoolEvent<J>)
    requires
        pool.wf(),
    ensures
        after_event(pool, event).wf(),
{
    match event {
        PoolEvent::Submit(job) => lemma_submit_keeps_wf(pool, job),
        PoolEvent::Close => {},
        PoolEvent::Ask(worker) => lemma_step_keeps_wf(pool, worker),
        PoolEvent::Finish(worker, outcome) => lemma_finish_keeps_wf(pool, worker, outcome),
    }
}

/// A pool is well formed after every history.
pub proof fn lemma_history_keeps_wf<J>(workers: nat, history: Seq<PoolEvent<J>>)
    requires
        workers >= 1,
    ensures
        after_history(PoolView::fresh(workers), history).wf(),
    decreases history.len(),
{
    if history.len() == 0 {
        lemma_fresh_is_wf::<J>(workers);
    } else {
        lemma_history_keeps_wf(workers, history.drop_last());
        lemma_event_keeps_wf(
            after_history(PoolView::fresh(workers), history.drop_last()),
            history.last(),
        );
    }
}

/// A pool is closed exactly if its history closes it, and the jobs it has
/// taken in are those submitted before that.
pub proof fn lemma_history_of_accepted<J>(workers: nat, history: Seq<PoolEvent<J>>)
    ensures
        after_history(PoolView::fresh(workers), history).closed == closes(history),
        after_history(PoolView::fresh(workers), history).accepted == submitted_in_time(history),
    decreases history.len(),
{
    if history.len() > 0 {
        let earlier = history.drop_last();
        lemma_history_of_accepted(workers, earlier);
        if closes(earlier) {
            let i = choose|i: int| 0 <= i < earlier.len() && (#[trigger] earlier[i]) is Close;
            assert(history[i] is Close);
        }
        if history.last() is Close {
            assert(history[history.len() - 1] is Close);
        }
        if closes(history) && !(history.last() is Close) {
            let i = choose|i: int| 0 <= i < history.len() && (#[trigger] history[i]) is Close;
            assert(earlier[i] is Close);
        }
    }
}

/// Every job is run exactly once, and the pool is done only when all are.
///
/// After any history the jobs handed out, followed by the jobs that wait,
/// are the jobs submitted in time: each of those is handed out at most once,
/// in the order of submission, and none is lost. Once every worker has
/// left, each of them was handed out and its worker came back from it.
pub proof fn lemma_every_job_runs_once<J>(workers: nat, history: Seq<PoolEvent<J>>)
    requires
        workers >= 1,
    ensures
        ({
            let pool = after_history(PoolView::fresh(workers), history);
            &&& pool.started + pool.queue == submitted_in_time(history)
            &&& pool.terminated() ==> {
                &&& pool.queue.len() == 0
                &&& pool.started == submitted_in_time(history)
                &&& pool.finished == submitted_in_time(history).len()
            }
        }),
{
    let pool = after_history(PoolView::fresh(workers), history);
    lemma_history_keeps_wf(workers, history);
    lemma_history_of_accepted(workers, history);
    if pool.terminated() {
        assert(pool.workers[0] is Gone);
        lemma_busy_count_zero(pool.workers);
        assert(pool.started + pool.queue == pool.started);
    }
}

/// Two histories that differ in their last events end in the same pool if
/// those events do the same to it.
proof fn lemma_history_push<J>(pool: PoolView<J>, history: Seq<PoolEvent<J>>, event: PoolEvent<J>)
    ensures
        after_history(pool, history.push(event)) == after_event(
            after_history(pool, history),
            event,
        ),
{
    assert(history.push(event).drop_last() == history);
}

/// A job submitted to a closed pool is never run: the pool goes on as if
/// the job had not been submitted.
pub proof fn lemma_late_job_is_never_run<J>(
    workers: nat,
    before: Seq<PoolEvent<J>>,
    job: J,
    after: Seq<PoolEvent<J>>,
)
    requires
        closes(before),
    ensures
        after_history(PoolView::fresh(workers), before.push(PoolEvent::Submit(job)) + after)
            == after_history(PoolView::fresh(workers), before + after),
    decreases after.len(),
{
    let fresh = PoolView::<J>::fresh(workers);
    let with_job = before.push(PoolEvent::Submit(job));
    if after.len() == 0 {
        assert(with_job + after == with_job);
        assert(before + after == before);
        lemma_history_push(fresh, before, PoolEvent::Submit(job));
        lemma_history_of_accepted(workers, before);
    } else {
        lemma_late_job_is_never_run(workers, before, job, after.drop_last());
        assert((with_job + after).drop_last() == with_job + after.drop_last());
        assert((before + after).drop_last() == before + after.drop_last());
    }
}

/// An event does to two pools that are the same but for the tally what
/// leaves them the same but for the tally.
proof fn lemma_event_ignores_tally<J>(a: PoolView<J>, b: PoolView<J>, event: PoolEvent<J>)
    requires
        same_but_tally(a, b),
    ensures
        same_but_tally(after_event(a, event), after_event(b, event)),
{
}

/// A job that fails costs the pool nothing: after it, and after whatever
/// follows, the pool is as if the job had completed, but for the tally of
/// failures. The same jobs wait, the same jobs were handed out, and every
/// worker is in the same state.
pub proof fn lemma_failed_job_harms_no_other<J>(
    workers: nat,
    before: Seq<PoolEvent<J>>,
    worker: int,
    after: Seq<PoolEvent<J>>,
)
    ensures
        same_but_tally(
            after_history(
                PoolView::fresh(workers),
                before.push(PoolEvent::Finish(worker, JobOutcome::Failed)) + after,
            ),
            after_history(
                PoolView::fresh(workers),
                before.push(PoolEvent::Finish(worker, JobOutcome::Completed)) + after,
            ),
        ),
    decreases after.len(),
{
    let fresh = PoolView::<J>::fresh(workers);
    let failed = before.push(PoolEvent::Finish(worker, JobOutcome::Failed));
    let completed = before.push(PoolEvent::Finish(worker, JobOutcome::Completed));
    if after.len() == 0 {
        assert(failed + after == failed);
        assert(completed + after == completed);
        lemma_history_push(fresh, before, PoolEvent::Finish(worker, JobOutcome::Failed));
        lemma_history_push(fresh, before, PoolEvent::Finish(worker, JobOutcome::Completed));
    } else {
        lemma_failed_job_harms_no_other(workers, before, worker, after.drop_last());
        assert((failed + after).drop_last() == failed + after.drop_last());
        assert((completed + after).drop_last() == completed + after.drop_last());
        lemma_event_ignores_tally(
            after_history(fresh, failed + after.drop_last()),
            after_history(fresh, completed + after.drop_last()),
            after.last(),
        );
    }
}

} // verus!
