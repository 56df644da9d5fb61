//! What holds of a pool over time.
//!
//! Whatever drives a pool, it does so by a sequence of events: jobs are
//! submitted, workers take their turns in some order, and at some point
//! shutdown begins. A trace is such a sequence. The laws in this file hold
//! for every trace, that is for every way in which submissions and the turns
//! of the workers can interleave.

use vstd::prelude::*;

use crate::message::{
    jobs_of, lemma_jobs_of_concat, lemma_jobs_of_one, lemma_last_signal, lemma_push_message,
    lemma_signals, signals, Message,
};
use crate::model::{
    all_terminated, lemma_begin_shutdown_wf, lemma_live_bound, lemma_live_none, lemma_submit_wf,
    lemma_take_wf, PoolView,
};
use crate::worker::Action;

verus! {

/// One thing that happens to a pool.
pub ghost enum Event<J> {
    /// A job is submitted.
    Submit(J),
    /// The worker with this number asks for its next action.
    Turn(int),
    /// Shutdown begins.
    Shutdown,
}

/// The jobs submitted in the course of `trace`, in order.
pub open spec fn submitted<J>(trace: Seq<Event<J>>) -> Seq<J>
    decreases trace.len(),
{
    if trace.len() == 0 {
        Seq::empty()
    } else {
        match trace[0] {
            Event::Submit(job) => seq![job] + submitted(trace.drop_first()),
            _ => submitted(trace.drop_first()),
        }
    }
}

impl<J> PoolView<J> {
    /// Whether `event` may happen to this pool: a job may be submitted only
    /// while the pool takes jobs.
    pub open spec fn permits(self, event: Event<J>) -> bool {
        event is Submit ==> self.accepting
    }

    /// The pool after `event`.
    pub open spec fn step(self, event: Event<J>) -> Self {
        match event {
            Event::Submit(job) => self.submit(job),
            Event::Turn(worker) => self.take(worker),
            Event::Shutdown => self.begin_shutdown(),
        }
    }

    /// The messages that `event` puts on the queue.
    pub open spec fn sent_by(self, event: Event<J>) -> Seq<Message<J>> {
        match event {
            Event::Submit(job) => seq![Message::NewJob(job)],
            Event::Turn(_) => Seq::empty(),
            Event::Shutdown => if self.accepting {
                signals(self.size())
            } else {
                Seq::empty()
            },
        }
    }

    /// Whether `event` takes a message off the queue.
    pub open spec fn receives(self, event: Event<J>) -> bool {
        event matches Event::Turn(worker) && self.can_take(worker)
    }

    /// The job that `event` hands to a worker to run, if it hands out one.
    pub open spec fn handed_by(self, event: Event<J>) -> Seq<J> {
        match event {
            Event::Turn(worker) => match self.action(worker) {
                Action::Run(job) => seq![job],
                _ => Seq::empty(),
            },
            _ => Seq::empty(),
        }
    }

    /// Whether every event of `trace` may happen when its time comes.
    pub open spec fn admits(self, trace: Seq<Event<J>>) -> bool
        decreases trace.len(),
    {
        trace.len() == 0 || {
            &&& self.permits(trace[0])
            &&& self.step(trace[0]).admits(trace.drop_first())
        }
    }

    /// The pool after the events of `trace`.
    pub open spec fn after(self, trace: Seq<Event<J>>) -> Self
        decreases trace.len(),
    {
        if trace.len() == 0 {
            self
        } else {
            self.step(trace[0]).after(trace.drop_first())
        }
    }

    /// The messages put on the queue in the course of `trace`, in order.
    pub open spec fn sent(self, trace: Seq<Event<J>>) -> Seq<Message<J>>
        decreases trace.len(),
    {
        if trace.len() == 0 {
            Seq::empty()
        } else {
            self.sent_by(trace[0]) + self.step(trace[0]).sent(trace.drop_first())
        }
    }

    /// How many messages are taken off the queue in the course of `trace`.
    pub open spec fn received(self, trace: Seq<Event<J>>) -> nat
        decreases trace.len(),
    {
        if trace.len() == 0 {
            0
        } else if self.receives(trace[0]) {
            1 + self.step(trace[0]).received(trace.drop_first())
        } else {
            self.step(trace[0]).received(trace.drop_first())
        }
    }

    /// The jobs handed to workers in the course of `trace`, in order.
    pub open spec fn served(self, trace: Seq<Event<J>>) -> Seq<J>
        decreases trace.len(),
    {
        if trace.len() == 0 {
            Seq::empty()
        } else {
            self.handed_by(trace[0]) + self.step(trace[0]).served(trace.drop_first())
        }
    }

    /// The job that worker `worker` has in hand after `trace`: the job it
    /// was handed on its latest turn, if that turn handed it one. A worker
    /// runs the job in hand to completion before it takes its next turn.
    pub open spec fn in_hand(self, trace: Seq<Event<J>>, worker: int) -> Option<J>
        decreases trace.len(),
    {
        if trace.len() == 0 {
            None
        } else if trace.last() == Event::<J>::Turn(worker) {
            match self.after(trace.drop_last()).action(worker) {
                Action::Run(job) => Some(job),
                _ => None,
            }
        } else {
            self.in_hand(trace.drop_last(), worker)
        }
    }
}

/// A pool stays well formed, whatever happens to it. In particular it keeps
/// its size, never more workers run than it has, and until shutdown begins
/// all of them run.
pub proof fn law_pool_stays_well_formed<J>(pool: PoolView<J>, trace: Seq<Event<J>>)
    requires
        pool.wf(),
        pool.admits(trace),
    ensures
        pool.after(trace).wf(),
        pool.after(trace).size() == pool.size(),
        pool.after(trace).live() <= pool.size(),
        pool.after(trace).accepting ==> pool.after(trace).live() == pool.size(),
    decreases trace.len(),
{
    if trace.len() == 0 {
        lemma_live_bound(pool.workers);
    } else {
        match trace[0] {
            Event::Submit(job) => lemma_submit_wf(pool, job),
            Event::Turn(worker) => lemma_take_wf(pool, worker),
            Event::Shutdown => lemma_begin_shutdown_wf(pool),
        }
        law_pool_stays_well_formed(pool.step(trace[0]), trace.drop_first());
    }
}

/// A worker that has stopped never runs again.
pub proof fn law_stopped_worker_stays_stopped<J>(
    pool: PoolView<J>,
    trace: Seq<Event<J>>,
    worker: int,
)
    requires
        !pool.is_running(worker),
    ensures
        !pool.after(trace).is_running(worker),
    decreases trace.len(),
{
    if trace.len() > 0 {
        law_stopped_worker_stays_stopped(pool.step(trace[0]), trace.drop_first(), worker);
    }
}

/// The pool after a trace and one more event is the pool after the trace,
/// one step on.
pub proof fn lemma_after_push<J>(pool: PoolView<J>, trace: Seq<Event<J>>, event: Event<J>)
    ensures
        pool.after(trace.push(event)) == pool.after(trace).step(event),
    decreases trace.len(),
{
    let longer = trace.push(event);
    if trace.len() == 0 {
        assert(longer.drop_first() == trace);
        assert(pool.step(event).after(trace) == pool.step(event));
    } else {
        lemma_after_push(pool.step(trace[0]), trace.drop_first(), event);
        assert(longer.drop_first() == trace.drop_first().push(event));
    }
}

/// A worker that has stopped has no job in hand: whatever it was handed, it
/// has run before it took the turn on which it stopped.
pub proof fn law_stopped_worker_holds_no_job<J>(
    pool: PoolView<J>,
    trace: Seq<Event<J>>,
    worker: int,
)
    requires
        !pool.after(trace).is_running(worker),
    ensures
        pool.in_hand(trace, worker) is None,
    decreases trace.len(),
{
    if trace.len() > 0 {
        let earlier = trace.drop_last();
        assert(trace == earlier.push(trace.last()));
        lemma_after_push(pool, earlier, trace.last());
        if trace.last() != Event::<J>::Turn(worker) {
            law_stopped_worker_holds_no_job(pool, earlier, worker);
        }
    }
}

/// No job is lost, repeated or skipped: the jobs handed to workers, followed
/// by the jobs still queued, are the jobs that were queued at the start
/// followed by the jobs submitted since, each once and in that order.
pub proof fn law_every_job_once<J>(pool: PoolView<J>, trace: Seq<Event<J>>)
    ensures
        pool.served(trace) + jobs_of(pool.after(trace).queue.pending)
            == jobs_of(pool.queue.pending) + submitted(trace),
    decreases trace.len(),
{
    let pending = pool.queue.pending;
    if trace.len() == 0 {
        assert(pool.served(trace) + jobs_of(pending) == jobs_of(pending) + submitted(trace));
    } else {
        let event = trace[0];
        let next = pool.step(event);
        let rest = trace.drop_first();
        law_every_job_once(next, rest);
        let left = jobs_of(next.after(rest).queue.pending);
        match event {
            Event::Submit(job) => {
                lemma_push_message(pending, Message::NewJob(job));
                assert(next.served(rest) + left == jobs_of(pending).push(job) + submitted(rest));
                assert(pool.served(trace) + left == jobs_of(pending) + submitted(trace));
            },
            Event::Turn(worker) => {
                assert(submitted(trace) == submitted(rest));
                if pool.can_take(worker) && pending[0] is NewJob {
                    assert(pool.served(trace) + left
                        == pool.handed_by(event) + (next.served(rest) + left));
                } else {
                    assert(pool.served(trace) == next.served(rest));
                }
            },
            Event::Shutdown => {
                assert(submitted(trace) == submitted(rest));
                assert(pool.served(trace) == next.served(rest));
                if pool.accepting {
                    lemma_signals::<J>(pool.size());
                    lemma_jobs_of_concat(pending, signals(pool.size()));
                }
            },
        }
    }
}

/// Jobs are served first in, first out. Write down every message in the
/// order in which it was put on the queue: those queued at the start, then
/// those sent since. However the workers took their turns, the messages
/// received are the first so many of that list, the jobs handed to workers
/// are the jobs among them, and the rest is still queued.
pub proof fn law_first_in_first_out<J>(pool: PoolView<J>, trace: Seq<Event<J>>)
    ensures
        ({
            let all = pool.queue.pending + pool.sent(trace);
            let received = pool.received(trace) as int;
            &&& received <= all.len()
            &&& pool.served(trace) == jobs_of(all.take(received))
            &&& pool.after(trace).queue.pending == all.skip(received)
        }),
    decreases trace.len(),
{
    let pending = pool.queue.pending;
    let log = pending + pool.sent(trace);
    if trace.len() == 0 {
        assert(log == pending);
        assert(log.skip(0) == pending);
        assert(log.take(0) == Seq::<Message<J>>::empty());
    } else {
        let event = trace[0];
        let next = pool.step(event);
        let rest = trace.drop_first();
        law_first_in_first_out(next, rest);
        let next_log = next.queue.pending + next.sent(rest);
        let taken = next.received(rest) as int;
        if pool.receives(event) {
            let first = seq![pending[0]];
            assert(pool.sent(trace) == next.sent(rest));
            assert(log == first + next_log);
            assert(log.skip(taken + 1) == next_log.skip(taken));
            assert(log.take(taken + 1) == first + next_log.take(taken));
            lemma_jobs_of_concat(first, next_log.take(taken));
            lemma_jobs_of_one(pending[0]);
        } else {
            assert(log == next_log);
            assert(pool.handed_by(event) == Seq::<J>::empty());
            assert(pool.served(trace) == next.served(rest));
        }
    }
}

/// Work never gets stuck: while a message is queued, some worker is running
/// to receive it.
pub proof fn law_work_is_never_stuck<J>(pool: PoolView<J>)
    requires
        pool.wf(),
        pool.queue.pending.len() > 0,
    ensures
        exists|worker: int| pool.can_take(worker),
{
    if !pool.accepting {
        lemma_last_signal(pool.queue.pending);
    }
    lemma_live_none(pool.workers);
    let worker = choose|worker: int|
        0 <= worker < pool.workers.len() && !(#[trigger] pool.workers[worker] is Terminated);
    assert(pool.can_take(worker));
}

/// A submitted job runs once, and it runs as soon as the workers have
/// received the messages queued ahead of it and one more.
///
/// Among the jobs handed to workers and the jobs still queued, in that
/// order, the submitted job has one place: the place behind the jobs that
/// were queued when it was submitted.
pub proof fn law_submitted_job_runs_once<J>(pool: PoolView<J>, job: J, trace: Seq<Event<J>>)
    ensures
        ({
            let start = pool.submit(job);
            let ahead = jobs_of(pool.queue.pending);
            &&& start.served(trace) + jobs_of(start.after(trace).queue.pending)
                == ahead.push(job) + submitted(trace)
            &&& start.received(trace) > pool.queue.pending.len() ==> {
                &&& start.served(trace).len() > ahead.len()
                &&& start.served(trace)[ahead.len() as int] == job
            }
        }),
{
    let start = pool.submit(job);
    let pending = pool.queue.pending;
    let ahead = jobs_of(pending);
    law_every_job_once(start, trace);
    lemma_push_message(pending, Message::NewJob(job));
    law_first_in_first_out(start, trace);
    let log = start.queue.pending + start.sent(trace);
    let taken = start.received(trace) as int;
    if taken > pending.len() {
        let front = pending.push(Message::NewJob(job));
        let back = log.subrange(front.len() as int, taken);
        assert(log.take(taken) == front + back);
        lemma_jobs_of_concat(front, back);
    }
}

/// Shutdown drains the queue and stops every worker.
///
/// Once no worker is running the pool has stopped: nothing is queued, the
/// queue is closed, and every job that was queued or submitted has been
/// handed to a worker. And once shutdown has begun and nothing is queued, no
/// worker is running.
pub proof fn law_shutdown_drains<J>(pool: PoolView<J>, trace: Seq<Event<J>>)
    requires
        pool.wf(),
        pool.admits(trace),
    ensures
        pool.after(trace).live() == 0 ==> {
            &&& pool.after(trace) == pool.stopped()
            &&& pool.served(trace) == jobs_of(pool.queue.pending) + submitted(trace)
        },
        !pool.after(trace).accepting && pool.after(trace).queue.pending.len() == 0
            ==> pool.after(trace).live() == 0,
{
    let end = pool.after(trace);
    law_pool_stays_well_formed(pool, trace);
    law_every_job_once(pool, trace);
    if end.live() == 0 {
        if end.queue.pending.len() > 0 {
            lemma_last_signal(end.queue.pending);
        }
        lemma_live_none(end.workers);
        assert(end.queue.pending == Seq::<Message<J>>::empty());
        assert(end.workers == all_terminated(pool.size()));
        assert(pool.served(trace) + jobs_of(end.queue.pending) == pool.served(trace));
    }
}

/// Once shutdown has begun nothing more is put on the queue, and the pool
/// never takes jobs again.
pub proof fn lemma_shutdown_is_final<J>(pool: PoolView<J>, trace: Seq<Event<J>>)
    requires
        !pool.accepting,
        pool.admits(trace),
    ensures
        !pool.after(trace).accepting,
        pool.sent(trace) == Seq::<Message<J>>::empty(),
    decreases trace.len(),
{
    if trace.len() > 0 {
        lemma_shutdown_is_final(pool.step(trace[0]), trace.drop_first());
    }
}

/// Shutdown completes exactly when the queue has been emptied: once
/// shutdown has begun, no worker is left running as soon as the workers have
/// received as many messages as were queued, and not before.
pub proof fn law_shutdown_completes<J>(pool: PoolView<J>, trace: Seq<Event<J>>)
    requires
        pool.wf(),
        !pool.accepting,
        pool.admits(trace),
    ensures
        pool.received(trace) <= pool.queue.pending.len(),
        pool.after(trace).live() == 0 <==> pool.received(trace) == pool.queue.pending.len(),
{
    lemma_shutdown_is_final(pool, trace);
    law_first_in_first_out(pool, trace);
    law_shutdown_drains(pool, trace);
    assert(pool.queue.pending + pool.sent(trace) == pool.queue.pending);
}

} // verus!
