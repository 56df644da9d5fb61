//! The pool as a mathematical object: its content, the steps it can take,
//! and what holds of it at all times.

use vstd::prelude::*;

use crate::message::{
    lemma_last_signal, lemma_push_message, lemma_signals, lemma_terminates_in_concat, signals,
    terminates_in, Message,
};
use crate::queue::QueueView;
use crate::worker::{reaction, state_after, Action, WorkerState};

verus! {

/// How many of `workers` are running.
pub open spec fn live(workers: Seq<WorkerState>) -> nat
    decreases workers.len(),
{
    if workers.len() == 0 {
        0
    } else if workers.last() is Running {
        1 + live(workers.drop_last())
    } else {
        live(workers.drop_last())
    }
}

/// `count` workers, all running.
pub open spec fn all_running(count: nat) -> Seq<WorkerState> {
    Seq::new(count, |i: int| WorkerState::Running)
}

/// `count` workers, all stopped.
pub open spec fn all_terminated(count: nat) -> Seq<WorkerState> {
    Seq::new(count, |i: int| WorkerState::Terminated)
}

/// The mathematical content of a [`crate::pool::ThreadPool`].
pub ghost struct PoolView<J> {
    /// The job queue.
    pub queue: QueueView<J>,
    /// The state of each worker; a worker's place is its id.
    pub workers: Seq<WorkerState>,
    /// Whether the pool still takes jobs. It does until shutdown begins.
    pub accepting: bool,
}

impl<J> PoolView<J> {
    /// A pool of `size` running workers with nothing queued.
    pub open spec fn fresh(size: nat) -> Self {
        PoolView {
            queue: QueueView { pending: Seq::empty(), open: true },
            workers: all_running(size),
            accepting: true,
        }
    }

    /// The number of workers the pool was built with.
    pub open spec fn size(self) -> nat {
        self.workers.len()
    }

    /// The number of workers that are still running.
    pub open spec fn live(self) -> nat {
        live(self.workers)
    }

    /// What holds of a pool at all times.
    ///
    /// There is at least one worker. The queue is open exactly as long as a
    /// worker is left to serve it. Until shutdown begins every worker runs and
    /// no termination signal is queued. From then on there is one queued
    /// signal for each running worker, and nothing is queued behind the last
    /// signal.
    pub open spec fn wf(self) -> bool {
        &&& self.workers.len() >= 1
        &&& self.queue.open <==> self.live() > 0
        &&& self.accepting ==> {
            &&& self.live() == self.size()
            &&& terminates_in(self.queue.pending) == 0
        }
        &&& !self.accepting ==> {
            &&& terminates_in(self.queue.pending) == self.live()
            &&& self.queue.pending.len() > 0 ==> self.queue.pending.last() is Terminate
        }
    }

    /// The pool after `job` has been handed to it.
    pub open spec fn submit(self, job: J) -> Self {
        PoolView {
            queue: QueueView {
                pending: self.queue.pending.push(Message::NewJob(job)),
                open: self.queue.open,
            },
            ..self
        }
    }

    /// The pool after shutdown has begun: one termination signal for each
    /// worker is queued behind everything else. Where shutdown had begun
    /// before, nothing changes.
    pub open spec fn begin_shutdown(self) -> Self {
        if self.accepting {
            PoolView {
                queue: QueueView {
                    pending: self.queue.pending + signals(self.size()),
                    open: self.queue.open,
                },
                workers: self.workers,
                accepting: false,
            }
        } else {
            self
        }
    }

    /// Whether `worker` names a running worker of this pool.
    pub open spec fn is_running(self, worker: int) -> bool {
        0 <= worker < self.workers.len() && self.workers[worker] is Running
    }

    /// Whether worker `worker` would receive a message if it asked now.
    pub open spec fn can_take(self, worker: int) -> bool {
        self.is_running(worker) && self.queue.pending.len() > 0
    }

    /// What worker `worker` is told to do when it asks for its next action.
    pub open spec fn action(self, worker: int) -> Action<J> {
        if !self.is_running(worker) {
            Action::Exit
        } else if self.queue.pending.len() == 0 {
            Action::Wait
        } else {
            reaction(self.queue.pending[0])
        }
    }

    /// The pool after worker `worker` has asked for its next action. A
    /// running worker receives the oldest pending message; the worker that
    /// stops last closes the queue. Otherwise nothing changes.
    pub open spec fn take(self, worker: int) -> Self {
        if self.can_take(worker) {
            let workers = self.workers.update(worker, state_after(self.queue.pending[0]));
            PoolView {
                queue: QueueView {
                    pending: self.queue.pending.drop_first(),
                    open: self.queue.open && live(workers) > 0,
                },
                workers,
                accepting: self.accepting,
            }
        } else {
            self
        }
    }

    /// The pool once it has been shut down: every worker stopped, nothing
    /// queued, the queue closed.
    pub open spec fn stopped(self) -> Self {
        PoolView {
            queue: QueueView { pending: Seq::empty(), open: false },
            workers: all_terminated(self.size()),
            accepting: false,
        }
    }
}

/// Never more workers run than there are.
pub proof fn lemma_live_bound(workers: Seq<WorkerState>)
    ensures
        live(workers) <= workers.len(),
    decreases workers.len(),
{
    if workers.len() > 0 {
        lemma_live_bound(workers.drop_last());
    }
}

/// All workers run exactly if as many run as there are.
pub proof fn lemma_live_all(workers: Seq<WorkerState>)
    ensures
        live(workers) == workers.len() <==> forall|i: int|
            0 <= i < workers.len() ==> (#[trigger] workers[i]) is Running,
    decreases workers.len(),
{
    if workers.len() > 0 {
        let front = workers.drop_last();
        lemma_live_all(front);
        lemma_live_bound(front);
        if live(workers) == workers.len() {
            assert forall|i: int| 0 <= i < workers.len() implies (
            #[trigger] workers[i]) is Running by {
                if i < front.len() {
                    assert(front[i] == workers[i]);
                }
            }
        }
        if forall|i: int| 0 <= i < workers.len() ==> (#[trigger] workers[i]) is Running {
            assert forall|i: int| 0 <= i < front.len() implies (
            #[trigger] front[i]) is Running by {
                assert(front[i] == workers[i]);
            }
        }
    }
}

/// No worker runs exactly if every one has stopped.
pub proof fn lemma_live_none(workers: Seq<WorkerState>)
    ensures
        live(workers) == 0 <==> forall|i: int|
            0 <= i < workers.len() ==> (#[trigger] workers[i]) is Terminated,
    decreases workers.len(),
{
    if workers.len() > 0 {
        let front = workers.drop_last();
        lemma_live_none(front);
        if live(workers) == 0 {
            assert forall|i: int| 0 <= i < workers.len() implies (
            #[trigger] workers[i]) is Terminated by {
                if i < front.len() {
                    assert(front[i] == workers[i]);
                }
            }
        }
        if forall|i: int| 0 <= i < workers.len() ==> (#[trigger] workers[i]) is Terminated {
            assert forall|i: int| 0 <= i < front.len() implies (
            #[trigger] front[i]) is Terminated by {
                assert(front[i] == workers[i]);
            }
        }
    }
}

/// Stopping one running worker leaves one fewer running.
pub proof fn lemma_live_stop(workers: Seq<WorkerState>, worker: int)
    requires
        0 <= worker < workers.len(),
        workers[worker] is Running,
    ensures
        live(workers.update(worker, WorkerState::Terminated)) == live(workers) - 1,
    decreases workers.len(),
{
    let after = workers.update(worker, WorkerState::Terminated);
    if worker == workers.len() - 1 {
        assert(after.drop_last() == workers.drop_last());
    } else {
        lemma_live_stop(workers.drop_last(), worker);
        assert(after.drop_last() == workers.drop_last().update(worker, WorkerState::Terminated));
    }
}

/// A new pool is well formed.
pub proof fn lemma_fresh_wf<J>(size: nat)
    requires
        size >= 1,
    ensures
        PoolView::<J>::fresh(size).wf(),
{
    lemma_live_all(all_running(size));
}

/// Handing a job to a pool that takes jobs keeps it well formed.
pub proof fn lemma_submit_wf<J>(pool: PoolView<J>, job: J)
    requires
        pool.wf(),
        pool.accepting,
    ensures
        pool.submit(job).wf(),
{
    lemma_push_message(pool.queue.pending, Message::NewJob(job));
}

/// Beginning shutdown keeps a pool well formed.
pub proof fn lemma_begin_shutdown_wf<J>(pool: PoolView<J>)
    requires
        pool.wf(),
    ensures
        pool.begin_shutdown().wf(),
{
    if pool.accepting {
        lemma_signals::<J>(pool.size());
        lemma_terminates_in_concat(pool.queue.pending, signals(pool.size()));
    }
}

/// A worker's turn keeps a pool well formed.
pub proof fn lemma_take_wf<J>(pool: PoolView<J>, worker: int)
    requires
        pool.wf(),
    ensures
        pool.take(worker).wf(),
{
    if pool.can_take(worker) {
        let pending = pool.queue.pending;
        let rest = pending.drop_first();
        if pending[0] is Terminate {
            lemma_live_stop(pool.workers, worker);
            assert(!pool.accepting);
        } else {
            assert(pool.take(worker).workers == pool.workers);
        }
        if rest.len() > 0 {
            assert(rest.last() == pending.last());
            if !pool.accepting {
                lemma_last_signal(rest);
            }
        }
    }
}

} // verus!
