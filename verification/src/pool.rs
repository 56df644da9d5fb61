//! The pool: a fixed set of workers and the queue that feeds them.

use vstd::prelude::*;

use crate::message::{
    callable, completed, leading_jobs, lemma_callable_part, lemma_completed_concat,
    lemma_completed_part, lemma_last_signal, lemma_leading_jobs, lemma_skip_past_signal, signals,
    terminates_in, Message,
};
use crate::model::{
    all_running, all_terminated, lemma_begin_shutdown_wf, lemma_fresh_wf, lemma_live_all,
    lemma_live_bound, lemma_live_none, lemma_live_stop, lemma_submit_wf, lemma_take_wf, PoolView,
};
use crate::queue::{JobQueue, QueueView};
use crate::worker::{Action, Worker, WorkerState};

verus! {

/// A fixed-size pool of workers fed by one job queue.
///
/// The pool is a state machine. [`ThreadPool::execute`] queues a job,
/// [`ThreadPool::dispatch`] gives one worker its next action, and
/// [`ThreadPool::begin_shutdown`] queues the signals that stop the workers.
/// Whoever drives the workers, on threads of their own or in turn, lets each
/// of them call `dispatch` and run the job it is handed before it calls
/// again. [`ThreadPool::shutdown`] drives them itself, one after the other,
/// until every queued job has run and every worker has stopped.
pub struct ThreadPool<J> {
    workers: Vec<Worker>,
    queue: JobQueue<J>,
    accepting: bool,
    live: usize,
}

impl<J> View for ThreadPool<J> {
    type V = PoolView<J>;

    closed spec fn view(&self) -> PoolView<J> {
        PoolView {
            queue: self.queue@,
            workers: Seq::new(self.workers@.len(), |i: int| self.workers@[i]@.state),
            accepting: self.accepting,
        }
    }
}

impl<J: FnOnce()> ThreadPool<J> {
    /// What holds of the pool's bookkeeping between calls: the workers are
    /// numbered from zero in order, and the count of running workers is
    /// right.
    pub closed spec fn inv(&self) -> bool {
        &&& self.live == self@.live()
        &&& forall|i: int| 0 <= i < self.workers@.len() ==> (#[trigger] self.workers@[i])@.id == i
    }

    /// What holds of a pool between calls: its bookkeeping is in order, its
    /// content is well formed, and every queued job may be called.
    pub open spec fn wf(&self) -> bool {
        &&& self.inv()
        &&& self@.wf()
        &&& callable(self@.queue.pending)
    }

    /// A pool of `size` running workers, numbered from zero, with nothing
    /// queued.
    pub fn new(size: usize) -> (pool: Self)
        requires
            size > 0,
        ensures
            pool.wf(),
            pool@ == PoolView::<J>::fresh(size as nat),
    {
        let mut workers: Vec<Worker> = Vec::new();
        let mut id: usize = 0;
        while id < size
            invariant
                id <= size,
                workers@.len() == id,
                forall|i: int| 0 <= i < id ==> (#[trigger] workers@[i])@.id == i,
                forall|i: int| 0 <= i < id ==> (#[trigger] workers@[i])@.state is Running,
            decreases size - id,
        {
            workers.push(Worker::new(id));
            id += 1;
        }
        let pool = ThreadPool { workers, queue: JobQueue::new(), accepting: true, live: size };
        proof {
            assert(pool@.workers == all_running(size as nat));
            lemma_fresh_wf::<J>(size as nat);
            lemma_live_all(pool@.workers);
        }
        pool
    }

    /// Queues `job` behind everything already queued and returns at once.
    /// The job runs when a worker receives it.
    pub fn execute(&mut self, job: J)
        requires
            old(self).wf(),
            old(self)@.accepting,
            call_requires(job, ()),
        ensures
            final(self).wf(),
            final(self)@ == old(self)@.submit(job),
    {
        proof {
            lemma_submit_wf(self@, job);
            lemma_live_bound(self@.workers);
        }
        // The queue is open while the pool takes jobs, so this cannot fail.
        let _ = self.queue.send(Message::NewJob(job));
    }

    /// Gives worker `worker` its next action.
    ///
    /// A running worker receives the oldest queued message: a job to run, or
    /// the signal to exit. With nothing queued it is told to wait. A worker
    /// that has stopped, or a number that names no worker, is told to exit,
    /// and nothing changes.
    pub fn dispatch(&mut self, worker: usize) -> (action: Action<J>)
        requires
            old(self).wf(),
        ensures
            final(self).wf(),
            final(self)@ == old(self)@.take(worker as int),
            action == old(self)@.action(worker as int),
    {
        if worker >= self.workers.len() {
            return Action::Exit;
        }
        if !self.workers[worker].is_running() {
            return Action::Exit;
        }
        let ghost before = self@;
        proof {
            lemma_take_wf(before, worker as int);
            lemma_live_none(before.workers);
            assert(before.workers[worker as int] is Running);
        }
        let action = self.workers[worker].poll(&mut self.queue);
        match &action {
            Action::Run(_) => {
                proof {
                    let pending = before.queue.pending;
                    lemma_callable_part(pending, 1, pending.len() as int);
                    assert(self@.workers == before.workers.update(
                        worker as int,
                        WorkerState::Running,
                    ));
                }
            },
            Action::Wait => {
                assert(self@.workers == before.workers);
            },
            Action::Exit => {
                self.live = self.live - 1;
                if self.live == 0 {
                    self.queue.close();
                }
                proof {
                    let pending = before.queue.pending;
                    lemma_callable_part(pending, 1, pending.len() as int);
                    lemma_live_stop(before.workers, worker as int);
                    assert(self@.workers == before.workers.update(
                        worker as int,
                        WorkerState::Terminated,
                    ));
                }
            },
        }
        action
    }

    /// Begins shutdown: queues one termination signal for each worker behind
    /// everything already queued. From now on the pool takes no more jobs.
    /// Where shutdown had begun before, nothing changes.
    pub fn begin_shutdown(&mut self)
        requires
            old(self).wf(),
        ensures
            final(self).wf(),
            final(self)@ == old(self)@.begin_shutdown(),
    {
        if !self.accepting {
            return ;
        }
        let ghost before = self@;
        proof {
            lemma_begin_shutdown_wf(before);
            lemma_live_bound(before.workers);
        }
        let size = self.workers.len();
        let mut sent: usize = 0;
        while sent < size
            invariant
                sent <= size,
                size == before.workers.len(),
                self.workers == old(self).workers,
                self.live == old(self).live,
                self.accepting,
                self.queue@ == (QueueView {
                    pending: before.queue.pending + signals(sent as nat),
                    open: true,
                }),
            decreases size - sent,
        {
            // The queue is open, so this cannot fail.
            let _ = self.queue.send(Message::Terminate);
            proof {
                assert((before.queue.pending + signals(sent as nat)).push(Message::Terminate)
                    == before.queue.pending + signals((sent + 1) as nat));
            }
            sent += 1;
        }
        self.accepting = false;
        proof {
            assert(self@.workers == before.workers);
            assert(self@ == before.begin_shutdown());
            let pending = self@.queue.pending;
            assert forall|i: int| 0 <= i < pending.len() implies (
            #[trigger] pending[i] matches Message::NewJob(job) ==> call_requires(job, ())) by {
                if i < before.queue.pending.len() {
                    assert(pending[i] == before.queue.pending[i]);
                }
            }
        }
    }

    /// Shuts the pool down and returns when it has stopped.
    ///
    /// Begins shutdown unless it had begun before, then takes the workers in
    /// turn and lets each serve the queue until it receives its termination
    /// signal. On return every job that was queued has run, nothing is
    /// queued, and no worker is running. Shutting down a pool that has
    /// stopped changes nothing.
    pub fn shutdown(&mut self)
        requires
            old(self).wf(),
        ensures
            final(self).wf(),
            final(self)@ == old(self)@.stopped(),
            completed(old(self)@.queue.pending),
    {
        self.begin_shutdown();
        let ghost start = self@.queue.pending;
        let ghost mut done: int = 0;
        let size = self.workers.len();
        let mut next: usize = 0;
        proof {
            assert(start.skip(0) == start);
            assert(start.take(0) == Seq::<Message<J>>::empty());
        }
        while next < size
            invariant
                next <= size,
                size == self.workers@.len(),
                size == old(self)@.size(),
                size >= 1,
                !self.accepting,
                self.inv(),
                forall|i: int| 0 <= i < next ==> (#[trigger] self@.workers[i]) is Terminated,
                terminates_in(self@.queue.pending) == self@.live(),
                self@.queue.pending.len() > 0 ==> self@.queue.pending.last() is Terminate,
                0 <= done <= start.len(),
                self@.queue.pending == start.skip(done),
                completed(start.take(done)),
                callable(start),
            decreases size - next,
        {
            if self.workers[next].is_running() {
                let ghost pending = self@.queue.pending;
                let ghost ahead = leading_jobs(pending) as int;
                let ghost workers = self@.workers;
                proof {
                    lemma_live_none(workers);
                    assert(workers[next as int] is Running);
                    lemma_leading_jobs(pending);
                    lemma_skip_past_signal(pending);
                    lemma_callable_part(start, done, done + ahead);
                    assert(pending.take(ahead) == start.subrange(done, done + ahead));
                }
                self.workers[next].run(&mut self.queue);
                self.live = self.live - 1;
                proof {
                    let rest = self@.queue.pending;
                    lemma_live_stop(workers, next as int);
                    assert(self@.workers == workers.update(next as int, WorkerState::Terminated));
                    assert(rest == start.skip(done + ahead + 1));
                    if rest.len() > 0 {
                        assert(rest.last() == pending.last());
                    }
                    lemma_completed_concat(start.take(done), pending.take(ahead));
                    lemma_completed_concat(
                        start.take(done) + pending.take(ahead),
                        seq![pending[ahead]],
                    );
                    assert(start.take(done + ahead + 1) == start.take(done) + pending.take(ahead)
                        + seq![pending[ahead]]);
                    done = done + ahead + 1;
                }
            }
            next += 1;
        }
        self.queue.close();
        proof {
            lemma_live_none(self@.workers);
            if self@.queue.pending.len() > 0 {
                lemma_last_signal(self@.queue.pending);
            }
            assert(self@.workers == all_terminated(size as nat));
            assert(self@.queue.pending == Seq::<Message<J>>::empty());
            assert(start.take(done) == start);
            lemma_completed_part(start, 0, old(self)@.queue.pending.len() as int);
            assert(old(self)@.queue.pending == start.subrange(
                0,
                old(self)@.queue.pending.len() as int,
            ));
        }
    }

    /// The number of workers the pool was built with.
    pub fn size(&self) -> (size: usize)
        ensures
            size == self@.size(),
    {
        self.workers.len()
    }

    /// The number of workers that are still running.
    pub fn live_workers(&self) -> (live: usize)
        requires
            self.inv(),
        ensures
            live == self@.live(),
    {
        self.live
    }

    /// The number of queued messages, jobs and termination signals alike.
    pub fn pending(&self) -> (pending: usize)
        ensures
            pending == self@.queue.pending.len(),
    {
        self.queue.len()
    }

    /// Whether the pool still takes jobs.
    pub fn is_accepting(&self) -> (accepting: bool)
        ensures
            accepting == self@.accepting,
    {
        self.accepting
    }
}

} // verus!
