//! A worker: the two-state machine that serves the job queue.

use vstd::prelude::*;

use crate::message::{
    callable, completed, leading_jobs, lemma_completed_concat, lemma_leading_jobs, terminates_in,
    Message,
};
use crate::queue::{JobQueue, QueueView};

verus! {

/// The life of a worker. It starts out running and stops for good when it
/// receives a termination signal.
#[derive(Clone, Copy, Debug, PartialEq, Eq, Structural)]
pub enum WorkerState {
    /// Serving the queue.
    Running,
    /// Stopped; a stopped worker never runs again.
    Terminated,
}

/// What a worker has to do next.
pub enum Action<J> {
    /// Run this job to completion, then ask again.
    Run(J),
    /// Nothing is pending: wait until something has been sent, then ask
    /// again.
    Wait,
    /// Stop serving the queue.
    Exit,
}

/// One worker of a pool.
pub struct Worker {
    id: usize,
    state: WorkerState,
}

/// The mathematical content of a [`Worker`].
pub ghost struct WorkerView {
    /// The number that names the worker. It plays no part in routing.
    pub id: usize,
    pub state: WorkerState,
}

impl View for Worker {
    type V = WorkerView;

    closed spec fn view(&self) -> WorkerView {
        WorkerView { id: self.id, state: self.state }
    }
}

/// What a running worker does with `message`.
pub open spec fn reaction<J>(message: Message<J>) -> Action<J> {
    match message {
        Message::NewJob(job) => Action::Run(job),
        Message::Terminate => Action::Exit,
    }
}

/// The state in which `message` leaves a running worker.
pub open spec fn state_after<J>(message: Message<J>) -> WorkerState {
    match message {
        Message::NewJob(_) => WorkerState::Running,
        Message::Terminate => WorkerState::Terminated,
    }
}

impl Worker {
    /// A running worker named `id`.
    pub fn new(id: usize) -> (worker: Worker)
        ensures
            worker@ == (WorkerView { id, state: WorkerState::Running }),
    {
        Worker { id, state: WorkerState::Running }
    }

    /// The number that names this worker.
    pub fn id(&self) -> (id: usize)
        ensures
            id == self@.id,
    {
        self.id
    }

    /// Whether this worker is still serving the queue.
    pub fn is_running(&self) -> (running: bool)
        ensures
            running == (self@.state is Running),
    {
        match self.state {
            WorkerState::Running => true,
            WorkerState::Terminated => false,
        }
    }

    /// Takes in one message. A job is handed back to be run and the worker
    /// stays as it is; a termination signal stops the worker for good.
    pub fn handle<J>(&mut self, message: Message<J>) -> (action: Action<J>)
        requires
            old(self)@.state is Running,
        ensures
            action == reaction(message),
            final(self)@ == (WorkerView { id: old(self)@.id, state: state_after(message) }),
    {
        match message {
            Message::NewJob(job) => Action::Run(job),
            Message::Terminate => {
                self.state = WorkerState::Terminated;
                Action::Exit
            },
        }
    }

    /// One turn of the worker's loop: receives the oldest pending message,
    /// if there is one, and takes it in.
    pub fn poll<J>(&mut self, queue: &mut JobQueue<J>) -> (action: Action<J>)
        requires
            old(self)@.state is Running,
            old(queue)@.open || old(queue)@.pending.len() > 0,
        ensures
            final(self)@.id == old(self)@.id,
            old(queue)@.pending.len() == 0 ==> {
                &&& action == Action::<J>::Wait
                &&& final(self)@ == old(self)@
                &&& final(queue)@ == old(queue)@
            },
            old(queue)@.pending.len() > 0 ==> {
                &&& action == reaction(old(queue)@.pending[0])
                &&& final(self)@.state == state_after(old(queue)@.pending[0])
                &&& final(queue)@ == (QueueView {
                    pending: old(queue)@.pending.drop_first(),
                    open: old(queue)@.open,
                })
            },
    {
        match queue.receive() {
            Ok(message) => self.handle(message),
            // The queue is open, so a message may still come.
            Err(_) => Action::Wait,
        }
    }

    /// The worker's loop: runs the pending jobs one after the other, oldest
    /// first, until it receives a termination signal or nothing is pending.
    ///
    /// It runs exactly the jobs that stand ahead of the first termination
    /// signal. Where there is such a signal the worker consumes it and stops;
    /// where there is none it leaves the queue empty and stays running.
    pub fn run<J: FnOnce()>(&mut self, queue: &mut JobQueue<J>)
        requires
            old(self)@.state is Running,
            old(queue)@.open || terminates_in(old(queue)@.pending) > 0,
            callable(old(queue)@.pending.take(leading_jobs(old(queue)@.pending) as int)),
        ensures
            final(self)@.id == old(self)@.id,
            final(queue)@.open == old(queue)@.open,
            completed(old(queue)@.pending.take(leading_jobs(old(queue)@.pending) as int)),
            terminates_in(old(queue)@.pending) == 0 ==> {
                &&& final(self)@.state is Running
                &&& final(queue)@.pending == Seq::<Message<J>>::empty()
            },
            terminates_in(old(queue)@.pending) > 0 ==> {
                &&& final(self)@.state is Terminated
                &&& final(queue)@.pending == old(queue)@.pending.skip(
                    leading_jobs(old(queue)@.pending) as int + 1,
                )
            },
    {
        let ghost all = queue@.pending;
        let ghost ahead = leading_jobs(all) as int;
        let ghost mut done: int = 0;
        proof {
            lemma_leading_jobs(all);
        }
        loop
            invariant_except_break
                self@.state is Running,
                queue@.pending == all.skip(done),
            invariant
                0 <= done <= ahead <= all.len(),
                ahead == leading_jobs(all),
                self@.id == old(self)@.id,
                queue@.open == old(queue)@.open,
                queue@.open || ahead < all.len(),
                forall|i: int| 0 <= i < ahead ==> (#[trigger] all[i]) is NewJob,
                ahead < all.len() ==> all[ahead] is Terminate,
                callable(all.take(ahead)),
                completed(all.take(done)),
            ensures
                done == ahead,
                ahead == all.len() ==> self@.state is Running && queue@.pending.len() == 0,
                ahead < all.len() ==> self@.state is Terminated && queue@.pending == all.skip(
                    ahead + 1,
                ),
            decreases queue@.pending.len(),
        {
            proof {
                if done < all.len() {
                    assert(all.skip(done)[0] == all[done]);
                    assert(all.skip(done).drop_first() == all.skip(done + 1));
                }
            }
            match self.poll(queue) {
                Action::Run(job) => {
                    assert(all.take(ahead)[done] == all[done]);
                    job();
                    proof {
                        assert(all.take(done + 1) == all.take(done) + seq![all[done]]);
                        lemma_completed_concat(all.take(done), seq![all[done]]);
                        done = done + 1;
                    }
                },
                Action::Wait => {
                    break ;
                },
                Action::Exit => {
                    break ;
                },
            }
        }
    }
}

} // verus!
