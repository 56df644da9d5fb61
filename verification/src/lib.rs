//! A fixed-size worker pool, as a verified state machine.
//!
//! Jobs are handed to the pool, queued first in, first out, and taken one at
//! a time by whichever worker asks next. Shutting the pool down queues one
//! termination signal for each worker behind all the jobs, so that every job
//! runs before the last worker stops.
//!
//! The pool itself starts no threads and never waits. It decides; whoever
//! drives it runs the jobs and does the waiting.

pub mod message;
pub mod model;
pub mod pool;
pub mod queue;
pub mod trace;
pub mod worker;

pub use crate::message::Message;
pub use crate::pool::ThreadPool;
pub use crate::queue::{JobQueue, RecvError};
pub use crate::worker::{Action, Worker, WorkerState};
