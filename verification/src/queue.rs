//! The job queue: an unbounded first-in, first-out transport for messages.

use std::collections::VecDeque;
use vstd::prelude::*;

use crate::message::Message;

verus! {

/// An unbounded first-in, first-out queue of messages.
///
/// Sending never waits. Receiving hands out the oldest message; when nothing
/// is pending it reports so, and the caller decides how to wait. A queue that
/// has been closed takes no further messages, but what was sent before it was
/// closed can still be received.
pub struct JobQueue<J> {
    pending: VecDeque<Message<J>>,
    open: bool,
}

/// The mathematical content of a [`JobQueue`].
pub ghost struct QueueView<J> {
    /// The messages sent and not yet received, oldest first.
    pub pending: Seq<Message<J>>,
    /// Whether the queue still takes messages.
    pub open: bool,
}

/// Why a call of [`JobQueue::receive`] handed out no message.
#[derive(Clone, Copy, Debug, PartialEq, Eq, Structural)]
pub enum RecvError {
    /// Nothing is pending, but the queue is open: a message may still come.
    Empty,
    /// Nothing is pending and the queue is closed: no message will ever come.
    Closed,
}

impl<J> View for JobQueue<J> {
    type V = QueueView<J>;

    closed spec fn view(&self) -> QueueView<J> {
        QueueView { pending: self.pending@, open: self.open }
    }
}

impl<J> JobQueue<J> {
    /// An open queue with nothing pending.
    pub fn new() -> (queue: Self)
        ensures
            queue@.pending == Seq::<Message<J>>::empty(),
            queue@.open,
    {
        JobQueue { pending: VecDeque::new(), open: true }
    }

    /// Appends `message` behind everything already pending. On a closed
    /// queue nothing changes and the message is handed back.
    pub fn send(&mut self, message: Message<J>) -> (sent: Result<(), Message<J>>)
        ensures
            old(self)@.open ==> {
                &&& sent == Ok::<(), Message<J>>(())
                &&& final(self)@ == (QueueView {
                    pending: old(self)@.pending.push(message),
                    open: true,
                })
            },
            !old(self)@.open ==> {
                &&& sent == Err::<(), Message<J>>(message)
                &&& final(self)@ == old(self)@
            },
    {
        if self.open {
            self.pending.push_back(message);
            Ok(())
        } else {
            Err(message)
        }
    }

    /// Removes and returns the oldest pending message. With nothing pending
    /// the queue is left as it was, and the error says whether a message may
    /// still come.
    pub fn receive(&mut self) -> (received: Result<Message<J>, RecvError>)
        ensures
            old(self)@.pending.len() > 0 ==> {
                &&& received == Ok::<Message<J>, RecvError>(old(self)@.pending[0])
                &&& final(self)@ == (QueueView {
                    pending: old(self)@.pending.drop_first(),
                    open: old(self)@.open,
                })
            },
            old(self)@.pending.len() == 0 ==> {
                &&& final(self)@ == old(self)@
                &&& old(self)@.open ==> received == Err::<Message<J>, RecvError>(RecvError::Empty)
                &&& !old(self)@.open ==> received == Err::<Message<J>, RecvError>(
                    RecvError::Closed,
                )
            },
    {
        match self.pending.pop_front() {
            Some(message) => Ok(message),
            None => if self.open {
                Err(RecvError::Empty)
            } else {
                Err(RecvError::Closed)
            },
        }
    }

    /// Closes the queue. Pending messages stay receivable.
    pub fn close(&mut self)
        ensures
            final(self)@ == (QueueView { pending: old(self)@.pending, open: false }),
    {
        self.open = false;
    }

    /// Whether the queue still takes messages.
    pub fn is_open(&self) -> (open: bool)
        ensures
            open == self@.open,
    {
        self.open
    }

    /// The number of pending messages.
    pub fn len(&self) -> (len: usize)
        ensures
            len == self@.pending.len(),
    {
        self.pending.len()
    }

    /// Whether nothing is pending.
    pub fn is_empty(&self) -> (empty: bool)
        ensures
            empty == (self@.pending.len() == 0),
    {
        self.pending.len() == 0
    }
}

} // verus!
