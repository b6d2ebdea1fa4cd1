use std::collections::VecDeque;
use vstd::prelude::*;
use crate::task::Task;

verus! {

/// Enqueueing after the queue was closed: an ordering mistake by the producer.
#[derive(Clone, Copy, Debug, PartialEq, Eq, Structural)]
pub enum QueueError {
    ChannelClosedUnexpectedly,
}

/// The outcome of one receive.
#[derive(Debug, PartialEq, Eq)]
pub enum Receive {
    /// The oldest pending item, now removed from the queue.
    Item(Task),
    /// Nothing is pending and the queue is still open.
    Timeout,
    /// The queue is closed and drained: nothing will ever arrive.
    Closed,
}

/// A FIFO handoff from one producer to many consumers. Once closed it
/// accepts nothing more but still yields what it holds.
pub struct SharedQueue {
    items: VecDeque<Task>,
    closed: bool,
}

impl SharedQueue {
    /// The items enqueued and not yet received, oldest first.
    pub closed spec fn pending(&self) -> Seq<Task> {
        self.items@
    }

    /// Whether the producer has closed the queue.
    pub closed spec fn is_shut(&self) -> bool {
        self.closed
    }

    pub fn new() -> (r: SharedQueue)
        ensures
            r.pending() == Seq::<Task>::empty(),
            !r.is_shut(),
    {
        SharedQueue { items: VecDeque::new(), closed: false }
    }

    /// Appends an item, unless the queue was already closed.
    pub fn enqueue(&mut self, item: Task) -> (r: Result<(), QueueError>)
        ensures
            old(self).is_shut() ==> r == Err::<(), QueueError>(QueueError::ChannelClosedUnexpectedly)
                && final(self).pending() == old(self).pending() && final(self).is_shut(),
            !old(self).is_shut() ==> r is Ok && final(self).pending() == old(self).pending().push(item)
                && !final(self).is_shut(),
    {
        if self.closed {
            Err(QueueError::ChannelClosedUnexpectedly)
        } else {
            self.items.push_back(item);
            Ok(())
        }
    }

    /// Marks the queue closed; pending items stay to be received.
    pub fn close(&mut self)
        ensures
            final(self).is_shut(),
            final(self).pending() == old(self).pending(),
    {
        self.closed = true;
    }

    pub fn is_closed(&self) -> (r: bool)
        ensures
            r == self.is_shut(),
    {
        self.closed
    }

    pub fn len(&self) -> (r: usize)
        ensures
            r == self.pending().len(),
    {
        self.items.len()
    }

    /// Takes the oldest pending item; with none, says whether more may come.
    pub fn try_receive(&mut self) -> (r: Receive)
        ensures
            old(self).pending().len() > 0 ==> r == Receive::Item(old(self).pending()[0])
                && final(self).pending() == old(self).pending().drop_first()
                && final(self).is_shut() == old(self).is_shut(),
            old(self).pending().len() == 0 && old(self).is_shut() ==> r is Closed
                && final(self).pending() == old(self).pending() && final(self).is_shut(),
            old(self).pending().len() == 0 && !old(self).is_shut() ==> r is Timeout
                && final(self).pending() == old(self).pending() && !final(self).is_shut(),
    {
        match self.items.pop_front() {
            Some(item) => Receive::Item(item),
            None => {
                if self.closed {
                    Receive::Closed
                } else {
                    Receive::Timeout
                }
            },
        }
    }
}

} // verus!
