use vstd::prelude::*;
use crate::queue::Receive;
use crate::task::Task;

verus! {

/// A worker's identity, used only to say who processed what.
#[derive(Clone, Copy, Debug, PartialEq, Eq, Structural)]
pub struct Worker {
    pub id: u32,
}

/// What a run reports, in the order it happens.
#[derive(Debug, PartialEq, Eq)]
pub enum Event {
    TaskProcessed { worker_id: u32, task_id: u32, payload: String },
    WorkerTimeout { worker_id: u32 },
    RunCompleted,
}

/// `e` reports that worker `w` processed the item with id `id` and payload `p`.
pub open spec fn is_processing(e: Event, w: u32, id: u32, p: Seq<char>) -> bool {
    match e {
        Event::TaskProcessed { worker_id, task_id, payload } => worker_id == w && task_id == id
            && payload@ == p,
        _ => false,
    }
}

impl Worker {
    pub fn new(id: u32) -> (r: Worker)
        ensures
            r.id == id,
    {
        Worker { id }
    }

    /// Processes one work item, which is consumed, and reports it.
    pub fn process_task(&self, task: Task) -> (r: Event)
        ensures
            is_processing(r, self.id, task.id, task.payload@),
    {
        Event::TaskProcessed { worker_id: self.id, task_id: task.id, payload: task.payload }
    }
}

/// Builds the worker with the given id.
pub fn create_worker(id: u32) -> (r: Worker)
    ensures
        r.id == id,
{
    Worker::new(id)
}

/// Where a worker's loop stands between two receives. Processing an item
/// happens within one turn of the loop, after the receive that returned it.
#[derive(Clone, Copy, Debug, PartialEq, Eq, Structural)]
pub enum WorkerState {
    /// Waiting for the next receive to return.
    Waiting,
    /// Saw the queue closed and drained; the loop has ended for good.
    Terminated,
}

impl Worker {
    /// One turn of the worker loop, given what a receive returned: an item is
    /// processed and the worker waits again; a timeout is reported and the
    /// worker waits again; a closed queue ends the loop.
    pub fn on_receive(&self, outcome: Receive) -> (r: (WorkerState, Option<Event>))
        ensures
            match outcome {
                Receive::Item(t) => r.0 == WorkerState::Waiting
                    && r.1 is Some && is_processing(r.1->0, self.id, t.id, t.payload@),
                Receive::Timeout => r.0 == WorkerState::Waiting
                    && r.1 == Some(Event::WorkerTimeout { worker_id: self.id }),
                Receive::Closed => r.0 == WorkerState::Terminated && r.1 is None,
            },
    {
        match outcome {
            Receive::Item(task) => (WorkerState::Waiting, Some(self.process_task(task))),
            Receive::Timeout => (WorkerState::Waiting, Some(Event::WorkerTimeout { worker_id: self.id })),
            Receive::Closed => (WorkerState::Terminated, None),
        }
    }
}

} // verus!
