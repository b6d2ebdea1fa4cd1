use std::collections::VecDeque;
use vstd::prelude::*;
use crate::queue::SharedQueue;
use crate::task::{Task, make_batch, is_batch, payload_of};
use crate::worker::{WorkerState, Event, create_worker, is_processing};

verus! {

/// Who takes the next step of a run.
#[derive(Clone, Copy, Debug, PartialEq, Eq, Structural)]
pub enum Actor {
    /// Enqueues the next item, or closes the queue, or reports completion.
    Dispatcher,
    /// Runs one turn of the loop of the worker with this id.
    Worker(u32),
}

/// The ids of the items reported processed, in order of report.
pub open spec fn processed_ids(log: Seq<Event>) -> Seq<u32>
    decreases log.len(),
{
    if log.len() == 0 {
        Seq::empty()
    } else {
        let rest = processed_ids(log.drop_last());
        match log.last() {
            Event::TaskProcessed { task_id, .. } => rest.push(task_id),
            _ => rest,
        }
    }
}

/// The ids of the items that worker `w` reported processing, in order of report.
pub open spec fn processed_by(log: Seq<Event>, w: u32) -> Seq<u32>
    decreases log.len(),
{
    if log.len() == 0 {
        Seq::empty()
    } else {
        let rest = processed_by(log.drop_last(), w);
        match log.last() {
            Event::TaskProcessed { worker_id, task_id, .. } => if worker_id == w {
                rest.push(task_id)
            } else {
                rest
            },
            _ => rest,
        }
    }
}

/// `s` is `0, 1, 2, ...`.
pub open spec fn counts_up(s: Seq<u32>) -> bool {
    forall|i: int| 0 <= i < s.len() ==> #[trigger] s[i] == i
}

/// `s` is strictly increasing.
pub open spec fn increasing(s: Seq<u32>) -> bool {
    forall|i: int, j: int| 0 <= i < j < s.len() ==> s[i] < s[j]
}

/// Every element of `s` is below `n`.
pub open spec fn all_below(s: Seq<u32>, n: nat) -> bool {
    forall|i: int| 0 <= i < s.len() ==> #[trigger] s[i] < n
}

/// Every processing report carries the payload that belongs to its item's id.
pub open spec fn payloads_match(log: Seq<Event>) -> bool {
    forall|i: int| 0 <= i < log.len() ==> match #[trigger] log[i] {
        Event::TaskProcessed { task_id, payload, .. } => payload@ == payload_of(task_id),
        _ => true,
    }
}

/// Every report names a worker of a pool of `n`.
pub open spec fn reporters_below(log: Seq<Event>, n: nat) -> bool {
    forall|i: int| 0 <= i < log.len() ==> match #[trigger] log[i] {
        Event::TaskProcessed { worker_id, .. } => worker_id < n,
        Event::WorkerTimeout { worker_id } => worker_id < n,
        Event::RunCompleted => true,
    }
}

/// Completion is reported once, as the last event.
pub open spec fn completed_once(log: Seq<Event>) -> bool {
    &&& log.len() > 0
    &&& log.last() is RunCompleted
    &&& forall|i: int| 0 <= i < log.len() - 1 ==> !(#[trigger] log[i] is RunCompleted)
}

/// Completion is reported at most once, and nothing follows it.
pub open spec fn completion_last(log: Seq<Event>) -> bool {
    forall|i: int| 0 <= i < log.len() && (#[trigger] log[i] is RunCompleted) ==> i == log.len() - 1
}

proof fn lemma_processed_push(log: Seq<Event>, e: Event)
    ensures
        processed_ids(log.push(e)) == match e {
            Event::TaskProcessed { task_id, .. } => processed_ids(log).push(task_id),
            _ => processed_ids(log),
        },
        forall|w: u32| #[trigger] processed_by(log.push(e), w) == match e {
            Event::TaskProcessed { worker_id, task_id, .. } => if worker_id == w {
                processed_by(log, w).push(task_id)
            } else {
                processed_by(log, w)
            },
            _ => processed_by(log, w),
        },
{
    assert(log.push(e).drop_last() =~= log);
}

/// Appending one event that is itself in order keeps the log in order.
proof fn lemma_push_keeps_earlier(log: Seq<Event>, e: Event, n: nat)
    requires
        payloads_match(log),
        reporters_below(log, n),
        completion_last(log),
        log.len() > 0 ==> !(log.last() is RunCompleted),
        payloads_match(seq![e]),
        reporters_below(seq![e], n),
    ensures
        payloads_match(log.push(e)),
        reporters_below(log.push(e), n),
        completion_last(log.push(e)),
{
    let l = log.push(e);
    assert forall|i: int| 0 <= i < l.len() && (#[trigger] l[i] is RunCompleted) implies i == l.len() - 1 by {
        if i < log.len() {
            assert(log[i] == l[i]);
        }
    }
    assert forall|i: int| 0 <= i < l.len() implies match #[trigger] l[i] {
        Event::TaskProcessed { task_id, payload, .. } => payload@ == payload_of(task_id),
        _ => true,
    } by {
        if i < log.len() {
            assert(log[i] == l[i]);
        } else {
            assert(seq![e][0] == l[i]);
        }
    }
    assert forall|i: int| 0 <= i < l.len() implies match #[trigger] l[i] {
        Event::TaskProcessed { worker_id, .. } => worker_id < n,
        Event::WorkerTimeout { worker_id } => worker_id < n,
        Event::RunCompleted => true,
    } by {
        if i < log.len() {
            assert(log[i] == l[i]);
        } else {
            assert(seq![e][0] == l[i]);
        }
    }
}

/// One run of the protocol: the dispatcher's unsent items, the shared queue,
/// the state of each worker and the events reported so far.
pub struct Pool {
    queue: SharedQueue,
    unsent: VecDeque<Task>,
    size: u32,
    states: Vec<WorkerState>,
    log: Vec<Event>,
    completed: bool,
}

impl Pool {
    /// The events reported so far, oldest first.
    pub closed spec fn events(&self) -> Seq<Event> {
        self.log@
    }

    /// The state of each worker, by id.
    pub closed spec fn worker_states(&self) -> Seq<WorkerState> {
        self.states@
    }

    /// The number of items in the batch.
    pub closed spec fn batch_size(&self) -> nat {
        self.size as nat
    }

    /// The items the dispatcher has not enqueued yet.
    pub closed spec fn unsent_items(&self) -> Seq<Task> {
        self.unsent@
    }

    /// The items enqueued and not yet received.
    pub closed spec fn pending(&self) -> Seq<Task> {
        self.queue.pending()
    }

    /// Whether the dispatcher has closed the queue.
    pub closed spec fn is_shut(&self) -> bool {
        self.queue.is_shut()
    }

    /// Whether the dispatcher has reported completion.
    pub closed spec fn is_done(&self) -> bool {
        self.completed
    }

    /// Every worker has reached `Terminated`.
    pub open spec fn all_terminated(&self) -> bool {
        forall|v: int| 0 <= v < self.worker_states().len()
            ==> #[trigger] self.worker_states()[v] == WorkerState::Terminated
    }

    /// What holds of every pool that `new` and `step` can produce.
    pub closed spec fn wf(&self) -> bool {
        let done = processed_ids(self.log@);
        let next = self.size - self.unsent@.len();
        &&& self.unsent@.len() <= self.size
        &&& is_batch(self.unsent@, next as nat, self.size as nat)
        &&& counts_up(done)
        &&& is_batch(self.queue.pending(), done.len(), next as nat)
        &&& payloads_match(self.log@)
        &&& reporters_below(self.log@, self.states@.len())
        &&& completion_last(self.log@)
        &&& self.states@.len() <= u32::MAX
        &&& forall|w: u32| #![trigger processed_by(self.log@, w)]
            increasing(processed_by(self.log@, w)) && all_below(processed_by(self.log@, w), done.len())
        &&& self.queue.is_shut() ==> self.unsent@.len() == 0
        &&& forall|v: int| 0 <= v < self.states@.len() && #[trigger] self.states@[v] == WorkerState::Terminated
            ==> self.queue.is_shut() && self.queue.pending().len() == 0
        &&& self.completed ==> self.all_terminated() && self.log@.len() > 0 && self.log@.last() is RunCompleted
        &&& (self.log@.len() > 0 && self.log@.last() is RunCompleted) ==> self.completed
    }

    /// A pool about to run a batch of `batch_size` items over `num_workers`
    /// workers: the batch is enumerated, the queue open and empty, every
    /// worker waiting, nothing reported.
    pub fn new(batch_size: u32, num_workers: u32) -> (r: Pool)
        ensures
            r.wf(),
            r.batch_size() == batch_size,
            r.worker_states() == Seq::new(num_workers as nat, |v: int| WorkerState::Waiting),
            r.events() == Seq::<Event>::empty(),
            is_batch(r.unsent_items(), 0, batch_size as nat),
            r.pending() == Seq::<Task>::empty(),
            !r.is_shut(),
            !r.is_done(),
    {
        let mut batch = make_batch(batch_size);
        let ghost all = batch@;
        let mut unsent: VecDeque<Task> = VecDeque::new();
        while batch.len() > 0
            invariant
                all.len() == batch_size,
                is_batch(all, 0, batch_size as nat),
                batch@.len() <= all.len(),
                batch@ == all.subrange(0, batch@.len() as int),
                unsent@ == all.subrange(batch@.len() as int, all.len() as int),
            decreases batch.len(),
        {
            let task = batch.pop().unwrap();
            unsent.push_front(task);
            assert(unsent@ =~= all.subrange(batch@.len() as int, all.len() as int));
        }
        assert(unsent@ =~= all);
        let mut states: Vec<WorkerState> = Vec::new();
        let mut v: u32 = 0;
        while v < num_workers
            invariant
                v <= num_workers,
                states@ == Seq::new(v as nat, |k: int| WorkerState::Waiting),
            decreases num_workers - v,
        {
            states.push(WorkerState::Waiting);
            v = v + 1;
            assert(states@ =~= Seq::new(v as nat, |k: int| WorkerState::Waiting));
        }
        let r = Pool {
            queue: SharedQueue::new(),
            unsent,
            size: batch_size,
            states,
            log: Vec::new(),
            completed: false,
        };
        assert(processed_ids(r.log@) =~= Seq::<u32>::empty());
        assert forall|w: u32| #![trigger processed_by(r.log@, w)]
            increasing(processed_by(r.log@, w)) && all_below(processed_by(r.log@, w), 0) by {
            assert(processed_by(r.log@, w) =~= Seq::<u32>::empty());
        }
        r
    }

    /// The pool's shape stays as it was and reports are only ever appended.
    pub open spec fn extends(&self, earlier: &Pool) -> bool {
        &&& self.wf()
        &&& self.batch_size() == earlier.batch_size()
        &&& self.worker_states().len() == earlier.worker_states().len()
        &&& self.events().len() >= earlier.events().len()
        &&& self.events().subrange(0, earlier.events().len() as int) == earlier.events()
        &&& forall|v: int| 0 <= v < earlier.worker_states().len()
            && #[trigger] earlier.worker_states()[v] == WorkerState::Terminated
            ==> self.worker_states()[v] == WorkerState::Terminated
    }

    /// One turn of the loop of worker `w`: receive, then act on the outcome.
    fn worker_step(&mut self, w: u32)
        requires
            old(self).wf(),
            w < old(self).worker_states().len(),
        ensures
            final(self).extends(old(self)),
            worker_turn(old(self), final(self), w),
    {
        if self.states[w as usize] == WorkerState::Terminated {
            assert(self.log@.subrange(0, self.log@.len() as int) =~= self.log@);
            return;
        }
        let ghost log0 = self.log@;
        let ghost pending0 = self.queue.pending();
        let outcome = self.queue.try_receive();
        let worker = create_worker(w);
        let (state, event) = worker.on_receive(outcome);
        self.states.set(w as usize, state);
        match event {
            Some(e) => {
                self.log.push(e);
                proof {
                    lemma_processed_push(log0, e);
                    assert(seq![e][0] == e);
                    lemma_push_keeps_earlier(log0, e, self.states@.len());
                }
            },
            None => {},
        }
        proof {
            let done0 = processed_ids(log0);
            let done = processed_ids(self.log@);
            assert(self.log@.subrange(0, log0.len() as int) =~= log0);
            if pending0.len() > 0 {
                assert(pending0[0].id == done0.len());
                assert(self.queue.pending() =~= pending0.drop_first());
                assert(done =~= done0.push(pending0[0].id));
                assert(self.log@.drop_last() =~= log0);
                assert forall|u: u32| #![trigger processed_by(self.log@, u)]
                    increasing(processed_by(self.log@, u)) && all_below(processed_by(self.log@, u), done.len()) by {
                    assert(all_below(processed_by(log0, u), done0.len()));
                    assert(increasing(processed_by(log0, u)));
                }
            }
        }
    }

    /// Whether every worker has reached `Terminated`.
    fn workers_done(&self) -> (r: bool)
        ensures
            r == self.all_terminated(),
    {
        let mut v: usize = 0;
        while v < self.states.len()
            invariant
                v <= self.states@.len(),
                forall|k: int| 0 <= k < v ==> #[trigger] self.states@[k] == WorkerState::Terminated,
            decreases self.states@.len() - v,
        {
            if self.states[v] != WorkerState::Terminated {
                return false;
            }
            v = v + 1;
        }
        true
    }

    /// One move of the dispatcher: enqueue the next item; with none left,
    /// close the queue; once closed, report completion when every worker
    /// has terminated, and not again.
    fn dispatcher_step(&mut self)
        requires
            old(self).wf(),
        ensures
            final(self).extends(old(self)),
            final(self).worker_states() == old(self).worker_states(),
            dispatcher_move(old(self), final(self)),
    {
        let ghost log0 = self.log@;
        let ghost pending0 = self.queue.pending();
        let ghost unsent0 = self.unsent@;
        match self.unsent.pop_front() {
            Some(task) => {
                // The queue stays open while the dispatcher holds items, so this succeeds.
                let _ = self.queue.enqueue(task);
                assert(self.queue.pending() =~= pending0.push(unsent0[0]));
                assert(self.unsent@ =~= unsent0.drop_first());
            },
            None => {
                if !self.queue.is_closed() {
                    self.queue.close();
                } else if !self.completed && self.workers_done() {
                    self.log.push(Event::RunCompleted);
                    self.completed = true;
                    proof {
                        lemma_processed_push(log0, Event::RunCompleted);
                        assert(seq![Event::RunCompleted][0] == Event::RunCompleted);
                        lemma_push_keeps_earlier(log0, Event::RunCompleted, self.states@.len());
                    }
                }
            },
        }
        assert(self.log@.subrange(0, log0.len() as int) =~= log0);
        assert(self.wf());
    }

    /// Lets `actor` take one step. A worker id outside the pool changes nothing.
    pub fn step(&mut self, actor: Actor)
        requires
            old(self).wf(),
        ensures
            final(self).extends(old(self)),
            actor == Actor::Dispatcher ==> dispatcher_move(old(self), final(self)),
            forall|w: u32| actor == Actor::Worker(w) ==> {
                if w < old(self).worker_states().len() {
                    worker_turn(old(self), final(self), w)
                } else {
                    &&& final(self).worker_states() == old(self).worker_states()
                    &&& final(self).events() == old(self).events()
                    &&& final(self).pending() == old(self).pending()
                    &&& final(self).unsent_items() == old(self).unsent_items()
                    &&& final(self).is_shut() == old(self).is_shut()
                    &&& final(self).is_done() == old(self).is_done()
                }
            },
    {
        match actor {
            Actor::Dispatcher => self.dispatcher_step(),
            Actor::Worker(w) => {
                if (w as usize) < self.states.len() {
                    self.worker_step(w);
                } else {
                    assert(self.log@.subrange(0, self.log@.len() as int) =~= self.log@);
                }
            },
        }
    }

    /// Drives the run to its end: the dispatcher enqueues what is left and
    /// closes the queue, each worker in turn drains it and terminates, and the
    /// dispatcher reports completion once.
    pub fn finish(&mut self)
        requires
            old(self).wf(),
        ensures
            final(self).extends(old(self)),
            final(self).is_done(),
            final(self).all_terminated(),
            completed_once(final(self).events()),
    {
        let ghost start = *self;
        proof {
            lemma_extends_refl(self);
        }
        while self.unsent.len() > 0 || !self.queue.is_closed()
            invariant
                self.extends(&start),
            decreases self.unsent@.len() + (if self.queue.is_shut() { 0int } else { 1int }),
        {
            let ghost before = *self;
            self.dispatcher_step();
            proof {
                lemma_extends_trans(&start, &before, self);
            }
        }
        let mut w: usize = 0;
        while w < self.states.len()
            invariant
                self.extends(&start),
                self.queue.is_shut(),
                w <= self.states@.len(),
                forall|k: int| 0 <= k < w ==> #[trigger] self.states@[k] == WorkerState::Terminated,
            decreases self.states@.len() - w,
        {
            while self.states[w] != WorkerState::Terminated
                invariant
                    self.extends(&start),
                    self.queue.is_shut(),
                    w < self.states@.len(),
                    forall|k: int| 0 <= k < w ==> #[trigger] self.states@[k] == WorkerState::Terminated,
                decreases self.queue.pending().len()
                    + (if self.states@[w as int] == WorkerState::Waiting { 1int } else { 0int }),
            {
                let ghost before = *self;
                self.worker_step(w as u32);
                proof {
                    lemma_extends_trans(&start, &before, self);
                }
            }
            w = w + 1;
        }
        if !self.completed {
            let ghost before = *self;
            self.dispatcher_step();
            proof {
                lemma_extends_trans(&start, &before, self);
            }
        }
        proof {
            assert(self.log@.len() > 0 && self.log@.last() is RunCompleted);
            assert forall|i: int| 0 <= i < self.log@.len() - 1 implies !(#[trigger] self.log@[i] is RunCompleted) by {}
        }
    }

    /// The events reported so far, oldest first.
    pub fn log(&self) -> (r: &Vec<Event>)
        ensures
            r@ == self.events(),
    {
        &self.log
    }

    /// The state of each worker, by id.
    pub fn states(&self) -> (r: &Vec<WorkerState>)
        ensures
            r@ == self.worker_states(),
    {
        &self.states
    }

    /// Whether completion has been reported.
    pub fn is_completed(&self) -> (r: bool)
        ensures
            r == self.is_done(),
    {
        self.completed
    }
}

/// One turn of worker `w` (an id of the pool) took `a` to `b`. A terminated
/// worker does nothing. A waiting one takes the oldest pending item and
/// reports processing it; with none pending it terminates if the queue is
/// closed, and otherwise reports a timeout and keeps waiting. Nothing else
/// changes: no other worker, not what the dispatcher holds, not the queue's
/// state.
pub open spec fn worker_turn(a: &Pool, b: &Pool, w: u32) -> bool {
    &&& forall|v: int| 0 <= v < a.worker_states().len() && v != w
        ==> #[trigger] b.worker_states()[v] == a.worker_states()[v]
    &&& b.unsent_items() == a.unsent_items()
    &&& b.is_shut() == a.is_shut()
    &&& b.is_done() == a.is_done()
    &&& a.worker_states()[w as int] == WorkerState::Terminated ==> {
        &&& b.worker_states()[w as int] == WorkerState::Terminated
        &&& b.events() == a.events()
        &&& b.pending() == a.pending()
    }
    &&& a.worker_states()[w as int] == WorkerState::Waiting ==> {
        if a.pending().len() > 0 {
            &&& b.worker_states()[w as int] == WorkerState::Waiting
            &&& b.pending() == a.pending().drop_first()
            &&& b.events().len() == a.events().len() + 1
            &&& b.events().drop_last() == a.events()
            &&& is_processing(b.events().last(), w, a.pending()[0].id, a.pending()[0].payload@)
        } else if a.is_shut() {
            &&& b.worker_states()[w as int] == WorkerState::Terminated
            &&& b.events() == a.events()
            &&& b.pending() == a.pending()
        } else {
            &&& b.worker_states()[w as int] == WorkerState::Waiting
            &&& b.events() == a.events().push(Event::WorkerTimeout { worker_id: w })
            &&& b.pending() == a.pending()
        }
    }
}

/// One move of the dispatcher took `a` to `b`: it enqueues the next item it
/// holds; holding none, it closes the queue; once closed, it reports
/// completion when every worker has terminated, and only once.
pub open spec fn dispatcher_move(a: &Pool, b: &Pool) -> bool {
    &&& b.worker_states() == a.worker_states()
    &&& a.unsent_items().len() > 0 ==> {
        &&& b.unsent_items() == a.unsent_items().drop_first()
        &&& b.pending() == a.pending().push(a.unsent_items()[0])
        &&& !b.is_shut()
        &&& b.events() == a.events()
        &&& b.is_done() == a.is_done()
    }
    &&& a.unsent_items().len() == 0 ==> {
        &&& b.unsent_items() == a.unsent_items()
        &&& b.pending() == a.pending()
        &&& b.is_shut()
    }
    &&& a.unsent_items().len() == 0 && !a.is_shut() ==> {
        &&& b.events() == a.events()
        &&& b.is_done() == a.is_done()
    }
    &&& a.is_shut() && a.all_terminated() && !a.is_done() ==> {
        &&& b.is_done()
        &&& b.events() == a.events().push(Event::RunCompleted)
    }
    &&& a.is_shut() && !(a.all_terminated() && !a.is_done()) ==> {
        &&& b.is_done() == a.is_done()
        &&& b.events() == a.events()
    }
}

proof fn lemma_extends_refl(p: &Pool)
    requires
        p.wf(),
    ensures
        p.extends(p),
{
    assert(p.events().subrange(0, p.events().len() as int) =~= p.events());
}

proof fn lemma_extends_trans(a: &Pool, b: &Pool, c: &Pool)
    requires
        b.extends(a),
        c.extends(b),
    ensures
        c.extends(a),
{
    assert(c.events().subrange(0, a.events().len() as int)
        =~= b.events().subrange(0, a.events().len() as int));
    assert forall|v: int| 0 <= v < a.worker_states().len()
        && #[trigger] a.worker_states()[v] == WorkerState::Terminated
        implies c.worker_states()[v] == WorkerState::Terminated by {
        assert(b.worker_states()[v] == WorkerState::Terminated);
    }
}

/// Runs a batch of `batch_size` items over `num_workers` workers: first the
/// steps that `schedule` lists, in order, then to the end as `finish` does.
pub fn run(batch_size: u32, num_workers: u32, schedule: &Vec<Actor>) -> (r: Pool)
    ensures
        r.wf(),
        r.batch_size() == batch_size,
        r.worker_states().len() == num_workers,
        r.all_terminated(),
        r.is_done(),
        completed_once(r.events()),
        payloads_match(r.events()),
        reporters_below(r.events(), num_workers as nat),
        num_workers > 0 ==> processed_ids(r.events()) == Seq::new(batch_size as nat, |i: int| i as u32),
{
    let mut pool = Pool::new(batch_size, num_workers);
    let mut i: usize = 0;
    while i < schedule.len()
        invariant
            pool.wf(),
            pool.batch_size() == batch_size,
            pool.worker_states().len() == num_workers,
        decreases schedule@.len() - i,
    {
        pool.step(schedule[i]);
        i = i + 1;
    }
    pool.finish();
    proof {
        if num_workers > 0 {
            lemma_all_processed(&pool);
        }
    }
    pool
}

/// In every state of a run, no item has been reported processed twice, and
/// only items of the batch have been.
pub proof fn lemma_no_duplicate_processing(p: &Pool)
    requires
        p.wf(),
    ensures
        processed_ids(p.events()).no_duplicates(),
        forall|i: int| 0 <= i < processed_ids(p.events()).len()
            ==> #[trigger] processed_ids(p.events())[i] < p.batch_size(),
{
}

/// Once a run with at least one worker has reported completion, the items
/// reported processed are exactly those of the batch, each once, in the
/// order they were enqueued.
pub proof fn lemma_all_processed(p: &Pool)
    requires
        p.wf(),
        p.is_done(),
        p.worker_states().len() > 0,
    ensures
        processed_ids(p.events()) == Seq::new(p.batch_size(), |i: int| i as u32),
{
    let done = processed_ids(p.events());
    assert(p.worker_states()[0] == WorkerState::Terminated);
    assert(done =~= Seq::new(p.batch_size(), |i: int| i as u32));
}

/// Items enter the queue in id order: what is pending and what the
/// dispatcher still holds continue the ids already processed, one by one.
pub proof fn lemma_enqueue_order(p: &Pool)
    requires
        p.wf(),
    ensures
        forall|i: int| 0 <= i < p.pending().len()
            ==> #[trigger] p.pending()[i].id == processed_ids(p.events()).len() + i,
        forall|i: int| 0 <= i < p.unsent_items().len()
            ==> #[trigger] p.unsent_items()[i].id
                == processed_ids(p.events()).len() + p.pending().len() + i,
        processed_ids(p.events()).len() + p.pending().len() + p.unsent_items().len() == p.batch_size(),
{
}

/// Each worker receives its items in the order they were enqueued.
pub proof fn lemma_worker_sees_fifo(p: &Pool, w: u32)
    requires
        p.wf(),
    ensures
        increasing(processed_by(p.events(), w)),
{
}

/// A waiting worker that finds nothing pending while the queue is open
/// reports a timeout and keeps waiting; it neither terminates nor puts
/// anything back into the queue.
pub proof fn lemma_timeout_keeps_waiting(a: &Pool, b: &Pool, w: u32)
    requires
        a.wf(),
        w < a.worker_states().len(),
        a.worker_states()[w as int] == WorkerState::Waiting,
        a.pending().len() == 0,
        !a.is_shut(),
        worker_turn(a, b, w),
    ensures
        b.worker_states()[w as int] == WorkerState::Waiting,
        b.events() == a.events().push(Event::WorkerTimeout { worker_id: w }),
        b.pending() == a.pending(),
        b.unsent_items() == a.unsent_items(),
{
}

/// Once the queue is closed and drained, the next turn of any worker that
/// has not yet terminated ends its loop.
pub proof fn lemma_closed_and_drained_terminates(a: &Pool, b: &Pool, w: u32)
    requires
        a.wf(),
        w < a.worker_states().len(),
        a.is_shut(),
        a.pending().len() == 0,
        worker_turn(a, b, w),
    ensures
        b.worker_states()[w as int] == WorkerState::Terminated,
        b.events() == a.events(),
{
}

} // verus!
