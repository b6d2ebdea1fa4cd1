use task_pool::pool::{run, Actor, Pool};
use task_pool::worker::{Event, WorkerState};

fn processed(events: &[Event]) -> Vec<(u32, u32)> {
    let mut out = Vec::new();
    for e in events {
        if let Event::TaskProcessed { worker_id, task_id, payload } = e {
            assert_eq!(*payload, format!("task {}", task_id));
            out.push((*worker_id, *task_id));
        }
    }
    out
}

fn timeouts(events: &[Event], worker: u32) -> usize {
    events
        .iter()
        .filter(|e| **e == Event::WorkerTimeout { worker_id: worker })
        .count()
}

fn completions(events: &[Event]) -> usize {
    events.iter().filter(|e| **e == Event::RunCompleted).count()
}

fn round_robin(num_workers: u32, rounds: u32) -> Vec<Actor> {
    let mut schedule = Vec::new();
    for _ in 0..rounds {
        schedule.push(Actor::Dispatcher);
        for w in 0..num_workers {
            schedule.push(Actor::Worker(w));
        }
    }
    schedule
}

#[test]
fn empty_batch_closes_at_once_and_completes() {
    let pool = run(0, 4, &Vec::new());
    assert_eq!(pool.log(), &vec![Event::RunCompleted]);
    assert!(pool.is_completed());
    assert_eq!(pool.states(), &vec![WorkerState::Terminated; 4]);
}

#[test]
fn single_item_over_four_workers_is_processed_once() {
    let schedule = vec![
        Actor::Worker(1),
        Actor::Worker(2),
        Actor::Dispatcher,
        Actor::Worker(3),
        Actor::Worker(2),
        Actor::Worker(0),
    ];
    let pool = run(1, 4, &schedule);
    let log = pool.log();
    assert_eq!(processed(log), vec![(3, 0)]);
    assert_eq!(timeouts(log, 1), 1);
    assert_eq!(timeouts(log, 2), 2);
    assert_eq!(timeouts(log, 0), 1);
    assert_eq!(completions(log), 1);
    assert_eq!(*log.last().unwrap(), Event::RunCompleted);
    assert_eq!(pool.states(), &vec![WorkerState::Terminated; 4]);
}

#[test]
fn reference_batch_processes_every_id_once() {
    let pool = run(1000, 4, &round_robin(4, 300));
    let log = pool.log();
    let done = processed(log);
    assert_eq!(done.len(), 1000);
    let mut seen = vec![false; 1000];
    for (_, id) in &done {
        assert!(!seen[*id as usize]);
        seen[*id as usize] = true;
    }
    assert!(seen.iter().all(|s| *s));
    assert_eq!(completions(log), 1);
    assert_eq!(*log.last().unwrap(), Event::RunCompleted);
    assert_eq!(pool.states(), &vec![WorkerState::Terminated; 4]);
}

#[test]
fn processing_follows_enqueue_order_per_worker() {
    let pool = run(40, 3, &round_robin(3, 25));
    let done = processed(pool.log());
    let ids: Vec<u32> = done.iter().map(|(_, id)| *id).collect();
    assert_eq!(ids, (0..40).collect::<Vec<u32>>());
    for w in 0..3 {
        let mine: Vec<u32> = done.iter().filter(|(v, _)| *v == w).map(|(_, id)| *id).collect();
        assert!(mine.windows(2).all(|p| p[0] < p[1]));
    }
}

#[test]
fn idle_worker_logs_timeout_and_keeps_waiting() {
    let mut pool = Pool::new(2, 2);
    pool.step(Actor::Worker(0));
    pool.step(Actor::Worker(0));
    assert_eq!(
        pool.log(),
        &vec![Event::WorkerTimeout { worker_id: 0 }, Event::WorkerTimeout { worker_id: 0 }]
    );
    assert_eq!(pool.states(), &vec![WorkerState::Waiting, WorkerState::Waiting]);
    pool.step(Actor::Dispatcher);
    pool.step(Actor::Worker(0));
    assert_eq!(processed(pool.log()), vec![(0, 0)]);
}

#[test]
fn worker_terminates_once_queue_is_closed_and_drained() {
    let mut pool = Pool::new(1, 2);
    pool.step(Actor::Dispatcher);
    pool.step(Actor::Dispatcher);
    pool.step(Actor::Worker(1));
    assert_eq!(pool.states(), &vec![WorkerState::Waiting, WorkerState::Waiting]);
    pool.step(Actor::Worker(1));
    pool.step(Actor::Worker(0));
    assert_eq!(pool.states(), &vec![WorkerState::Terminated, WorkerState::Terminated]);
    assert!(!pool.is_completed());
    pool.step(Actor::Dispatcher);
    assert!(pool.is_completed());
    pool.step(Actor::Dispatcher);
    assert_eq!(completions(pool.log()), 1);
}

#[test]
fn completion_waits_for_every_worker() {
    let mut pool = Pool::new(0, 2);
    pool.step(Actor::Dispatcher);
    pool.step(Actor::Worker(0));
    pool.step(Actor::Dispatcher);
    assert!(!pool.is_completed());
    assert_eq!(completions(pool.log()), 0);
    pool.finish();
    assert!(pool.is_completed());
    assert_eq!(pool.log(), &vec![Event::RunCompleted]);
}

#[test]
fn worker_outside_the_pool_changes_nothing() {
    let mut pool = Pool::new(1, 1);
    pool.step(Actor::Worker(5));
    assert!(pool.log().is_empty());
    assert_eq!(pool.states(), &vec![WorkerState::Waiting]);
}
