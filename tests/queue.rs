use task_pool::queue::{QueueError, Receive, SharedQueue};
use task_pool::task::Task;

fn item(id: u32) -> Task {
    Task::new(id, format!("task {}", id))
}

#[test]
fn new_queue_is_open_and_empty() {
    let mut q = SharedQueue::new();
    assert!(!q.is_closed());
    assert_eq!(q.len(), 0);
    assert_eq!(q.try_receive(), Receive::Timeout);
    assert!(!q.is_closed());
}

#[test]
fn items_come_out_in_enqueue_order() {
    let mut q = SharedQueue::new();
    for id in 0..5 {
        assert_eq!(q.enqueue(item(id)), Ok(()));
    }
    assert_eq!(q.len(), 5);
    for id in 0..5 {
        assert_eq!(q.try_receive(), Receive::Item(item(id)));
    }
    assert_eq!(q.try_receive(), Receive::Timeout);
}

#[test]
fn closed_queue_still_yields_its_items_then_reports_closed() {
    let mut q = SharedQueue::new();
    q.enqueue(item(0)).unwrap();
    q.enqueue(item(1)).unwrap();
    q.close();
    assert!(q.is_closed());
    assert_eq!(q.try_receive(), Receive::Item(item(0)));
    assert_eq!(q.try_receive(), Receive::Item(item(1)));
    assert_eq!(q.try_receive(), Receive::Closed);
    assert_eq!(q.try_receive(), Receive::Closed);
}

#[test]
fn enqueue_after_close_is_refused() {
    let mut q = SharedQueue::new();
    q.close();
    assert_eq!(q.enqueue(item(0)), Err(QueueError::ChannelClosedUnexpectedly));
    assert_eq!(q.len(), 0);
    assert_eq!(q.try_receive(), Receive::Closed);
}
