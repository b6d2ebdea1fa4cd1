use task_pool::task::{create_task, make_batch, Task};

#[test]
fn task_new_keeps_id_and_payload() {
    let t = Task::new(7, String::from("task 7"));
    assert_eq!(t.id, 7);
    assert_eq!(t.payload, "task 7");
}

#[test]
fn create_task_builds_the_item() {
    let t = create_task(3, String::from("hello"));
    assert_eq!(t, Task { id: 3, payload: String::from("hello") });
}

#[test]
fn empty_batch_has_no_items() {
    assert!(make_batch(0).is_empty());
}

#[test]
fn batch_ids_count_up_with_payloads_from_ids() {
    let batch = make_batch(12);
    assert_eq!(batch.len(), 12);
    for (i, t) in batch.iter().enumerate() {
        assert_eq!(t.id as usize, i);
        assert_eq!(t.payload, format!("task {}", i));
    }
    assert_eq!(batch[0].payload, "task 0");
    assert_eq!(batch[10].payload, "task 10");
}

#[test]
fn reference_batch_ends_at_999() {
    let batch = make_batch(1000);
    assert_eq!(batch.len(), 1000);
    assert_eq!(batch[999].id, 999);
    assert_eq!(batch[999].payload, "task 999");
}
