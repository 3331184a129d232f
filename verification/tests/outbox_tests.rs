use newsletter::outbox::OutboxQueue;
use newsletter::worker::DeliveryWorker;

fn queue_with(issue: u128, recipients: &[&str]) -> OutboxQueue {
    let mut q = OutboxQueue::new();
    let rows: Vec<String> = recipients.iter().map(|r| r.to_string()).collect();
    q.enqueue_many(issue, &rows);
    q
}

#[test]
fn dequeue_on_empty_queue_returns_nothing() {
    let mut q = OutboxQueue::new();
    let mut w = DeliveryWorker::new(1);
    assert!(w.begin_iteration(&mut q).is_none());
}

#[test]
fn two_workers_never_hold_the_same_row() {
    let mut q = queue_with(5, &["a@x.io", "b@x.io", "c@x.io"]);
    let mut w1 = DeliveryWorker::new(1);
    let mut w2 = DeliveryWorker::new(2);
    let t1 = w1.begin_iteration(&mut q).expect("first worker gets a row");
    let t2 = w2.begin_iteration(&mut q).expect("second worker gets a row");
    // duplicates are allowed in general, but these three rows are distinct
    assert_ne!(t1.1, t2.1);
    w1.finish_iteration(&mut q, Ok(()));
    w2.finish_iteration(&mut q, Ok(()));
    assert_eq!(q.len(), 1);
}

#[test]
fn locked_rows_are_invisible_to_other_workers() {
    let mut q = queue_with(5, &["only@x.io"]);
    let mut w1 = DeliveryWorker::new(1);
    let mut w2 = DeliveryWorker::new(2);
    assert!(w1.begin_iteration(&mut q).is_some());
    assert!(w2.begin_iteration(&mut q).is_none());
    w1.finish_iteration(&mut q, Ok(()));
    assert_eq!(q.len(), 0);
}

#[test]
fn crashed_worker_releases_its_task_for_another() {
    // the worker acquires the row and "crashes": its transaction is
    // rolled back, and the row must be dequeuable again, by anyone
    let mut q = queue_with(9, &["only@x.io"]);
    let mut w1 = DeliveryWorker::new(1);
    let mut w2 = DeliveryWorker::new(2);
    let t1 = w1.begin_iteration(&mut q).unwrap();
    w1.finish_iteration(&mut q, Err(newsletter::errors::DeliveryError::SendFailed));
    assert_eq!(q.len(), 1);
    let t2 = w2.begin_iteration(&mut q).expect("released row is dequeuable again");
    assert_eq!(t1, t2);
    w2.finish_iteration(&mut q, Ok(()));
    assert_eq!(q.len(), 0);
}

#[test]
fn failed_delivery_is_retried_not_lost() {
    let mut q = queue_with(4, &["a@x.io", "b@x.io"]);
    let mut w = DeliveryWorker::new(7);
    assert!(w.begin_iteration(&mut q).is_some());
    w.finish_iteration(&mut q, Err(newsletter::errors::DeliveryError::SendFailed));
    assert_eq!(q.len(), 2);
    // the queue drains once deliveries start succeeding
    while let Some(_task) = w.begin_iteration(&mut q) {
        w.finish_iteration(&mut q, Ok(()));
    }
    assert_eq!(q.len(), 0);
}

#[test]
fn duplicate_tasks_are_independent_units_of_work() {
    let mut q = queue_with(2, &["dup@x.io", "dup@x.io"]);
    let mut w = DeliveryWorker::new(1);
    let t1 = w.begin_iteration(&mut q).unwrap();
    w.finish_iteration(&mut q, Ok(()));
    assert_eq!(q.len(), 1);
    let t2 = w.begin_iteration(&mut q).unwrap();
    assert_eq!(t1, t2);
    w.finish_iteration(&mut q, Ok(()));
    assert_eq!(q.len(), 0);
}
