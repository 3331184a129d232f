use newsletter::errors::PublishFlowError;
use newsletter::outbox::OutboxQueue;
use newsletter::publish::handle_publish;
use newsletter::store::KeyStore;
use newsletter::store::NextAction;
use newsletter::worker::DeliveryWorker;

fn three_recipients() -> Vec<String> {
    vec![
        "first@example.com".to_string(),
        "second@example.com".to_string(),
        "third@example.com".to_string(),
    ]
}

#[test]
fn publish_scenario_replay_and_drain() {
    // user "alice" publishes with key "abc-123" and three confirmed
    // recipients; the first call redirects and enqueues three rows, the
    // second replays the same response without new rows, and one worker
    // drains the queue row by row.
    let mut store = KeyStore::new();
    let mut outbox = OutboxQueue::new();
    let alice: u128 = 0xa11ce;
    let issue: u128 = 7;
    let key = "abc-123".to_string();
    let recipients = three_recipients();

    let first = handle_publish(&mut store, &mut outbox, alice, &key, issue, &recipients)
        .expect("first publish should succeed");
    assert_eq!(first.status, 303);
    assert_eq!(first.headers.len(), 1);
    assert_eq!(first.headers[0].0, b"Location".to_vec());
    assert_eq!(first.headers[0].1, b"/admin/newsletters".to_vec());
    assert!(first.body.is_empty());
    assert_eq!(outbox.len(), 3);

    let second = handle_publish(&mut store, &mut outbox, alice, &key, issue, &recipients)
        .expect("replay should succeed");
    assert!(first.same_as(&second));
    assert_eq!(outbox.len(), 3);

    let mut worker = DeliveryWorker::new(1);
    for expected_left in [2usize, 1, 0] {
        let task = worker.begin_iteration(&mut outbox);
        let (task_issue, _recipient) = task.expect("a task should be available");
        assert_eq!(task_issue, issue);
        worker.finish_iteration(&mut outbox, Ok(()));
        assert_eq!(outbox.len(), expected_left);
    }
    assert!(worker.begin_iteration(&mut outbox).is_none());
}

#[test]
fn invalid_key_is_rejected_before_any_storage_effect() {
    let mut store = KeyStore::new();
    let mut outbox = OutboxQueue::new();
    let r = handle_publish(&mut store, &mut outbox, 1, &"bad key!".to_string(), 2,
        &three_recipients());
    assert!(matches!(r, Err(PublishFlowError::Validation(_))));
    assert_eq!(outbox.len(), 0);
}

#[test]
fn in_flight_key_reports_a_conflict() {
    let mut store = KeyStore::new();
    let mut outbox = OutboxQueue::new();
    let key = newsletter::keys::IdempotencyKey::try_new("k-1".to_string()).unwrap();
    // another request wins the race and is still processing
    let action = store.try_processing(9, &key).unwrap();
    assert!(matches!(action, NextAction::StartProcessing(_)));
    let r = handle_publish(&mut store, &mut outbox, 9, &"k-1".to_string(), 2,
        &three_recipients());
    assert!(matches!(r, Err(PublishFlowError::ConcurrencyConflict)));
    assert_eq!(outbox.len(), 0);
}

#[test]
fn same_key_for_another_user_is_independent() {
    let mut store = KeyStore::new();
    let mut outbox = OutboxQueue::new();
    let key = "shared-key".to_string();
    let recipients = three_recipients();
    handle_publish(&mut store, &mut outbox, 1, &key, 5, &recipients).unwrap();
    assert_eq!(outbox.len(), 3);
    handle_publish(&mut store, &mut outbox, 2, &key, 5, &recipients).unwrap();
    assert_eq!(outbox.len(), 6);
}

#[test]
fn concurrent_duplicates_have_one_winner() {
    // two requests race for the same key: the first wins, the second sees
    // the conflict while the first is in flight, and a third arriving
    // after completion replays the saved response.
    let mut store = KeyStore::new();
    let user: u128 = 3;
    let key = newsletter::keys::IdempotencyKey::try_new("race-1".to_string()).unwrap();

    let token = match store.try_processing(user, &key).unwrap() {
        NextAction::StartProcessing(t) => t,
        NextAction::ReturnSavedResponse(_) => panic!("first caller must win"),
    };
    assert!(matches!(
        store.try_processing(user, &key),
        Err(PublishFlowError::ConcurrencyConflict)
    ));

    let response = newsletter::response::SavedResponse::see_other("/done");
    let returned = store.save_response(token, &response);
    assert!(returned.same_as(&response));

    match store.try_processing(user, &key).unwrap() {
        NextAction::ReturnSavedResponse(saved) => assert!(saved.same_as(&response)),
        NextAction::StartProcessing(_) => panic!("a completed key can have no second winner"),
    }
    let fetched = store.get_saved_response(user, &key).unwrap();
    assert!(fetched.same_as(&response));
}
