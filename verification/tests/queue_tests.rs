use sqs_mock::errors::ApiError;
use sqs_mock::queue::{Message, Queue};
use sqs_mock::store::QueueStore;

fn message(id: &str, body: &str) -> Message {
    Message { id: id.to_string(), message_body: body.to_string() }
}

#[test]
fn test_push() {
    let mut queue = Queue::new("test", vec![]);
    let msg = message("id", "body");
    queue.push(msg.clone());
    assert_eq!(queue.len(), 1);
    assert_eq!(queue.get(0).unwrap().id, "id");
}

#[test]
fn test_remove() {
    let mut queue = Queue::new("test", vec![]);
    let msg = message("id", "body");
    queue.push(msg.clone());
    queue.remove("id");
    assert_eq!(queue.len(), 0);
}

#[test]
fn test_pop() {
    let mut queue = Queue::new("test", vec![]);
    let msg = message("id", "body");
    queue.push(msg.clone());
    let popped = queue.pop();
    assert_eq!(&popped, &Some(msg));
    assert_eq!(queue.len(), 0);
}

#[test]
fn remove_takes_first_match_only() {
    let mut queue = Queue::new("test", vec![]);
    queue.push(message("a", "1"));
    queue.push(message("b", "2"));
    queue.push(message("a", "3"));
    queue.remove("a");
    assert_eq!(queue.len(), 2);
    assert_eq!(queue.get(0).unwrap().id, "b");
    assert_eq!(queue.get(1).unwrap().id, "a");
    queue.remove("absent");
    assert_eq!(queue.len(), 2);
}

#[test]
fn store_push_then_pop_returns_pushed_message() {
    let mut store = QueueStore::new();
    assert!(store.create_queue("q"));
    store.push("q", message("m1", "hello")).unwrap();
    let popped = store.pop("q").unwrap();
    assert_eq!(popped, Some(message("m1", "hello")));
}

#[test]
fn store_pop_on_empty_queue_is_empty_not_an_error() {
    let mut store = QueueStore::new();
    store.create_queue("q");
    let popped = store.pop("q");
    assert_eq!(popped, Ok(None));
}

#[test]
fn store_pop_on_missing_queue_is_queue_not_found() {
    let mut store = QueueStore::new();
    let popped = store.pop("nope");
    assert_eq!(popped, Err(ApiError::QueueNotFound));
    let pushed = store.push("nope", message("m", "b"));
    assert_eq!(pushed, Err(ApiError::QueueNotFound));
}

#[test]
fn store_fifo_order_of_three_messages() {
    let mut store = QueueStore::new();
    store.create_queue("q");
    store.push("q", message("ida", "A")).unwrap();
    store.push("q", message("idb", "B")).unwrap();
    store.push("q", message("idc", "C")).unwrap();
    assert_eq!(store.pop("q").unwrap().unwrap().message_body, "A");
    assert_eq!(store.pop("q").unwrap().unwrap().message_body, "B");
    assert_eq!(store.pop("q").unwrap().unwrap().message_body, "C");
    assert_eq!(store.pop("q").unwrap(), None);
}

#[test]
fn store_create_is_idempotent_and_keeps_messages() {
    let mut store = QueueStore::new();
    assert!(store.create_queue("q"));
    store.push("q", message("m", "kept")).unwrap();
    assert!(!store.create_queue("q"));
    assert_eq!(store.pop("q").unwrap().unwrap().message_body, "kept");
}

#[test]
fn store_remove_by_id_drops_first_match_and_reports_missing_queue() {
    let mut store = QueueStore::new();
    store.create_queue("q");
    store.push("q", message("a", "1")).unwrap();
    store.push("q", message("b", "2")).unwrap();
    store.remove_by_id("q", "a").unwrap();
    assert_eq!(store.pop("q").unwrap().unwrap().id, "b");
    assert_eq!(store.remove_by_id("q", "absent"), Ok(()));
    assert_eq!(store.remove_by_id("ghost", "a"), Err(ApiError::QueueNotFound));
}

#[test]
fn store_list_respects_bound_prefix_and_creation_order() {
    let mut store = QueueStore::new();
    store.create_queue("alpha");
    store.create_queue("beta");
    store.create_queue("alps");
    let all = store.list(1000, None);
    assert_eq!(all, vec!["alpha", "beta", "alps"]);
    let bounded = store.list(2, None);
    assert_eq!(bounded, vec!["alpha", "beta"]);
    let filtered = store.list(1000, Some("alp"));
    assert_eq!(filtered, vec!["alpha", "alps"]);
    let none = store.list(0, None);
    assert_eq!(none.len(), 0);
}
