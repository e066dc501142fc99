use sqs_mock::create_queue::{process_form, CreateQueueParams};
use sqs_mock::errors::ApiError;
use sqs_mock::store::QueueStore;

fn pair(k: &str, v: &str) -> (String, String) {
    (k.to_string(), v.to_string())
}

fn standard_extra() -> Vec<(String, String)> {
    vec![
        pair("Attribute.1.Name", "DelaySeconds"),
        pair("Attribute.1.Value", "10"),
        pair("Attribute.2.Name", "MaximumMessageSize"),
        pair("Attribute.2.Value", "262144"),
    ]
}

#[test]
fn test_create_validate_attributes() {
    let mut params = CreateQueueParams {
        queue_name: "myqueue".to_string(),
        extra: standard_extra(),
        attributes: None,
        tags: None,
    };
    assert!(params.create_validate_attributes().is_ok());
}

#[test]
fn test_create_validate_attributes_fail() {
    let mut extra = standard_extra();
    extra[0] = pair("Attribute.1.Name", "NOT_EXISTS");
    let mut params = CreateQueueParams {
        queue_name: "myqueue".to_string(),
        extra,
        attributes: None,
        tags: None,
    };
    assert!(params.create_validate_attributes().is_err());
}

#[test]
fn create_queue_success_returns_url_ending_in_name() {
    let mut store = QueueStore::new();
    let mut pairs = standard_extra();
    pairs.insert(0, pair("QueueName", "myqueue"));
    let result = process_form(&mut store, "http://localhost:9090", pairs);
    let (response, entity) = result.unwrap();
    assert!(response.create_queue_result.queue_url.ends_with("/myqueue"));
    assert_eq!(response.create_queue_result.queue_url, "http://localhost:9090/myqueue");
    assert_eq!(entity.name, "myqueue");
    assert_eq!(entity.queue_type, "Standard");
    let attrs = entity.attributes.unwrap();
    assert_eq!(attrs.len(), 2);
    assert_eq!(attrs[0], pair("DelaySeconds", "10"));
    assert_eq!(attrs[1], pair("MaximumMessageSize", "262144"));
    assert!(store.contains("myqueue"));
}

#[test]
fn create_queue_invalid_attribute_leaves_store_untouched() {
    let mut store = QueueStore::new();
    let pairs = vec![
        pair("QueueName", "myqueue"),
        pair("Attribute.1.Name", "NOT_EXISTS"),
        pair("Attribute.1.Value", "10"),
        pair("Attribute.2.Name", "MaximumMessageSize"),
        pair("Attribute.2.Value", "262144"),
    ];
    let result = process_form(&mut store, "http://localhost:9090", pairs);
    match result {
        Err(ApiError::InvalidAttribute { name }) => assert_eq!(name, "NOT_EXISTS"),
        other => panic!("expected InvalidAttribute, got {:?}", other),
    }
    assert!(!store.contains("myqueue"));
    assert_eq!(store.queue_count(), 0);
}

#[test]
fn create_queue_without_name_is_malformed() {
    let mut store = QueueStore::new();
    let result = process_form(&mut store, "http://localhost:9090", standard_extra());
    assert!(matches!(result, Err(ApiError::MalformedRequest)));
    assert_eq!(store.queue_count(), 0);
}

#[test]
fn fifo_suffix_unlocks_fifo_only_attributes_and_type() {
    let mut store = QueueStore::new();
    let pairs = vec![
        pair("QueueName", "orders.fifo"),
        pair("Attribute.1.Name", "DeduplicationScope"),
        pair("Attribute.1.Value", "queue"),
    ];
    let (_, entity) = process_form(&mut store, "http://h", pairs).unwrap();
    assert_eq!(entity.queue_type, "Fifo");

    let mut store2 = QueueStore::new();
    let pairs2 = vec![
        pair("QueueName", "orders"),
        pair("Attribute.1.Name", "DeduplicationScope"),
        pair("Attribute.1.Value", "queue"),
    ];
    let result = process_form(&mut store2, "http://h", pairs2);
    assert!(matches!(result, Err(ApiError::InvalidAttribute { .. })));
}

#[test]
fn create_queue_extracts_tags_without_validation() {
    let mut store = QueueStore::new();
    let pairs = vec![
        pair("QueueName", "q"),
        pair("Tag.1.Name", "anything-goes"),
        pair("Tag.1.Value", "yes"),
        pair("Tags.2.Name", "team"),
        pair("Tags.2.Value", "core"),
    ];
    let (_, entity) = process_form(&mut store, "http://h", pairs).unwrap();
    let tags = entity.tags.unwrap();
    assert_eq!(tags.len(), 2);
    assert_eq!(tags[0], pair("anything-goes", "yes"));
    assert_eq!(tags[1], pair("team", "core"));
}
