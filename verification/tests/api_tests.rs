use sqs_mock::errors::ApiError;
use sqs_mock::helpers::compute_md5;
use sqs_mock::list_queues;
use sqs_mock::receive_message;
use sqs_mock::router::{handle_request, route_action, ActionKind, ApiResponse};
use sqs_mock::send_message;
use sqs_mock::store::QueueStore;

fn pair(k: &str, v: &str) -> (String, String) {
    (k.to_string(), v.to_string())
}

#[test]
fn md5_has_documented_exact_value() {
    assert_eq!(compute_md5("hello"), "5d41402abc4b2a76b9719d911017c592");
    assert_eq!(compute_md5(""), "d41d8cd98f00b204e9800998ecf8427e");
}

#[test]
fn send_message_checksum_matches_independent_digest() {
    let mut store = QueueStore::new();
    store.create_queue("myqueue");
    let body = "some important payload";
    let pairs = vec![pair("MessageBody", body)];
    let response = send_message::process_form(&mut store, pairs).unwrap();
    let independent = format!("{:x}", md5::compute(body));
    assert_eq!(response.send_message_result.md5_of_message_body, independent);
    assert_eq!(response.send_message_result.message_id.len(), 36);
    let delivered = store.pop("myqueue").unwrap().unwrap();
    assert_eq!(delivered.message_body, body);
    assert_eq!(delivered.id, response.send_message_result.message_id);
}

#[test]
fn send_message_without_body_is_malformed() {
    let mut store = QueueStore::new();
    store.create_queue("myqueue");
    let result = send_message::process_form(&mut store, vec![pair("DelaySeconds", "1")]);
    assert!(matches!(result, Err(ApiError::MalformedRequest)));
}

#[test]
fn send_message_to_missing_queue_is_queue_not_found() {
    let mut store = QueueStore::new();
    let result = send_message::process_form(&mut store, vec![pair("MessageBody", "x")]);
    assert!(matches!(result, Err(ApiError::QueueNotFound)));
}

#[test]
fn receive_message_returns_sent_message_then_empty() {
    let mut store = QueueStore::new();
    store.create_queue("myqueue");
    let sent =
        send_message::process_form(&mut store, vec![pair("MessageBody", "hello")]).unwrap();

    let received = receive_message::process(&mut store, b"").unwrap();
    assert_eq!(received.receive_message_result.messages.len(), 1);
    let msg = &received.receive_message_result.messages[0];
    assert_eq!(msg.body, "hello");
    assert_eq!(msg.message_id, sent.send_message_result.message_id);
    assert_eq!(msg.md5_of_body, compute_md5("hello"));
    assert_eq!(msg.receipt_handle, "");

    let empty = receive_message::process(&mut store, b"").unwrap();
    assert_eq!(empty.receive_message_result.messages.len(), 0);
}

#[test]
fn receive_message_on_missing_queue_is_queue_not_found() {
    let mut store = QueueStore::new();
    let result = receive_message::process(&mut store, b"");
    assert!(matches!(result, Err(ApiError::QueueNotFound)));
}

#[test]
fn list_queues_with_max_results_one_returns_exactly_one_name() {
    let mut store = QueueStore::new();
    store.create_queue("first");
    store.create_queue("second");
    let pairs = vec![pair("MaxResults", "1")];
    let response = list_queues::process_form(&store, "http://h", &pairs).unwrap();
    assert_eq!(response.list_queues_result.queue_url.len(), 1);
    assert_eq!(response.list_queues_result.queue_url[0], "http://h/first");
    assert_eq!(response.response_metadata.request_id.len(), 36);
}

#[test]
fn list_queues_defaults_and_filters() {
    let mut store = QueueStore::new();
    store.create_queue("alpha");
    store.create_queue("beta");
    let all = list_queues::process_form(&store, "http://h", &Vec::new()).unwrap();
    assert_eq!(all.list_queues_result.queue_url, vec!["http://h/alpha", "http://h/beta"]);
    let filtered =
        list_queues::process_form(&store, "http://h", &vec![pair("QueueNamePrefix", "be")])
            .unwrap();
    assert_eq!(filtered.list_queues_result.queue_url, vec!["http://h/beta"]);
    let bad = list_queues::process_form(&store, "http://h", &vec![pair("MaxResults", "lots")]);
    assert!(matches!(bad, Err(ApiError::MalformedRequest)));
}

#[test]
fn route_action_is_case_insensitive_and_strips_prefix() {
    assert_eq!(route_action("CreateQueue"), Ok(ActionKind::CreateQueue));
    assert_eq!(route_action("createqueue"), Ok(ActionKind::CreateQueue));
    assert_eq!(route_action("AmazonSQS.CreateQueue"), Ok(ActionKind::CreateQueue));
    assert_eq!(route_action("amazonsqs.listqueues"), Ok(ActionKind::ListQueues));
    assert_eq!(route_action("SENDMESSAGE"), Ok(ActionKind::SendMessage));
    assert_eq!(route_action("ReceiveMessage"), Ok(ActionKind::ReceiveMessage));
    assert!(matches!(route_action("DeleteQueue"), Err(ApiError::UnknownAction)));
}

#[test]
fn handle_request_dispatches_create_from_header() {
    let mut store = QueueStore::new();
    let result = handle_request(
        &mut store,
        "http://h",
        Some("CreateQueue".to_string()),
        b"QueueName=jobs",
    );
    let (response, entity) = result.unwrap();
    match response {
        ApiResponse::CreateQueue(r) => {
            assert_eq!(r.create_queue_result.queue_url, "http://h/jobs")
        },
        other => panic!("wrong response kind: {:?}", other),
    }
    assert_eq!(entity.unwrap().name, "jobs");
    assert!(store.contains("jobs"));
}

#[test]
fn handle_request_reads_action_from_body_when_no_header() {
    let mut store = QueueStore::new();
    store.create_queue("myqueue");
    let result = handle_request(
        &mut store,
        "http://h",
        None,
        b"Action=SendMessage&MessageBody=from+the+body",
    );
    let (response, entity) = result.unwrap();
    assert!(matches!(response, ApiResponse::SendMessage(_)));
    assert!(entity.is_none());
    let delivered = store.pop("myqueue").unwrap().unwrap();
    assert_eq!(delivered.message_body, "from the body");
}

#[test]
fn handle_request_header_takes_precedence_over_body_action() {
    let mut store = QueueStore::new();
    let result = handle_request(
        &mut store,
        "http://h",
        Some("ListQueues".to_string()),
        b"Action=CreateQueue&QueueName=ignored",
    );
    let (response, _) = result.unwrap();
    assert!(matches!(response, ApiResponse::ListQueues(_)));
    assert!(!store.contains("ignored"));
}

#[test]
fn handle_request_unknown_action_fails() {
    let mut store = QueueStore::new();
    let result = handle_request(&mut store, "http://h", Some("PurgeQueue".to_string()), b"");
    assert!(matches!(result, Err(ApiError::UnknownAction)));
    let no_action = handle_request(&mut store, "http://h", None, b"QueueName=q");
    assert!(matches!(no_action, Err(ApiError::UnknownAction)));
}

#[test]
fn error_messages_and_classes() {
    let invalid = ApiError::InvalidAttribute { name: "Nope".to_string() };
    assert_eq!(invalid.message(), "Invalid attribute name: Nope");
    assert!(invalid.is_client_error());
    assert!(ApiError::MalformedRequest.is_client_error());
    assert!(ApiError::UnknownAction.is_client_error());
    assert!(ApiError::QueueNotFound.is_client_error());
    assert!(!ApiError::StoreFailure.is_client_error());
    assert!(!ApiError::SerializationFailure.is_client_error());
}
