//! The ReceiveMessage operation: pop at most one message from the head of
//! the default queue and shape it into a response.
use crate::errors::ApiError;
use crate::helpers::{self, md5_hex_of};
use crate::queue::QueueView;
use crate::store::{default_queue_name, default_queue_name_spec, has_queue, queue_index, QueueStore};
use vstd::prelude::*;

verus! {

/// One received message as rendered in the response.  The receipt handle is
/// a placeholder: no visibility timeout is tracked, so nothing is ever
/// acknowledged through it.
#[derive(Debug, Clone)]
pub struct Message {
    pub message_id: String,
    pub receipt_handle: String,
    pub md5_of_body: String,
    pub body: String,
    pub attributes: Vec<(String, String)>,
    pub md5_of_message_attributes: String,
    pub message_attributes: Vec<(String, String)>,
}

/// The response of a ReceiveMessage: zero or one received messages.
#[derive(Debug, Clone)]
pub struct ReceiveMessageResponse {
    pub receive_message_result: ReceiveMessageResult,
    pub response_metadata: ResponseMetadata,
}

/// The payload of the response.
#[derive(Debug, Clone)]
pub struct ReceiveMessageResult {
    pub messages: Vec<Message>,
}

/// The envelope metadata: a fresh request id.
#[derive(Debug, Clone)]
pub struct ResponseMetadata {
    pub request_id: String,
}

/// Everything ReceiveMessage promises.  A missing default queue is
/// `QueueNotFound`; an empty queue yields a response with no messages, not
/// an error; otherwise the head message is removed and returned with its
/// id, its body, and the body's MD5 digest.
pub open spec fn receive_message_post(
    pre: Seq<QueueView>,
    post: Seq<QueueView>,
    r: Result<ReceiveMessageResponse, ApiError>,
) -> bool {
    if !has_queue(pre, default_queue_name_spec()) {
        (r matches Err(e) && e is QueueNotFound) && post == pre
    } else {
        let f = queue_index(pre, default_queue_name_spec());
        if pre[f].messages.len() == 0 {
            r matches Ok(resp) && {
                &&& resp.receive_message_result.messages@.len() == 0
                &&& resp.response_metadata.request_id@.len() == 36
                &&& post == pre
            }
        } else {
            r matches Ok(resp) && {
                &&& resp.receive_message_result.messages@.len() == 1
                &&& resp.receive_message_result.messages@[0].message_id@ == pre[f].messages[0].id
                &&& resp.receive_message_result.messages@[0].body@ == pre[f].messages[0].body
                &&& resp.receive_message_result.messages@[0].md5_of_body@ == md5_hex_of(
                    pre[f].messages[0].body,
                )
                &&& resp.receive_message_result.messages@[0].receipt_handle@.len() == 0
                &&& resp.response_metadata.request_id@.len() == 36
                &&& post == pre.update(
                    f,
                    QueueView { messages: pre[f].messages.skip(1), ..pre[f] },
                )
            }
        }
    }
}

/// Runs ReceiveMessage.  The request body carries no recognized fields, so
/// it is not consulted.
pub fn process(store: &mut QueueStore, _payload: &[u8]) -> (r: Result<
    ReceiveMessageResponse,
    ApiError,
>)
    ensures
        receive_message_post(old(store)@, final(store)@, r),
{
    let popped = match store.pop(default_queue_name()) {
        Ok(p) => p,
        Err(e) => {
            return Err(e);
        },
    };
    let messages = match popped {
        Some(msg) => {
            let md5 = helpers::compute_md5(msg.message_body.as_str());
            let mut v: Vec<Message> = Vec::new();
            v.push(
                Message {
                    message_id: msg.id,
                    receipt_handle: String::new(),
                    md5_of_body: md5,
                    body: msg.message_body,
                    attributes: Vec::new(),
                    md5_of_message_attributes: String::new(),
                    message_attributes: Vec::new(),
                },
            );
            v
        },
        None => Vec::new(),
    };
    let response = ReceiveMessageResponse {
        receive_message_result: ReceiveMessageResult { messages },
        response_metadata: ResponseMetadata { request_id: helpers::generate_random_uuid4() },
    };
    Ok(response)
}

} // verus!
