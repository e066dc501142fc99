//! The SendMessage operation: decode the body, mint a fresh message id,
//! fingerprint the body, and append the message to the default queue.
use crate::errors::ApiError;
use crate::helpers::{
    self, extract_entries, form_get, md5_hex_of, params_view, parse_i32_spec, ParamValues,
};
use crate::queue::{Message, MessageView, QueueView};
use crate::store::{default_queue_name, default_queue_name_spec, has_queue, queue_index, QueueStore};
use vstd::prelude::*;

verus! {

/// The key prefix of indexed message-attribute parameters.
pub open spec fn msg_attr_prefixes_spec() -> Seq<Seq<char>> {
    seq!["MessageAttribute"@]
}

fn msg_attr_prefixes() -> (r: Vec<String>)
    ensures
        r.deep_view() == msg_attr_prefixes_spec(),
{
    let mut v: Vec<String> = Vec::new();
    v.push("MessageAttribute".to_owned());
    proof {
        assert(v.deep_view() =~= msg_attr_prefixes_spec());
    }
    v
}

/// The decoded SendMessage request.
#[derive(Debug)]
pub struct SendMessageParams {
    pub message_body: String,
    pub delay_seconds: Option<i32>,
    pub extra: Vec<(String, String)>,
    /// Populated by `populate_attributes`.
    pub attributes: Option<Vec<ParamValues>>,
}

/// The response of a successful SendMessage.
#[derive(Debug, Clone)]
pub struct SendMessageResponse {
    pub send_message_result: SendMessageResult,
    pub reponse_metadata: ResponseMetadata,
}

/// The payload of the response: the fresh message id and the body digest.
#[derive(Debug, Clone)]
pub struct SendMessageResult {
    pub message_id: String,
    pub md5_of_message_body: String,
}

/// The envelope metadata: a fresh request id.
#[derive(Debug, Clone)]
pub struct ResponseMetadata {
    pub request_id: String,
}

impl SendMessageParams {
    /// Decodes the request fields: `MessageBody` is required, and
    /// `DelaySeconds`, when present, must be a decimal `i32`.
    pub fn from_pairs(pairs: Vec<(String, String)>) -> (r: Result<SendMessageParams, ApiError>)
        ensures
            form_get(pairs.deep_view(), "MessageBody"@) is None ==> (r matches Err(e)
                && e is MalformedRequest),
            (form_get(pairs.deep_view(), "MessageBody"@) is Some && form_get(
                pairs.deep_view(),
                "DelaySeconds"@,
            ) is None) ==> (r matches Ok(p) && p.message_body@ == form_get(
                pairs.deep_view(),
                "MessageBody"@,
            ).unwrap() && p.delay_seconds is None && p.extra.deep_view() == pairs.deep_view()
                && p.attributes is None),
            (form_get(pairs.deep_view(), "MessageBody"@) is Some && form_get(
                pairs.deep_view(),
                "DelaySeconds"@,
            ) is Some) ==> (match parse_i32_spec(form_get(pairs.deep_view(), "DelaySeconds"@).unwrap()) {
                None => r matches Err(e) && e is MalformedRequest,
                Some(v) => r matches Ok(p) && p.message_body@ == form_get(
                    pairs.deep_view(),
                    "MessageBody"@,
                ).unwrap() && p.delay_seconds == Some(v) && p.extra.deep_view()
                    == pairs.deep_view() && p.attributes is None,
            }),
    {
        let body = match helpers::form_get_exec(&pairs, "MessageBody") {
            Some(b) => b,
            None => {
                return Err(ApiError::MalformedRequest);
            },
        };
        let delay_seconds = match helpers::form_get_exec(&pairs, "DelaySeconds") {
            None => None,
            Some(d) => match helpers::parse_i32(d.as_str()) {
                Some(v) => Some(v),
                None => {
                    return Err(ApiError::MalformedRequest);
                },
            },
        };
        Ok(
            SendMessageParams {
                message_body: body,
                delay_seconds,
                extra: pairs,
                attributes: None,
            },
        )
    }

    /// Extracts the indexed `MessageAttribute.<n>.Name`/`.Value` entries.
    pub fn populate_attributes(&mut self)
        ensures
            final(self).message_body == old(self).message_body,
            final(self).delay_seconds == old(self).delay_seconds,
            final(self).extra == old(self).extra,
            (final(self).attributes matches Some(a) && params_view(a@) == extract_entries(
                msg_attr_prefixes_spec(),
                old(self).extra.deep_view(),
            )),
    {
        let prefixes = msg_attr_prefixes();
        let extracted = helpers::extract_from_extra(&prefixes, &self.extra);
        self.attributes = extracted;
    }
}

/// Everything SendMessage promises, relating the store before and after,
/// the decoded request pairs, and the result.  On failure the store is
/// untouched; on success one message whose id is the returned `MessageId`
/// and whose body is the submitted `MessageBody` is appended at the tail of
/// the default queue, and the returned checksum is the MD5 digest of the
/// body.
pub open spec fn send_message_post(
    pre: Seq<QueueView>,
    post: Seq<QueueView>,
    pairs: Seq<(Seq<char>, Seq<char>)>,
    r: Result<SendMessageResponse, ApiError>,
) -> bool {
    match form_get(pairs, "MessageBody"@) {
        None => (r matches Err(e) && e is MalformedRequest) && post == pre,
        Some(body) => {
            if form_get(pairs, "DelaySeconds"@) matches Some(d) && parse_i32_spec(d) is None {
                (r matches Err(e) && e is MalformedRequest) && post == pre
            } else if !has_queue(pre, default_queue_name_spec()) {
                (r matches Err(e) && e is QueueNotFound) && post == pre
            } else {
                let f = queue_index(pre, default_queue_name_spec());
                r matches Ok(resp) && {
                    &&& resp.send_message_result.message_id@.len() == 36
                    &&& resp.send_message_result.md5_of_message_body@ == md5_hex_of(body)
                    &&& resp.reponse_metadata.request_id@.len() == 36
                    &&& post == pre.update(
                        f,
                        QueueView {
                            messages: pre[f].messages.push(
                                MessageView { id: resp.send_message_result.message_id@, body },
                            ),
                            ..pre[f]
                        },
                    )
                }
            }
        },
    }
}

/// Runs SendMessage against already-decoded request pairs.
pub fn process_form(store: &mut QueueStore, pairs: Vec<(String, String)>) -> (r: Result<
    SendMessageResponse,
    ApiError,
>)
    ensures
        send_message_post(old(store)@, final(store)@, pairs.deep_view(), r),
{
    let mut params = match SendMessageParams::from_pairs(pairs) {
        Ok(p) => p,
        Err(e) => {
            return Err(e);
        },
    };
    params.populate_attributes();
    let msg_id = helpers::generate_random_uuid4();
    let body_md5 = helpers::compute_md5(params.message_body.as_str());
    let msg = Message { id: msg_id.clone(), message_body: params.message_body.clone() };
    match store.push(default_queue_name(), msg) {
        Ok(_) => {},
        Err(e) => {
            return Err(e);
        },
    }
    let response = SendMessageResponse {
        send_message_result: SendMessageResult {
            message_id: msg_id,
            md5_of_message_body: body_md5,
        },
        reponse_metadata: ResponseMetadata { request_id: helpers::generate_random_uuid4() },
    };
    Ok(response)
}

/// Runs SendMessage against the raw request body: decodes the URL-encoded
/// form, then proceeds as `process_form`.
pub fn process(store: &mut QueueStore, payload: &[u8]) -> (r: Result<SendMessageResponse, ApiError>)
    ensures
        helpers::form_decode(payload@) is None ==> (r matches Err(e) && e is MalformedRequest
            && final(store)@ == old(store)@),
        helpers::form_decode(payload@) matches Some(pairs) ==> send_message_post(
            old(store)@,
            final(store)@,
            pairs,
            r,
        ),
{
    let pairs = match helpers::decode_form(payload) {
        Some(p) => p,
        None => {
            return Err(ApiError::MalformedRequest);
        },
    };
    process_form(store, pairs)
}

} // verus!
