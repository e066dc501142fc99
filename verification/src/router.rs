//! The action router: resolve the action identifier, dispatch to exactly
//! one operation handler, and hand back what the boundary must persist.
use crate::ascii::{lower, str_eq_nocase};
use crate::create_queue::{create_queue_post, CreateQueueResponse};
use crate::errors::ApiError;
use crate::helpers::{self, form_decode, form_get};
use crate::list_queues::{list_queues_post, ListQueuesResponse};
use crate::receive_message::{receive_message_post, ReceiveMessageResponse};
use crate::send_message::{send_message_post, SendMessageResponse};
use crate::service::QueueEntity;
use crate::store::QueueStore;
use vstd::prelude::*;

verus! {

/// The four recognized operations.
#[derive(Debug, Clone, Copy, PartialEq, Eq, Structural)]
pub enum ActionKind {
    CreateQueue,
    ListQueues,
    SendMessage,
    ReceiveMessage,
}

/// Case-insensitive match of an action identifier against a recognized
/// action name.
pub open spec fn action_matches(action: Seq<char>, name: Seq<char>) -> bool {
    lower(action) == lower(name)
}

/// Which operation an action identifier selects: each action name matches
/// case-insensitively, with or without the service-name prefix; anything
/// else is unknown.
pub open spec fn route_spec(action: Seq<char>) -> Option<ActionKind> {
    if action_matches(action, "CreateQueue"@) || action_matches(action, "AmazonSQS.CreateQueue"@) {
        Some(ActionKind::CreateQueue)
    } else if action_matches(action, "ListQueues"@) || action_matches(
        action,
        "AmazonSQS.ListQueues"@,
    ) {
        Some(ActionKind::ListQueues)
    } else if action_matches(action, "SendMessage"@) || action_matches(
        action,
        "AmazonSQS.SendMessage"@,
    ) {
        Some(ActionKind::SendMessage)
    } else if action_matches(action, "ReceiveMessage"@) || action_matches(
        action,
        "AmazonSQS.ReceiveMessage"@,
    ) {
        Some(ActionKind::ReceiveMessage)
    } else {
        None
    }
}

/// Resolves an action identifier to its operation, or `UnknownAction`.
pub fn route_action(action: &str) -> (r: Result<ActionKind, ApiError>)
    ensures
        route_spec(action@) matches Some(k) ==> (r matches Ok(a) && a == k),
        route_spec(action@) is None ==> (r matches Err(e) && e is UnknownAction),
{
    if str_eq_nocase(action, "CreateQueue") || str_eq_nocase(action, "AmazonSQS.CreateQueue") {
        Ok(ActionKind::CreateQueue)
    } else if str_eq_nocase(action, "ListQueues") || str_eq_nocase(action, "AmazonSQS.ListQueues") {
        Ok(ActionKind::ListQueues)
    } else if str_eq_nocase(action, "SendMessage") || str_eq_nocase(
        action,
        "AmazonSQS.SendMessage",
    ) {
        Ok(ActionKind::SendMessage)
    } else if str_eq_nocase(action, "ReceiveMessage") || str_eq_nocase(
        action,
        "AmazonSQS.ReceiveMessage",
    ) {
        Ok(ActionKind::ReceiveMessage)
    } else {
        Err(ApiError::UnknownAction)
    }
}

/// Where the action identifier comes from: the transport header when
/// present, else the `Action` field of the decoded request body.
pub open spec fn action_name_spec(header: Option<Seq<char>>, bytes: Seq<u8>) -> Option<Seq<char>> {
    match header {
        Some(h) => Some(h),
        None => match form_decode(bytes) {
            None => None,
            Some(pairs) => form_get(pairs, "Action"@),
        },
    }
}

/// Resolves the action identifier: the transport header takes precedence;
/// without one the request body is decoded and its `Action` field read.
pub fn get_action_name(header: Option<String>, payload: &[u8]) -> (r: Option<String>)
    ensures
        r is None ==> action_name_spec(header.deep_view(), payload@) is None,
        r matches Some(a) ==> action_name_spec(header.deep_view(), payload@) == Some(a@),
{
    match header {
        Some(h) => Some(h),
        None => match helpers::decode_form(payload) {
            None => None,
            Some(pairs) => helpers::form_get_exec(&pairs, "Action"),
        },
    }
}

/// One response per operation.
#[derive(Debug, Clone)]
pub enum ApiResponse {
    CreateQueue(CreateQueueResponse),
    ListQueues(ListQueuesResponse),
    SendMessage(SendMessageResponse),
    ReceiveMessage(ReceiveMessageResponse),
}

/// One full request cycle: resolve the action, dispatch to its handler,
/// and return the handler's response together with the queue metadata that
/// the boundary must persist (only CreateQueue produces any).  Every
/// promise of the individual handlers carries over, case by case.
pub fn handle_request(
    store: &mut QueueStore,
    host_name: &str,
    header_action: Option<String>,
    payload: &[u8],
) -> (r: Result<(ApiResponse, Option<QueueEntity>), ApiError>)
    ensures
        action_name_spec(header_action.deep_view(), payload@) is None ==> (r matches Err(e)
            && e is UnknownAction && final(store)@ == old(store)@),
        action_name_spec(header_action.deep_view(), payload@) matches Some(a) ==> (match route_spec(
            a,
        ) {
            None => (r matches Err(e) && e is UnknownAction) && final(store)@ == old(store)@,
            Some(k) => match k {
                ActionKind::CreateQueue => {
                    &&& (form_decode(payload@) is None ==> ((r matches Err(e)
                        && e is MalformedRequest) && final(store)@ == old(store)@))
                    &&& (form_decode(payload@) matches Some(pairs) ==> {
                        &&& (r matches Ok(t) ==> (t.0 matches ApiResponse::CreateQueue(resp)
                            && t.1 matches Some(entity) && create_queue_post(
                            old(store)@,
                            final(store)@,
                            host_name@,
                            pairs,
                            Ok((resp, entity)),
                        )))
                        &&& (r matches Err(e) ==> create_queue_post(
                            old(store)@,
                            final(store)@,
                            host_name@,
                            pairs,
                            Err(e),
                        ))
                    })
                },
                ActionKind::ListQueues => {
                    &&& final(store)@ == old(store)@
                    &&& (form_decode(payload@) is None ==> (r matches Err(e)
                        && e is MalformedRequest))
                    &&& (form_decode(payload@) matches Some(pairs) ==> {
                        &&& (r matches Ok(t) ==> (t.0 matches ApiResponse::ListQueues(resp)
                            && t.1 is None && list_queues_post(
                            old(store)@,
                            host_name@,
                            pairs,
                            Ok(resp),
                        )))
                        &&& (r matches Err(e) ==> list_queues_post(
                            old(store)@,
                            host_name@,
                            pairs,
                            Err(e),
                        ))
                    })
                },
                ActionKind::SendMessage => {
                    &&& (form_decode(payload@) is None ==> ((r matches Err(e)
                        && e is MalformedRequest) && final(store)@ == old(store)@))
                    &&& (form_decode(payload@) matches Some(pairs) ==> {
                        &&& (r matches Ok(t) ==> (t.0 matches ApiResponse::SendMessage(resp)
                            && t.1 is None && send_message_post(
                            old(store)@,
                            final(store)@,
                            pairs,
                            Ok(resp),
                        )))
                        &&& (r matches Err(e) ==> send_message_post(
                            old(store)@,
                            final(store)@,
                            pairs,
                            Err(e),
                        ))
                    })
                },
                ActionKind::ReceiveMessage => {
                    &&& (r matches Ok(t) ==> (t.0 matches ApiResponse::ReceiveMessage(resp)
                        && t.1 is None && receive_message_post(
                        old(store)@,
                        final(store)@,
                        Ok(resp),
                    )))
                    &&& (r matches Err(e) ==> receive_message_post(
                        old(store)@,
                        final(store)@,
                        Err(e),
                    ))
                },
            },
        }),
{
    let action = match get_action_name(header_action, payload) {
        Some(a) => a,
        None => {
            return Err(ApiError::UnknownAction);
        },
    };
    let kind = match route_action(action.as_str()) {
        Ok(k) => k,
        Err(e) => {
            return Err(e);
        },
    };
    match kind {
        ActionKind::CreateQueue => {
            match crate::create_queue::process(store, host_name, payload) {
                Ok(t) => Ok((ApiResponse::CreateQueue(t.0), Some(t.1))),
                Err(e) => Err(e),
            }
        },
        ActionKind::ListQueues => {
            match crate::list_queues::process(store, host_name, payload) {
                Ok(resp) => Ok((ApiResponse::ListQueues(resp), None)),
                Err(e) => Err(e),
            }
        },
        ActionKind::SendMessage => {
            match crate::send_message::process(store, payload) {
                Ok(resp) => Ok((ApiResponse::SendMessage(resp), None)),
                Err(e) => Err(e),
            }
        },
        ActionKind::ReceiveMessage => {
            match crate::receive_message::process(store, payload) {
                Ok(resp) => Ok((ApiResponse::ReceiveMessage(resp), None)),
                Err(e) => Err(e),
            }
        },
    }
}

} // verus!
