//! The ListQueues operation: decode the optional bounds and render queue
//! URLs from the registry.
use crate::errors::ApiError;
use crate::helpers::{self, form_get, parse_i32_spec};
use crate::queue::QueueView;
use crate::store::{list_names, QueueStore};
use vstd::prelude::*;

verus! {

/// The default bound on the number of names returned.
pub fn default_max_results() -> (r: i32)
    ensures
        r == 1000,
{
    1000
}

/// The decoded ListQueues request.  The pagination token is accepted but
/// not honored yet: a documented limitation.
#[derive(Debug, Clone)]
pub struct RequestParams {
    pub queue_name_prefix: Option<String>,
    pub max_results: i32,
    pub next_token: Option<String>,
}

/// The response of a successful ListQueues.
#[derive(Debug, Clone)]
pub struct ListQueuesResponse {
    pub list_queues_result: ListQueuesResult,
    pub response_metadata: ResponseMetadata,
}

/// The payload of the response: one URL per listed queue.
#[derive(Debug, Clone)]
pub struct ListQueuesResult {
    pub queue_url: Vec<String>,
}

/// The envelope metadata: a fresh request id.
#[derive(Debug, Clone)]
pub struct ResponseMetadata {
    pub request_id: String,
}

/// The bound actually applied: `MaxResults` is decoded as an `i32` and then
/// used as an unsigned count, so a negative value wraps around, which in
/// practice means no bound.
pub open spec fn wrap_u32(m: int) -> nat {
    if m >= 0 {
        m as nat
    } else {
        (m + 0x100000000) as nat
    }
}

/// The URL of each named queue under the configured host name.
pub open spec fn urls_of(host: Seq<char>, names: Seq<Seq<char>>) -> Seq<Seq<char>> {
    names.map_values(|n: Seq<char>| host + "/"@ + n)
}

/// Decodes the request fields, all optional: `QueueNamePrefix`,
/// `MaxResults` (default 1000), `NextToken`.  A `MaxResults` that is not a
/// decimal `i32` fails the decoding.
pub fn get_params(pairs: &Vec<(String, String)>) -> (r: Option<RequestParams>)
    ensures
        (form_get(pairs.deep_view(), "MaxResults"@) matches Some(m) && parse_i32_spec(m) is None)
            ==> r is None,
        (match form_get(pairs.deep_view(), "MaxResults"@) {
            None => true,
            Some(m) => parse_i32_spec(m) is Some,
        }) ==> (r matches Some(p) && {
            &&& p.max_results as int == (match form_get(pairs.deep_view(), "MaxResults"@) {
                None => 1000,
                Some(m) => parse_i32_spec(m).unwrap() as int,
            })
            &&& (match form_get(pairs.deep_view(), "QueueNamePrefix"@) {
                None => p.queue_name_prefix is None,
                Some(x) => p.queue_name_prefix matches Some(s) && s@ == x,
            })
            &&& (match form_get(pairs.deep_view(), "NextToken"@) {
                None => p.next_token is None,
                Some(x) => p.next_token matches Some(s) && s@ == x,
            })
        }),
{
    let queue_name_prefix = helpers::form_get_exec(pairs, "QueueNamePrefix");
    let next_token = helpers::form_get_exec(pairs, "NextToken");
    let max_results = match helpers::form_get_exec(pairs, "MaxResults") {
        None => default_max_results(),
        Some(m) => match helpers::parse_i32(m.as_str()) {
            Some(v) => v,
            None => {
                return None;
            },
        },
    };
    Some(RequestParams { queue_name_prefix, max_results, next_token })
}

/// Everything ListQueues promises: the listed URLs are `<host>/<name>` for
/// the queue names of the registry in creation order, filtered by the
/// optional prefix, at most `MaxResults` of them.
pub open spec fn list_queues_post(
    qs: Seq<QueueView>,
    host: Seq<char>,
    pairs: Seq<(Seq<char>, Seq<char>)>,
    r: Result<ListQueuesResponse, ApiError>,
) -> bool {
    if form_get(pairs, "MaxResults"@) matches Some(m) && parse_i32_spec(m) is None {
        r matches Err(e) && e is MalformedRequest
    } else {
        let max = match form_get(pairs, "MaxResults"@) {
            None => 1000int,
            Some(m) => parse_i32_spec(m).unwrap() as int,
        };
        r matches Ok(resp) && {
            &&& resp.list_queues_result.queue_url.deep_view() == urls_of(
                host,
                list_names(qs, form_get(pairs, "QueueNamePrefix"@), wrap_u32(max)),
            )
            &&& resp.response_metadata.request_id@.len() == 36
        }
    }
}

/// Runs ListQueues against already-decoded request pairs.  The registry is
/// only read, never changed.
pub fn process_form(store: &QueueStore, host_name: &str, pairs: &Vec<(String, String)>) -> (r:
    Result<ListQueuesResponse, ApiError>)
    ensures
        list_queues_post(store@, host_name@, pairs.deep_view(), r),
{
    let params = match get_params(pairs) {
        Some(p) => p,
        None => {
            return Err(ApiError::MalformedRequest);
        },
    };
    let max_u32: u32 = if params.max_results >= 0 {
        params.max_results as u32
    } else {
        (params.max_results as i64 + 0x100000000i64) as u32
    };
    let prefix: Option<&str> = match &params.queue_name_prefix {
        Some(p) => Some(p.as_str()),
        None => None,
    };
    let names = store.list(max_u32, prefix);
    let ghost ndv = names.deep_view();
    let mut queue_url: Vec<String> = Vec::new();
    let mut i: usize = 0;
    while i < names.len()
        invariant
            0 <= i <= names@.len(),
            ndv == names.deep_view(),
            ndv.len() == names@.len(),
            forall|q: int| 0 <= q < ndv.len() ==> ndv[q] == (#[trigger] names@[q])@,
            queue_url.deep_view() == urls_of(host_name@, ndv.take(i as int)),
        decreases names@.len() - i,
    {
        let ghost prev = queue_url.deep_view();
        let url = host_name.to_owned().concat("/").concat(names[i].as_str());
        queue_url.push(url);
        proof {
            assert(ndv.take(i + 1).drop_last() =~= ndv.take(i as int));
            assert(queue_url.deep_view() =~= prev.push(host_name@ + "/"@ + ndv[i as int]));
            assert(urls_of(host_name@, ndv.take(i + 1)) =~= prev.push(
                host_name@ + "/"@ + ndv[i as int],
            ));
        }
        i = i + 1;
    }
    proof {
        assert(ndv.take(ndv.len() as int) =~= ndv);
    }
    let response = ListQueuesResponse {
        list_queues_result: ListQueuesResult { queue_url },
        response_metadata: ResponseMetadata { request_id: helpers::generate_random_uuid4() },
    };
    Ok(response)
}

/// Runs ListQueues against the raw request body: decodes the URL-encoded
/// form, then proceeds as `process_form`.
pub fn process(store: &QueueStore, host_name: &str, payload: &[u8]) -> (r: Result<
    ListQueuesResponse,
    ApiError,
>)
    ensures
        helpers::form_decode(payload@) is None ==> (r matches Err(e) && e is MalformedRequest),
        helpers::form_decode(payload@) matches Some(pairs) ==> list_queues_post(
            store@,
            host_name@,
            pairs,
            r,
        ),
{
    let pairs = match helpers::decode_form(payload) {
        Some(p) => p,
        None => {
            return Err(ApiError::MalformedRequest);
        },
    };
    process_form(store, host_name, &pairs)
}

} // verus!
