//! The CreateQueue operation: decode the request, validate the attributes
//! against the allow-list, register the queue, and shape the response and
//! the durable metadata.
use crate::ascii::{str_ends_with, str_eq};
use crate::errors::ApiError;
use crate::helpers::{self, collapse, extract_entries, form_get, params_view, ParamValues};
use crate::queue::{MessageView, QueueView};
use crate::service::{is_fifo_name, queue_type_of, QueueEntity};
use crate::store::{has_queue, QueueStore};
use vstd::prelude::*;

verus! {

/// The attribute names every queue family accepts at creation.
pub open spec fn is_base_attr(name: Seq<char>) -> bool {
    ||| name == "DelaySeconds"@
    ||| name == "MaximumMessageSize"@
    ||| name == "MessageRetentionPeriod"@
    ||| name == "Policy"@
    ||| name == "ReceiveMessageWaitTimeSeconds"@
    ||| name == "RedrivePolicy"@
    ||| name == "VisibilityTimeout"@
    ||| name == "FifoQueue"@
    ||| name == "ContentBasedDeduplication"@
    ||| name == "KmsMasterKeyId"@
    ||| name == "KmsDataKeyReusePeriodSeconds"@
    ||| name == "SqsManagedSseEnabled"@
}

/// The attribute names only FIFO queues accept in addition.
pub open spec fn is_fifo_attr(name: Seq<char>) -> bool {
    ||| name == "DeduplicationScope"@
    ||| name == "FifoThroughputLimit"@
}

/// Whether an attribute name is allowed when creating the queue named
/// `queue_name`: the closed base list, plus the FIFO-only names when the
/// queue name carries the FIFO suffix.
pub open spec fn is_allowed_attr(queue_name: Seq<char>, name: Seq<char>) -> bool {
    is_base_attr(name) || (is_fifo_name(queue_name) && is_fifo_attr(name))
}

/// Executable membership test for the allow-list.
fn is_allowed_attr_exec(queue_name: &str, name: &str) -> (r: bool)
    ensures
        r == is_allowed_attr(queue_name@, name@),
{
    if str_eq(name, "DelaySeconds") || str_eq(name, "MaximumMessageSize") || str_eq(
        name,
        "MessageRetentionPeriod",
    ) || str_eq(name, "Policy") || str_eq(name, "ReceiveMessageWaitTimeSeconds") || str_eq(
        name,
        "RedrivePolicy",
    ) || str_eq(name, "VisibilityTimeout") || str_eq(name, "FifoQueue") || str_eq(
        name,
        "ContentBasedDeduplication",
    ) || str_eq(name, "KmsMasterKeyId") || str_eq(name, "KmsDataKeyReusePeriodSeconds") || str_eq(
        name,
        "SqsManagedSseEnabled",
    ) {
        return true;
    }
    if str_ends_with(queue_name, ".fifo") && (str_eq(name, "DeduplicationScope") || str_eq(
        name,
        "FifoThroughputLimit",
    )) {
        return true;
    }
    false
}

/// The position of the first extracted entry whose name the allow-list
/// refuses, or `-1` when every entry passes.
pub open spec fn first_invalid(queue_name: Seq<char>, entries: Seq<(Seq<char>, Seq<char>)>) -> int
    decreases entries.len(),
{
    if entries.len() == 0 {
        -1
    } else if !is_allowed_attr(queue_name, entries[0].0) {
        0
    } else {
        let r = first_invalid(queue_name, entries.skip(1));
        if r < 0 {
            -1
        } else {
            r + 1
        }
    }
}

proof fn lemma_first_invalid_found(
    queue_name: Seq<char>,
    entries: Seq<(Seq<char>, Seq<char>)>,
    f: int,
)
    requires
        0 <= f < entries.len(),
        !is_allowed_attr(queue_name, entries[f].0),
        forall|q: int| 0 <= q < f ==> is_allowed_attr(queue_name, (#[trigger] entries[q]).0),
    ensures
        first_invalid(queue_name, entries) == f,
    decreases f,
{
    if f > 0 {
        lemma_first_invalid_found(queue_name, entries.skip(1), f - 1);
    }
}

proof fn lemma_first_invalid_missing(queue_name: Seq<char>, entries: Seq<(Seq<char>, Seq<char>)>)
    requires
        forall|q: int|
            0 <= q < entries.len() ==> is_allowed_attr(queue_name, (#[trigger] entries[q]).0),
    ensures
        first_invalid(queue_name, entries) < 0,
    decreases entries.len(),
{
    if entries.len() > 0 {
        lemma_first_invalid_missing(queue_name, entries.skip(1));
    }
}

/// The key prefix of indexed attribute parameters.
pub open spec fn attr_prefixes_spec() -> Seq<Seq<char>> {
    seq!["Attribute"@]
}

fn attr_prefixes() -> (r: Vec<String>)
    ensures
        r.deep_view() == attr_prefixes_spec(),
{
    let mut v: Vec<String> = Vec::new();
    v.push("Attribute".to_owned());
    proof {
        assert(v.deep_view() =~= attr_prefixes_spec());
    }
    v
}

/// The key prefixes of indexed tag parameters.
pub open spec fn tag_prefixes_spec() -> Seq<Seq<char>> {
    seq!["Tag"@, "Tags"@]
}

fn tag_prefixes() -> (r: Vec<String>)
    ensures
        r.deep_view() == tag_prefixes_spec(),
{
    let mut v: Vec<String> = Vec::new();
    v.push("Tag".to_owned());
    v.push("Tags".to_owned());
    proof {
        assert(v.deep_view() =~= tag_prefixes_spec());
    }
    v
}

/// The decoded CreateQueue request: the queue name, the raw field mapping,
/// and the attribute and tag entries extracted from it.
#[derive(Debug)]
pub struct CreateQueueParams {
    pub queue_name: String,
    pub extra: Vec<(String, String)>,
    /// Populated by `create_validate_attributes`.
    pub attributes: Option<Vec<ParamValues>>,
    /// Populated by `create_tags`.
    pub tags: Option<Vec<ParamValues>>,
}

/// The response of a successful CreateQueue.
#[derive(Debug, Clone)]
pub struct CreateQueueResponse {
    pub create_queue_result: CreateQueueResult,
    pub reponse_metadata: Vec<(String, String)>,
}

/// The payload of the response: the created queue's URL.
#[derive(Debug, Clone)]
pub struct CreateQueueResult {
    pub queue_url: String,
}

impl CreateQueueParams {
    /// Decodes the request fields: `QueueName` is required, everything else
    /// is kept as the raw mapping the indexed parameters are extracted from.
    pub fn from_pairs(pairs: Vec<(String, String)>) -> (r: Result<CreateQueueParams, ApiError>)
        ensures
            form_get(pairs.deep_view(), "QueueName"@) is None ==> (r matches Err(e)
                && e is MalformedRequest),
            form_get(pairs.deep_view(), "QueueName"@) matches Some(n) ==> (r matches Ok(p)
                && p.queue_name@ == n && p.extra.deep_view() == pairs.deep_view()
                && p.attributes is None && p.tags is None),
    {
        let name = match helpers::form_get_exec(&pairs, "QueueName") {
            Some(n) => n,
            None => {
                return Err(ApiError::MalformedRequest);
            },
        };
        Ok(CreateQueueParams { queue_name: name, extra: pairs, attributes: None, tags: None })
    }

    /// Extracts the indexed `Attribute.<n>.Name`/`Attribute.<n>.Value`
    /// entries and validates every extracted name against the allow-list.
    /// The first refused name fails the operation with `InvalidAttribute`
    /// carrying that name.
    pub fn create_validate_attributes(&mut self) -> (r: Result<(), ApiError>)
        ensures
            final(self).queue_name == old(self).queue_name,
            final(self).extra == old(self).extra,
            final(self).tags == old(self).tags,
            (final(self).attributes matches Some(a) && params_view(a@) == extract_entries(
                attr_prefixes_spec(),
                old(self).extra.deep_view(),
            )),
            ({
                let entries = extract_entries(attr_prefixes_spec(), old(self).extra.deep_view());
                let fi = first_invalid(old(self).queue_name@, entries);
                &&& fi < 0 ==> r is Ok
                &&& fi >= 0 ==> (r matches Err(e) && e matches ApiError::InvalidAttribute { name }
                    && name@ == entries[fi].0)
            }),
    {
        let prefixes = attr_prefixes();
        let extracted = helpers::extract_from_extra(&prefixes, &self.extra);
        let attrs = match extracted {
            Some(a) => a,
            None => {
                proof {
                    assert(false);
                }
                Vec::new()
            },
        };
        let ghost entries = extract_entries(attr_prefixes_spec(), self.extra.deep_view());
        let ghost qname = self.queue_name@;
        let mut bad: Option<String> = None;
        let mut j: usize = 0;
        let n = attrs.len();
        while j < n && bad.is_none()
            invariant
                0 <= j <= n,
                n == attrs@.len(),
                entries == params_view(attrs@),
                entries.len() == attrs@.len(),
                qname == self.queue_name@,
                *self == *old(self),
                forall|q: int| 0 <= q < entries.len() ==> (#[trigger] entries[q]) == attrs@[q]@,
                bad is None ==> forall|q: int|
                    0 <= q < j ==> is_allowed_attr(qname, (#[trigger] entries[q]).0),
                bad matches Some(b) ==> (first_invalid(qname, entries) >= 0 && b@ == entries[first_invalid(
                    qname,
                    entries,
                )].0),
            decreases n - j,
        {
            if !is_allowed_attr_exec(self.queue_name.as_str(), attrs[j].name.as_str()) {
                proof {
                    lemma_first_invalid_found(qname, entries, j as int);
                }
                bad = Some(attrs[j].name.clone());
            }
            j = j + 1;
        }
        self.attributes = Some(attrs);
        match bad {
            Some(b) => Err(ApiError::InvalidAttribute { name: b }),
            None => {
                proof {
                    lemma_first_invalid_missing(qname, entries);
                }
                Ok(())
            },
        }
    }

    /// Extracts the indexed `Tag.<n>.Name`/`Tag.<n>.Value` (or `Tags.`)
    /// entries; tag names are not validated against any list.
    pub fn create_tags(&mut self)
        ensures
            final(self).queue_name == old(self).queue_name,
            final(self).extra == old(self).extra,
            final(self).attributes == old(self).attributes,
            (final(self).tags matches Some(t) && params_view(t@) == extract_entries(
                tag_prefixes_spec(),
                old(self).extra.deep_view(),
            )),
    {
        let prefixes = tag_prefixes();
        let extracted = helpers::extract_from_extra(&prefixes, &self.extra);
        self.tags = extracted;
    }

    /// The extracted attributes collapsed into a name-to-value mapping.
    pub fn get_attrbutes_hashmap(self) -> (r: Vec<(String, String)>)
        ensures
            self.attributes is None ==> r@.len() == 0,
            self.attributes matches Some(a) ==> r.deep_view() == collapse(params_view(a@)),
    {
        helpers::get_attrbutes_hashmap(self.attributes)
    }

    /// The extracted tags collapsed into a name-to-value mapping.
    pub fn get_tags_hashmap(self) -> (r: Vec<(String, String)>)
        ensures
            self.tags is None ==> r@.len() == 0,
            self.tags matches Some(t) ==> r.deep_view() == collapse(params_view(t@)),
    {
        helpers::get_attrbutes_hashmap(self.tags)
    }
}

/// Everything CreateQueue promises, relating the store before and after,
/// the decoded request pairs, and the result.  On any failure the store is
/// untouched; on success the response's queue URL is `<host>/<name>`, the
/// metadata entity carries the validated attributes and the tags, and a
/// fresh empty queue is registered unless the name already existed, in
/// which case the existing queue is kept untouched.
pub open spec fn create_queue_post(
    pre: Seq<QueueView>,
    post: Seq<QueueView>,
    host: Seq<char>,
    pairs: Seq<(Seq<char>, Seq<char>)>,
    r: Result<(CreateQueueResponse, QueueEntity), ApiError>,
) -> bool {
    match form_get(pairs, "QueueName"@) {
        None => (r matches Err(e) && e is MalformedRequest) && post == pre,
        Some(name) => {
            let entries = extract_entries(attr_prefixes_spec(), pairs);
            let fi = first_invalid(name, entries);
            if fi >= 0 {
                &&& post == pre
                &&& (r matches Err(e) && e matches ApiError::InvalidAttribute { name: b } && b@
                    == entries[fi].0)
            } else {
                &&& (r matches Ok(t) && {
                    &&& t.0.create_queue_result.queue_url@ == host + "/"@ + name
                    &&& t.0.reponse_metadata@.len() == 0
                    &&& t.1.id is None
                    &&& t.1.name@ == name
                    &&& t.1.queue_type@ == queue_type_of(name)
                    &&& (t.1.attributes matches Some(a) && a.deep_view() == collapse(entries))
                    &&& (t.1.tags matches Some(tg) && tg.deep_view() == collapse(
                        extract_entries(tag_prefixes_spec(), pairs),
                    ))
                })
                &&& post == (if has_queue(pre, name) {
                    pre
                } else {
                    pre.push(
                        QueueView {
                            name,
                            tags: Seq::empty(),
                            messages: Seq::<MessageView>::empty(),
                        },
                    )
                })
            }
        },
    }
}

/// Runs CreateQueue against already-decoded request pairs.
pub fn process_form(store: &mut QueueStore, host_name: &str, pairs: Vec<(String, String)>) -> (r:
    Result<(CreateQueueResponse, QueueEntity), ApiError>)
    ensures
        create_queue_post(old(store)@, final(store)@, host_name@, pairs.deep_view(), r),
{
    let mut params = match CreateQueueParams::from_pairs(pairs) {
        Ok(p) => p,
        Err(e) => {
            return Err(e);
        },
    };
    match params.create_validate_attributes() {
        Ok(_) => {},
        Err(e) => {
            return Err(e);
        },
    }
    params.create_tags();
    let CreateQueueParams { queue_name, extra: _extra, attributes, tags } = params;
    let queue_type = if str_ends_with(queue_name.as_str(), ".fifo") {
        "Fifo".to_owned()
    } else {
        "Standard".to_owned()
    };
    let attributes_map = helpers::get_attrbutes_hashmap(attributes);
    let tags_map = helpers::get_attrbutes_hashmap(tags);
    let entity = QueueEntity {
        id: None,
        name: queue_name.clone(),
        queue_type,
        attributes: Some(attributes_map),
        tags: Some(tags_map),
    };
    let _created = store.create_queue(queue_name.as_str());
    let queue_url = host_name.to_owned().concat("/").concat(queue_name.as_str());
    let response = CreateQueueResponse {
        create_queue_result: CreateQueueResult { queue_url },
        reponse_metadata: Vec::new(),
    };
    Ok((response, entity))
}

/// Runs CreateQueue against the raw request body: decodes the URL-encoded
/// form, then proceeds as `process_form`.  A body that is not a well-formed
/// form fails with `MalformedRequest` and touches nothing.
pub fn process(store: &mut QueueStore, host_name: &str, payload: &[u8]) -> (r: Result<
    (CreateQueueResponse, QueueEntity),
    ApiError,
>)
    ensures
        helpers::form_decode(payload@) is None ==> (r matches Err(e) && e is MalformedRequest
            && final(store)@ == old(store)@),
        helpers::form_decode(payload@) matches Some(pairs) ==> create_queue_post(
            old(store)@,
            final(store)@,
            host_name@,
            pairs,
            r,
        ),
{
    let pairs = match helpers::decode_form(payload) {
        Some(p) => p,
        None => {
            return Err(ApiError::MalformedRequest);
        },
    };
    process_form(store, host_name, pairs)
}

} // verus!
