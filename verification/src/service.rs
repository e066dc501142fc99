//! The queue metadata handed to the persistence collaborator.
//!
//! The relational store owns the durable name/attribute/tag rows; the code
//! here only shapes what is written there.  The caller performs the actual
//! inserts.
use crate::ascii::{ends_with, str_ends_with};
use vstd::prelude::*;

verus! {

/// The FIFO naming convention: a queue whose name ends in `.fifo`.
pub open spec fn is_fifo_name(name: Seq<char>) -> bool {
    ends_with(name, ".fifo"@)
}

/// The queue family a name denotes, as rendered in the metadata row.
pub open spec fn queue_type_of(name: Seq<char>) -> Seq<char> {
    if is_fifo_name(name) {
        "Fifo"@
    } else {
        "Standard"@
    }
}

/// One queue's durable metadata: a row of the `queues` table plus its
/// attribute and tag rows.
#[derive(Debug, Clone)]
pub struct QueueEntity {
    pub id: Option<i64>,
    pub name: String,
    pub queue_type: String,
    pub attributes: Option<Vec<(String, String)>>,
    pub tags: Option<Vec<(String, String)>>,
}

impl QueueEntity {
    /// The queue family, derived from the queue's name: `Fifo` for a name
    /// carrying the FIFO suffix, `Standard` for any other.
    pub fn get_type(&self) -> (r: String)
        ensures
            r@ == queue_type_of(self.name@),
    {
        if str_ends_with(self.name.as_str(), ".fifo") {
            "Fifo".to_owned()
        } else {
            "Standard".to_owned()
        }
    }
}

} // verus!
