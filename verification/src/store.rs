//! The in-process registry of named FIFO queues.
//!
//! One store exists per running process and is shared by all concurrently
//! handled requests; the callers serialize access by wrapping the store in
//! an exclusive lock, held only for the duration of a single operation.
use crate::ascii::{starts_with, str_eq, str_starts_with};
use crate::errors::ApiError;
use crate::queue::{Message, MessageView, Queue, QueueView};
use vstd::prelude::*;

verus! {

/// The name of the fixed queue that SendMessage and ReceiveMessage target
/// while multi-queue addressing is not implemented.
pub open spec fn default_queue_name_spec() -> Seq<char> {
    "myqueue"@
}

/// The fixed default queue name, as executable code.
pub fn default_queue_name() -> (r: &'static str)
    ensures
        r@ == default_queue_name_spec(),
{
    "myqueue"
}

/// The registry: queues in order of creation, names unique.
#[derive(Debug, Clone)]
pub struct QueueStore {
    queues: Vec<Queue>,
}

/// The position of the queue named `name`, or `-1`.
pub open spec fn queue_index(qs: Seq<QueueView>, name: Seq<char>) -> int
    decreases qs.len(),
{
    if qs.len() == 0 {
        -1
    } else if qs[0].name == name {
        0
    } else {
        let r = queue_index(qs.skip(1), name);
        if r < 0 {
            -1
        } else {
            r + 1
        }
    }
}

/// Whether a store holds a queue named `name`.
pub open spec fn has_queue(qs: Seq<QueueView>, name: Seq<char>) -> bool {
    queue_index(qs, name) >= 0
}

impl View for QueueStore {
    type V = Seq<QueueView>;

    closed spec fn view(&self) -> Seq<QueueView> {
        self.queues@.map_values(|q: Queue| q@)
    }
}

proof fn lemma_queue_index_found(qs: Seq<QueueView>, name: Seq<char>, f: int)
    requires
        0 <= f < qs.len(),
        qs[f].name == name,
        forall|q: int| 0 <= q < f ==> (#[trigger] qs[q]).name != name,
    ensures
        queue_index(qs, name) == f,
    decreases f,
{
    if f > 0 {
        lemma_queue_index_found(qs.skip(1), name, f - 1);
    }
}

proof fn lemma_queue_index_missing(qs: Seq<QueueView>, name: Seq<char>)
    requires
        forall|q: int| 0 <= q < qs.len() ==> (#[trigger] qs[q]).name != name,
    ensures
        queue_index(qs, name) < 0,
    decreases qs.len(),
{
    if qs.len() > 0 {
        lemma_queue_index_missing(qs.skip(1), name);
    }
}

/// `queue_index` always points at a queue with the looked-up name.
proof fn lemma_queue_index_correct(qs: Seq<QueueView>, name: Seq<char>)
    ensures
        queue_index(qs, name) < qs.len(),
        queue_index(qs, name) >= 0 ==> qs[queue_index(qs, name)].name == name,
    decreases qs.len(),
{
    if qs.len() > 0 && qs[0].name != name {
        lemma_queue_index_correct(qs.skip(1), name);
    }
}

impl QueueStore {
    /// A fresh registry with no queues.
    pub fn new() -> (s: QueueStore)
        ensures
            s@ == Seq::<QueueView>::empty(),
    {
        let s = QueueStore { queues: Vec::new() };
        proof {
            assert(s@ =~= Seq::<QueueView>::empty());
        }
        s
    }

    /// The position of the queue named `name`, as executable code.
    fn find(&self, name: &str) -> (r: Option<usize>)
        ensures
            r matches Some(f) ==> queue_index(self@, name@) == f && f < self@.len(),
            r is None ==> queue_index(self@, name@) < 0,
    {
        let ghost qs = self@;
        proof {
            assert forall|q: int| 0 <= q < qs.len() implies qs[q] == (
            #[trigger] self.queues@[q])@ by {}
        }
        let mut f: usize = 0;
        let n = self.queues.len();
        while f < n && !str_eq(self.queues[f].name(), name)
            invariant
                0 <= f <= n,
                n == self.queues@.len(),
                qs == self@,
                qs.len() == n,
                forall|q: int| 0 <= q < qs.len() ==> qs[q] == (#[trigger] self.queues@[q])@,
                forall|q: int| 0 <= q < f ==> (#[trigger] qs[q]).name != name@,
            decreases n - f,
        {
            f = f + 1;
        }
        if f < n {
            proof {
                lemma_queue_index_found(qs, name@, f as int);
            }
            Some(f)
        } else {
            proof {
                lemma_queue_index_missing(qs, name@);
            }
            None
        }
    }

    /// Whether a queue named `name` exists.
    pub fn contains(&self, name: &str) -> (r: bool)
        ensures
            r == has_queue(self@, name@),
    {
        self.find(name).is_some()
    }

    /// Registers a fresh empty queue under `name`.  When the name is already
    /// taken the store is left untouched and `created` is false: creation is
    /// idempotent, and an existing queue's messages are never discarded.
    pub fn create_queue(&mut self, name: &str) -> (created: bool)
        ensures
            created == !has_queue(old(self)@, name@),
            !created ==> final(self)@ == old(self)@,
            created ==> final(self)@ == old(self)@.push(
                QueueView {
                    name: name@,
                    tags: Seq::empty(),
                    messages: Seq::<MessageView>::empty(),
                },
            ),
    {
        if self.find(name).is_some() {
            return false;
        }
        let q = Queue::new(name, Vec::new());
        proof {
            assert(q@.tags =~= Seq::<(Seq<char>, Seq<char>)>::empty());
        }
        self.queues.push(q);
        proof {
            assert(self@ =~= old(self)@.push(
                QueueView {
                    name: name@,
                    tags: Seq::empty(),
                    messages: Seq::<MessageView>::empty(),
                },
            ));
        }
        true
    }

    /// Appends `msg` at the tail of the queue named `name`; fails with
    /// `QueueNotFound`, leaving the store untouched, when no such queue
    /// exists.
    pub fn push(&mut self, name: &str, msg: Message) -> (r: Result<(), ApiError>)
        ensures
            r matches Err(e) ==> e is QueueNotFound && !has_queue(old(self)@, name@) && final(self)@
                == old(self)@,
            r is Ok ==> has_queue(old(self)@, name@) && final(self)@ == old(self)@.update(
                queue_index(old(self)@, name@),
                QueueView {
                    messages: old(self)@[queue_index(old(self)@, name@)].messages.push(msg@),
                    ..old(self)@[queue_index(old(self)@, name@)]
                },
            ),
    {
        let f = match self.find(name) {
            Some(f) => f,
            None => {
                return Err(ApiError::QueueNotFound);
            },
        };
        proof {
            lemma_queue_index_correct(self@, name@);
        }
        let ghost m = msg@;
        self.queues[f].push(msg);
        proof {
            assert(self@ =~= old(self)@.update(
                f as int,
                QueueView { messages: old(self)@[f as int].messages.push(m), ..old(self)@[f as int] },
            ));
        }
        Ok(())
    }

    /// Removes and returns the head message of the queue named `name`:
    /// `Ok(Some(..))` with the oldest message, `Ok(None)` when the queue
    /// exists but is empty, and `Err(QueueNotFound)` when it does not exist.
    pub fn pop(&mut self, name: &str) -> (r: Result<Option<Message>, ApiError>)
        ensures
            r matches Err(e) ==> e is QueueNotFound && !has_queue(old(self)@, name@) && final(self)@
                == old(self)@,
            r matches Ok(o) ==> has_queue(old(self)@, name@) && {
                let f = queue_index(old(self)@, name@);
                if old(self)@[f].messages.len() == 0 {
                    o is None && final(self)@ == old(self)@
                } else {
                    o matches Some(m) && m@ == old(self)@[f].messages[0] && final(self)@ == old(
                        self,
                    )@.update(
                        f,
                        QueueView { messages: old(self)@[f].messages.skip(1), ..old(self)@[f] },
                    )
                }
            },
    {
        let f = match self.find(name) {
            Some(f) => f,
            None => {
                return Err(ApiError::QueueNotFound);
            },
        };
        let r = self.queues[f].pop();
        proof {
            if old(self)@[f as int].messages.len() == 0 {
                assert(self@ =~= old(self)@);
            } else {
                assert(self@ =~= old(self)@.update(
                    f as int,
                    QueueView {
                        messages: old(self)@[f as int].messages.skip(1),
                        ..old(self)@[f as int]
                    },
                ));
            }
        }
        Ok(r)
    }

    /// Removes the first message with id `id` from the queue named `name`;
    /// a no-op on the messages when the id is absent, `Err(QueueNotFound)`
    /// when the queue does not exist.
    pub fn remove_by_id(&mut self, name: &str, id: &str) -> (r: Result<(), ApiError>)
        ensures
            r matches Err(e) ==> e is QueueNotFound && !has_queue(old(self)@, name@) && final(self)@
                == old(self)@,
            r is Ok ==> has_queue(old(self)@, name@) && {
                let f = queue_index(old(self)@, name@);
                let mi = crate::queue::msg_index(old(self)@[f].messages, id@);
                if mi < 0 {
                    final(self)@ == old(self)@
                } else {
                    final(self)@ == old(self)@.update(
                        f,
                        QueueView {
                            messages: old(self)@[f].messages.remove(mi),
                            ..old(self)@[f]
                        },
                    )
                }
            },
    {
        let f = match self.find(name) {
            Some(f) => f,
            None => {
                return Err(ApiError::QueueNotFound);
            },
        };
        self.queues[f].remove(id);
        proof {
            let mi = crate::queue::msg_index(old(self)@[f as int].messages, id@);
            if mi < 0 {
                assert(self@ =~= old(self)@);
            } else {
                assert(self@ =~= old(self)@.update(
                    f as int,
                    QueueView {
                        messages: old(self)@[f as int].messages.remove(mi),
                        ..old(self)@[f as int]
                    },
                ));
            }
        }
        Ok(())
    }

    /// How many queues the store holds.
    pub fn queue_count(&self) -> (r: usize)
        ensures
            r == self@.len(),
    {
        self.queues.len()
    }

    /// The names of the queues, in creation order, optionally filtered by a
    /// name prefix, and at most `max_results` of them.
    pub fn list(&self, max_results: u32, prefix: Option<&str>) -> (r: Vec<String>)
        ensures
            r.deep_view() == list_names(self@, prefix.deep_view(), max_results as nat),
    {
        let ghost qs = self@;
        let ghost pfx = prefix.deep_view();
        proof {
            assert forall|q: int| 0 <= q < qs.len() implies qs[q] == (
            #[trigger] self.queues@[q])@ by {}
        }
        let mut r: Vec<String> = Vec::new();
        let mut i: usize = 0;
        let n = self.queues.len();
        let mut count: u32 = 0;
        proof {
            assert(qs.skip(0) =~= qs);
            assert(r.deep_view() =~= Seq::<Seq<char>>::empty());
            assert(r.deep_view() + list_names(qs, pfx, max_results as nat) =~= list_names(
                qs,
                pfx,
                max_results as nat,
            ));
        }
        while i < n && count < max_results
            invariant
                0 <= i <= n,
                n == self.queues@.len(),
                qs == self@,
                pfx == prefix.deep_view(),
                qs.len() == n,
                forall|q: int| 0 <= q < qs.len() ==> qs[q] == (#[trigger] self.queues@[q])@,
                count == r@.len(),
                count <= max_results,
                r.deep_view().len() == r@.len(),
                list_names(qs, pfx, max_results as nat) == r.deep_view() + list_names(
                    qs.skip(i as int),
                    pfx,
                    (max_results - count) as nat,
                ),
            decreases n - i,
        {
            let ghost rdv = r.deep_view();
            let q = &self.queues[i];
            let keep = match prefix {
                None => true,
                Some(p) => str_starts_with(q.name(), p),
            };
            proof {
                assert(qs.skip(i as int)[0] == qs[i as int]);
                assert(qs.skip(i as int).skip(1) =~= qs.skip(i as int + 1));
            }
            if keep {
                r.push(q.name().to_owned());
                count = count + 1;
                proof {
                    assert(r.deep_view() =~= rdv.push(qs[i as int].name));
                    assert(rdv + (seq![qs[i as int].name] + list_names(
                        qs.skip(i as int + 1),
                        pfx,
                        (max_results - count) as nat,
                    )) =~= r.deep_view() + list_names(
                        qs.skip(i as int + 1),
                        pfx,
                        (max_results - count) as nat,
                    ));
                }
            }
            i = i + 1;
        }
        proof {
            if i >= n {
                assert(qs.skip(i as int) =~= Seq::<QueueView>::empty());
            }
            assert(list_names(qs.skip(i as int), pfx, (max_results - count) as nat) =~= Seq::<
                Seq<char>,
            >::empty());
            assert(r.deep_view() + Seq::<Seq<char>>::empty() =~= r.deep_view());
        }
        r
    }
}

/// Whether `name` passes the optional prefix filter.
pub open spec fn passes_prefix(name: Seq<char>, prefix: Option<Seq<char>>) -> bool {
    match prefix {
        None => true,
        Some(p) => starts_with(name, p),
    }
}

/// The names that `list` returns from the queues `qs`: creation order,
/// filtered by the optional prefix, at most `max` of them.
pub open spec fn list_names(qs: Seq<QueueView>, prefix: Option<Seq<char>>, max: nat) -> Seq<
    Seq<char>,
>
    decreases qs.len(),
{
    if qs.len() == 0 || max == 0 {
        Seq::empty()
    } else if passes_prefix(qs[0].name, prefix) {
        seq![qs[0].name] + list_names(qs.skip(1), prefix, (max - 1) as nat)
    } else {
        list_names(qs.skip(1), prefix, max)
    }
}

/// How many queues pass the prefix filter.
pub open spec fn count_matching(qs: Seq<QueueView>, prefix: Option<Seq<char>>) -> nat
    decreases qs.len(),
{
    if qs.len() == 0 {
        0
    } else {
        (count_matching(qs.skip(1), prefix) + (if passes_prefix(qs[0].name, prefix) {
            1nat
        } else {
            0
        })) as nat
    }
}

/// A listing is bounded exactly: it returns `max` names when at least `max`
/// queues pass the filter, and every passing name otherwise.
pub proof fn lemma_list_names_len(qs: Seq<QueueView>, prefix: Option<Seq<char>>, max: nat)
    ensures
        list_names(qs, prefix, max).len() == (if max <= count_matching(qs, prefix) {
            max
        } else {
            count_matching(qs, prefix)
        }),
    decreases qs.len(),
{
    if qs.len() > 0 && max > 0 {
        if passes_prefix(qs[0].name, prefix) {
            lemma_list_names_len(qs.skip(1), prefix, (max - 1) as nat);
        } else {
            lemma_list_names_len(qs.skip(1), prefix, max);
        }
    }
}

} // verus!
