//! One in-memory FIFO queue: a named, ordered sequence of messages.
use std::collections::VecDeque;
use vstd::prelude::*;

verus! {

/// A message living in a queue: an opaque identifier and a text body.
#[derive(Debug, Clone, PartialEq)]
pub struct Message {
    pub id: String,
    pub message_body: String,
}

/// The mathematical shadow of a [`Message`].
pub struct MessageView {
    pub id: Seq<char>,
    pub body: Seq<char>,
}

impl View for Message {
    type V = MessageView;

    open spec fn view(&self) -> MessageView {
        MessageView { id: self.id@, body: self.message_body@ }
    }
}

/// One `(key, value)` tag attached to a queue.
#[derive(Debug, Clone, PartialEq)]
pub struct QueueTags {
    pub key: String,
    pub value: String,
}

impl View for QueueTags {
    type V = (Seq<char>, Seq<char>);

    open spec fn view(&self) -> (Seq<char>, Seq<char>) {
        (self.key@, self.value@)
    }
}

/// The mathematical shadow of a [`Queue`]: its name, its tags, and its
/// messages with the head of the queue first.
pub struct QueueView {
    pub name: Seq<char>,
    pub tags: Seq<(Seq<char>, Seq<char>)>,
    pub messages: Seq<MessageView>,
}

/// A named FIFO queue: messages enter at the tail and leave at the head, in
/// strict insertion order.
#[derive(Debug, Clone)]
pub struct Queue {
    name: String,
    tags: Vec<QueueTags>,
    messages: VecDeque<Message>,
}

impl View for Queue {
    type V = QueueView;

    closed spec fn view(&self) -> QueueView {
        QueueView {
            name: self.name@,
            tags: self.tags@.map_values(|t: QueueTags| t@),
            messages: self.messages@.map_values(|m: Message| m@),
        }
    }
}

/// The position of the first message of `msgs` whose id is `id`, or `-1`.
pub open spec fn msg_index(msgs: Seq<MessageView>, id: Seq<char>) -> int
    decreases msgs.len(),
{
    if msgs.len() == 0 {
        -1
    } else if msgs[0].id == id {
        0
    } else {
        let r = msg_index(msgs.skip(1), id);
        if r < 0 {
            -1
        } else {
            r + 1
        }
    }
}

proof fn lemma_msg_index_found(msgs: Seq<MessageView>, id: Seq<char>, f: int)
    requires
        0 <= f < msgs.len(),
        msgs[f].id == id,
        forall|q: int| 0 <= q < f ==> (#[trigger] msgs[q]).id != id,
    ensures
        msg_index(msgs, id) == f,
    decreases f,
{
    if f > 0 {
        lemma_msg_index_found(msgs.skip(1), id, f - 1);
    }
}

proof fn lemma_msg_index_missing(msgs: Seq<MessageView>, id: Seq<char>)
    requires
        forall|q: int| 0 <= q < msgs.len() ==> (#[trigger] msgs[q]).id != id,
    ensures
        msg_index(msgs, id) < 0,
    decreases msgs.len(),
{
    if msgs.len() > 0 {
        lemma_msg_index_missing(msgs.skip(1), id);
    }
}

/// Pushing a message onto a fresh queue and then popping returns that very
/// message and leaves the queue empty: `push` appends at the tail (see
/// `Queue::push`) and `pop` removes the head (see `Queue::pop`).
pub proof fn lemma_push_then_pop(m: MessageView)
    ensures
        Seq::<MessageView>::empty().push(m)[0] == m,
        Seq::<MessageView>::empty().push(m).skip(1).len() == 0,
{
}

/// The FIFO law: pushing `a`, `b`, `c` in that order onto a fresh queue and
/// popping three times yields `a`, `b`, `c` in that order and leaves the
/// queue empty, stated over the message sequences that `Queue::push` and
/// `Queue::pop` promise.
pub proof fn lemma_fifo_order(a: MessageView, b: MessageView, c: MessageView)
    ensures
        ({
            let q3 = Seq::<MessageView>::empty().push(a).push(b).push(c);
            &&& q3.len() == 3
            &&& q3[0] == a
            &&& q3.skip(1)[0] == b
            &&& q3.skip(1).skip(1)[0] == c
            &&& q3.skip(1).skip(1).skip(1).len() == 0
        }),
{
}

impl Queue {
    /// A fresh queue with the given name and tags and no messages.
    pub fn new(name: &str, tags: Vec<QueueTags>) -> (q: Queue)
        ensures
            q@.name == name@,
            q@.tags == tags@.map_values(|t: QueueTags| t@),
            q@.messages == Seq::<MessageView>::empty(),
    {
        let q = Queue { name: name.to_owned(), tags, messages: VecDeque::new() };
        proof {
            assert(q@.messages =~= Seq::<MessageView>::empty());
        }
        q
    }

    /// Appends a message at the tail of the queue.
    pub fn push(&mut self, msg: Message)
        ensures
            final(self)@.name == old(self)@.name,
            final(self)@.tags == old(self)@.tags,
            final(self)@.messages == old(self)@.messages.push(msg@),
    {
        let ghost m = msg@;
        self.messages.push_back(msg);
        proof {
            assert(self@.messages =~= old(self)@.messages.push(m));
        }
    }

    /// Removes and returns the message at the head of the queue, the oldest
    /// one; `None` when the queue is empty.
    pub fn pop(&mut self) -> (r: Option<Message>)
        ensures
            final(self)@.name == old(self)@.name,
            final(self)@.tags == old(self)@.tags,
            old(self)@.messages.len() == 0 ==> r is None && final(self)@.messages == old(
                self,
            )@.messages,
            old(self)@.messages.len() > 0 ==> (r matches Some(m) && m@ == old(
                self,
            )@.messages[0] && final(self)@.messages == old(self)@.messages.skip(1)),
    {
        let r = self.messages.pop_front();
        proof {
            if old(self)@.messages.len() > 0 {
                assert(self@.messages =~= old(self)@.messages.skip(1));
            } else {
                assert(self@.messages =~= old(self)@.messages);
            }
        }
        r
    }

    /// Removes the first message whose id is `id`; does nothing when no
    /// message carries that id.
    pub fn remove(&mut self, id: &str)
        ensures
            final(self)@.name == old(self)@.name,
            final(self)@.tags == old(self)@.tags,
            msg_index(old(self)@.messages, id@) < 0 ==> final(self)@.messages == old(
                self,
            )@.messages,
            msg_index(old(self)@.messages, id@) >= 0 ==> final(self)@.messages == old(
                self,
            )@.messages.remove(msg_index(old(self)@.messages, id@)),
    {
        let ghost msgs0 = self@.messages;
        let mut f: usize = 0;
        let n = self.messages.len();
        while f < n && !crate::ascii::str_eq(self.messages[f].id.as_str(), id)
            invariant
                0 <= f <= n,
                n == self.messages@.len(),
                *self == *old(self),
                msgs0 == self@.messages,
                forall|q: int| 0 <= q < f ==> (#[trigger] msgs0[q]).id != id@,
            decreases n - f,
        {
            f = f + 1;
        }
        if f < n {
            proof {
                lemma_msg_index_found(msgs0, id@, f as int);
            }
            self.messages.remove(f);
            proof {
                assert(self@.messages =~= msgs0.remove(f as int));
            }
        } else {
            proof {
                lemma_msg_index_missing(msgs0, id@);
            }
        }
    }

    /// The queue's name.
    pub fn name(&self) -> (r: &str)
        ensures
            r@ == self@.name,
    {
        self.name.as_str()
    }

    /// How many messages the queue holds.
    pub fn len(&self) -> (r: usize)
        ensures
            r == self@.messages.len(),
    {
        self.messages.len()
    }

    /// The message at position `i` from the head, without removing it.
    pub fn get(&self, i: usize) -> (r: Option<&Message>)
        ensures
            i < self@.messages.len() ==> (r matches Some(m) && m@ == self@.messages[i as int]),
            i >= self@.messages.len() ==> r is None,
    {
        if i < self.messages.len() {
            Some(&self.messages[i])
        } else {
            None
        }
    }
}

} // verus!
