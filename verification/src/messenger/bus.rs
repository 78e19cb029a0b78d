use vstd::prelude::*;
use std::collections::VecDeque;
use crate::json::JsonValue;

verus! {

/// Something that happened, for the user interface to show.
#[derive(Debug)]
pub struct Event {
    pub kind: String,
    pub payload: JsonValue,
}

/// The events not yet shown, oldest first.
pub struct EventQueue {
    queue: VecDeque<Event>,
}

impl View for EventQueue {
    type V = Seq<Event>;

    closed spec fn view(&self) -> Seq<Event> {
        self.queue@
    }
}

/// The queue after `e` is pushed.
pub open spec fn push_spec(q: Seq<Event>, e: Event) -> Seq<Event> {
    q.push(e)
}

/// What a poll gives and leaves: the oldest event, or nothing when empty.
pub open spec fn poll_spec(q: Seq<Event>) -> (Option<Event>, Seq<Event>) {
    if q.len() == 0 {
        (None, q)
    } else {
        (Some(q[0]), q.drop_first())
    }
}

impl EventQueue {
    /// An empty queue.
    pub fn new() -> (q: Self)
        ensures
            q@ == Seq::<Event>::empty(),
    {
        EventQueue { queue: VecDeque::new() }
    }

    /// Adds `event` as the newest.
    pub fn push_event(&mut self, event: Event)
        ensures
            final(self)@ == push_spec(old(self)@, event),
    {
        self.queue.push_back(event);
    }

    /// Takes the oldest event, if any.
    pub fn poll_event(&mut self) -> (r: Option<Event>)
        ensures
            (r, final(self)@) == poll_spec(old(self)@),
    {
        let r = self.queue.pop_front();
        proof {
            if old(self)@.len() > 0 {
                assert(self.queue@ =~= old(self)@.drop_first());
            }
        }
        r
    }
}

/// Events leave in the order they came: pushing onto a queue does not
/// change which event a poll gives, unless the queue was empty, and then
/// the poll gives the pushed event and leaves the queue empty.
pub proof fn lemma_fifo(q: Seq<Event>, e: Event)
    ensures
        q.len() > 0 ==> poll_spec(push_spec(q, e)).0 == poll_spec(q).0 && poll_spec(push_spec(q, e)).1 == push_spec(
            poll_spec(q).1,
            e,
        ),
        q.len() == 0 ==> poll_spec(push_spec(q, e)) == (Some(e), Seq::<Event>::empty()),
{
    if q.len() > 0 {
        assert(q.push(e).drop_first() =~= q.drop_first().push(e));
    } else {
        assert(q.push(e).drop_first() =~= Seq::<Event>::empty());
    }
}

} // verus!
