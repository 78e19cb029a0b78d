use vstd::prelude::*;
use crate::chat_log::{append_spec, ChatLog};
use crate::host::event::{Event, EventMeta};
use crate::host::send_log::SendLog;

verus! {

#[verifier::external_type_specification]
#[verifier::external_body]
#[verifier::reject_recursive_types(T)]
pub struct ExBoundedSender<T>(tokio::sync::mpsc::Sender<T>);

#[verifier::external_type_specification]
#[verifier::external_body]
#[verifier::reject_recursive_types(T)]
pub struct ExUnboundedSender<T>(tokio::sync::mpsc::UnboundedSender<T>);

/// `tokio::sync::mpsc::Sender::try_send`: whether the event went into the
/// queue (it does not when the queue is full or closed).  Which happens
/// depends on the receiving task, so nothing is stated of the answer.
#[verifier::external_body]
fn bounded_try_send(tx: &tokio::sync::mpsc::Sender<Event>, ev: Event) -> (sent: bool) {
    tx.try_send(ev).is_ok()
}

/// `tokio::sync::mpsc::UnboundedSender::send`: whether the event went into
/// the queue (it does not once the receiver is gone).  Nothing is stated of
/// the answer.
#[verifier::external_body]
pub fn unbounded_send(tx: &tokio::sync::mpsc::UnboundedSender<Event>, ev: Event) -> (sent: bool) {
    tx.send(ev).is_ok()
}

/// `Clone::clone` of a bounded sender: another handle to the same queue.
#[verifier::external_body]
fn clone_bounded(tx: &tokio::sync::mpsc::Sender<Event>) -> tokio::sync::mpsc::Sender<Event> {
    tx.clone()
}

/// `Clone::clone` of an unbounded sender: another handle to the same queue.
#[verifier::external_body]
fn clone_unbounded(tx: &tokio::sync::mpsc::UnboundedSender<Event>) -> tokio::sync::mpsc::UnboundedSender<Event> {
    tx.clone()
}

/// Where a subscriber's events go: a plugin's bounded queue or the host's
/// unbounded one.
pub enum SubscriberTx {
    Bounded(tokio::sync::mpsc::Sender<Event>),
    Unbounded(tokio::sync::mpsc::UnboundedSender<Event>),
}

impl SubscriberTx {
    /// Offers the event without waiting; whether it was taken.
    pub fn try_send(&self, ev: Event) -> bool {
        match self {
            SubscriberTx::Bounded(tx) => bounded_try_send(tx, ev),
            SubscriberTx::Unbounded(tx) => unbounded_send(tx, ev),
        }
    }

    /// Another handle to the same queue.
    pub fn clone_handle(&self) -> (s: SubscriberTx)
        ensures
            s is Bounded <==> self is Bounded,
    {
        match self {
            SubscriberTx::Bounded(tx) => SubscriberTx::Bounded(clone_bounded(tx)),
            SubscriberTx::Unbounded(tx) => SubscriberTx::Unbounded(clone_unbounded(tx)),
        }
    }
}

/// A subscriber of a topic.
pub struct Receiver {
    pub id: String,
    pub tx: SubscriberTx,
}

/// The ids of each topic's subscribers, in registration order.
pub open spec fn ids_of(m: Map<Seq<char>, Seq<Receiver>>) -> Map<Seq<char>, Seq<Seq<char>>> {
    Map::new(|k: Seq<char>| m.contains_key(k), |k: Seq<char>| m[k].map_values(|r: Receiver| r.id@))
}

/// The subscriber ids after `id` subscribes to each of `topics`, in order.
pub open spec fn register_spec(m: Map<Seq<char>, Seq<Seq<char>>>, id: Seq<char>, topics: Seq<Seq<char>>) -> Map<
    Seq<char>,
    Seq<Seq<char>>,
>
    decreases topics.len(),
{
    if topics.len() == 0 {
        m
    } else {
        register_spec(append_spec(m, topics[0], id), id, topics.drop_first())
    }
}

/// The subscriber ids of `topic` (none for a topic nobody subscribed to).
pub open spec fn subscribers(m: Map<Seq<char>, Seq<Seq<char>>>, topic: Seq<char>) -> Seq<Seq<char>> {
    if m.contains_key(topic) {
        m[topic]
    } else {
        seq![]
    }
}

/// Topic to subscribers.
pub struct Router {
    table: ChatLog<Receiver>,
}

/// A routing table frozen for the routing task.
pub struct RouterTable {
    table: ChatLog<Receiver>,
    sent: SendLog,
}

/// One send the routing made: `"offer"` of a copy to a subscriber, or
/// `"dead_letter"` of a copy the subscriber did not take; the subscriber's
/// id, and the copy's envelope and payload.
pub type RouteRecord = (Seq<char>, Seq<char>, EventMeta, Seq<u8>);

/// The sends routing an event makes, given each subscriber's id and
/// whether it took its copy, in order: an offer to each, and a dead letter
/// after each offer not taken.
pub open spec fn route_log(rs: Seq<(Seq<char>, bool)>, meta: EventMeta, payload: Seq<u8>) -> Seq<RouteRecord>
    decreases rs.len(),
{
    if rs.len() == 0 {
        seq![]
    } else {
        let x = rs.last();
        route_log(rs.drop_last(), meta, payload) + seq![("offer"@, x.0, meta, payload)] + (if x.1 {
            seq![]
        } else {
            seq![("dead_letter"@, x.0, meta, payload)]
        })
    }
}

/// What routing an event hands over, whatever the queues did: every send
/// carries the routed event's envelope and payload; the offers go to the
/// subscribers, one each, in order; and the dead letters are exactly the
/// copies of the subscribers that did not take theirs, in the same order.
pub proof fn lemma_route_sends(rs: Seq<(Seq<char>, bool)>, meta: EventMeta, payload: Seq<u8>)
    ensures
        forall|k: int| 0 <= k < route_log(rs, meta, payload).len() ==> (#[trigger] route_log(rs, meta, payload)[k]).2
            == meta && route_log(rs, meta, payload)[k].3 == payload,
        route_log(rs, meta, payload).filter(|x: RouteRecord| x.0 == "offer"@).map_values(|x: RouteRecord| x.1)
            == rs.map_values(|x: (Seq<char>, bool)| x.0),
        route_log(rs, meta, payload).filter(|x: RouteRecord| x.0 == "dead_letter"@).map_values(|x: RouteRecord| x.1)
            == rs.filter(|x: (Seq<char>, bool)| !x.1).map_values(|x: (Seq<char>, bool)| x.0),
    decreases rs.len(),
{
    reveal_strlit("offer");
    reveal_strlit("dead_letter");
    assert("offer"@ != "dead_letter"@) by {
        assert("offer"@.len() != "dead_letter"@.len());
    }
    let is_offer = |x: RouteRecord| x.0 == "offer"@;
    let is_dl = |x: RouteRecord| x.0 == "dead_letter"@;
    let not_taken = |x: (Seq<char>, bool)| !x.1;
    let log = route_log(rs, meta, payload);
    if rs.len() == 0 {
        reveal(Seq::filter);
        assert(log.filter(is_offer) =~= Seq::<RouteRecord>::empty());
        assert(log.filter(is_dl) =~= Seq::<RouteRecord>::empty());
        assert(rs.filter(not_taken) =~= Seq::<(Seq<char>, bool)>::empty());
        assert(rs.map_values(|x: (Seq<char>, bool)| x.0) =~= Seq::<Seq<char>>::empty());
    } else {
        let pre = rs.drop_last();
        let x = rs.last();
        lemma_route_sends(pre, meta, payload);
        let a = route_log(pre, meta, payload);
        let o: Seq<RouteRecord> = seq![("offer"@, x.0, meta, payload)];
        let d: Seq<RouteRecord> = if x.1 { seq![] } else { seq![("dead_letter"@, x.0, meta, payload)] };
        assert(log == a + o + d);
        assert forall|k: int| 0 <= k < log.len() implies (#[trigger] log[k]).2 == meta && log[k].3 == payload by {
            if k < a.len() {
                assert(log[k] == a[k]);
            }
        }
        Seq::filter_distributes_over_add(a + o, d, is_offer);
        Seq::filter_distributes_over_add(a, o, is_offer);
        Seq::filter_distributes_over_add(a + o, d, is_dl);
        Seq::filter_distributes_over_add(a, o, is_dl);
        reveal_with_fuel(Seq::filter, 2);
        assert(o.filter(is_offer) =~= o);
        assert(o.filter(is_dl) =~= Seq::<RouteRecord>::empty());
        assert(d.filter(is_offer) =~= Seq::<RouteRecord>::empty());
        assert(d.filter(is_dl) =~= d);
        assert(rs =~= pre.push(x));
        assert(rs.filter(not_taken) == if x.1 { pre.filter(not_taken) } else { pre.filter(not_taken).push(x) });
        assert(log.filter(is_offer).map_values(|x: RouteRecord| x.1) =~= a.filter(is_offer).map_values(
            |x: RouteRecord| x.1,
        ).push(x.0));
        assert(rs.map_values(|x: (Seq<char>, bool)| x.0) =~= pre.map_values(|x: (Seq<char>, bool)| x.0).push(x.0));
        if x.1 {
            assert(log.filter(is_dl) =~= a.filter(is_dl));
        } else {
            assert(log.filter(is_dl).map_values(|x: RouteRecord| x.1) =~= a.filter(is_dl).map_values(
                |x: RouteRecord| x.1,
            ).push(x.0));
            assert(pre.filter(not_taken).push(x).map_values(|x: (Seq<char>, bool)| x.0) =~= pre.filter(
                not_taken,
            ).map_values(|x: (Seq<char>, bool)| x.0).push(x.0));
        }
    }
}

/// The ids and outcomes of a routing, by their views.
pub open spec fn route_view(r: Seq<(String, bool)>) -> Seq<(Seq<char>, bool)> {
    r.map_values(|x: (String, bool)| (x.0@, x.1))
}

proof fn lemma_ids_append(m: Map<Seq<char>, Seq<Receiver>>, topic: Seq<char>, r: Receiver)
    ensures
        ids_of(append_spec(m, topic, r)) == append_spec(ids_of(m), topic, r.id@),
{
    let a = ids_of(append_spec(m, topic, r));
    let b = append_spec(ids_of(m), topic, r.id@);
    assert forall|k: Seq<char>| #[trigger] a.contains_key(k) implies a[k] == b[k] by {
        if k == topic && m.contains_key(topic) {
            assert(m[topic].push(r).map_values(|x: Receiver| x.id@) =~= m[topic].map_values(
                |x: Receiver| x.id@,
            ).push(r.id@));
        } else if k == topic {
            assert(seq![r].map_values(|x: Receiver| x.id@) =~= seq![r.id@]);
        }
    }
    assert(a.dom() =~= b.dom());
    assert(a =~= b);
}

impl Router {
    pub closed spec fn wf(&self) -> bool {
        self.table.wf()
    }

    /// Subscriber ids per topic.
    pub closed spec fn subs(&self) -> Map<Seq<char>, Seq<Seq<char>>> {
        ids_of(self.table@)
    }

    /// A table with no subscribers.
    pub fn new() -> (r: Self)
        ensures
            r.wf(),
            r.subs() == Map::<Seq<char>, Seq<Seq<char>>>::empty(),
    {
        let r = Router { table: ChatLog::new() };
        assert(ids_of(r.table@) =~= Map::<Seq<char>, Seq<Seq<char>>>::empty());
        r
    }

    /// Subscribes `id`, delivering through `tx`, to each of `topics`.
    pub fn register(&mut self, id: &str, topics: &[String], tx: SubscriberTx)
        requires
            old(self).wf(),
        ensures
            final(self).wf(),
            final(self).subs() == register_spec(old(self).subs(), id@, topics@.map_values(|t: String| t@)),
    {
        let ghost ts = topics@.map_values(|t: String| t@);
        let mut i: usize = 0;
        assert(ts.subrange(0, ts.len() as int) =~= ts);
        while i < topics.len()
            invariant
                self.wf(),
                i <= topics@.len(),
                ts == topics@.map_values(|t: String| t@),
                register_spec(old(self).subs(), id@, ts) == register_spec(
                    self.subs(),
                    id@,
                    ts.subrange(i as int, ts.len() as int),
                ),
            decreases topics@.len() - i,
        {
            let r = Receiver { id: String::from_str(id), tx: tx.clone_handle() };
            let ghost rv = r;
            let ghost before = self.table@;
            self.table.append(topics[i].as_str(), r);
            proof {
                lemma_ids_append(before, ts[i as int], rv);
                assert(ts.subrange(i as int, ts.len() as int).drop_first() =~= ts.subrange(
                    i + 1,
                    ts.len() as int,
                ));
            }
            i = i + 1;
        }
        proof {
            assert(ts.subrange(i as int, ts.len() as int).len() == 0);
        }
    }

    /// A copy of the table for the routing task (the same queues).
    pub fn clone_table(&self) -> (t: RouterTable)
        requires
            self.wf(),
        ensures
            t.wf(),
            t.subs() == self.subs(),
            t.sends() == Seq::<RouteRecord>::empty(),
    {
        let src = self.table.groups();
        let mut out: Vec<(String, Vec<Receiver>)> = Vec::new();
        let mut i: usize = 0;
        while i < src.len()
            invariant
                i <= src@.len(),
                out@.len() == i,
                forall|a: int| 0 <= a < i ==> #[trigger] out@[a].0@ == src@[a].0@
                    && out@[a].1@.map_values(|r: Receiver| r.id@) == src@[a].1@.map_values(|r: Receiver| r.id@),
            decreases src@.len() - i,
        {
            let group = &src[i].1;
            let mut copy: Vec<Receiver> = Vec::new();
            let mut j: usize = 0;
            while j < group.len()
                invariant
                    j <= group@.len(),
                    copy@.len() == j,
                    forall|b: int| 0 <= b < j ==> #[trigger] copy@[b].id@ == group@[b].id@,
                decreases group@.len() - j,
            {
                copy.push(Receiver { id: group[j].id.clone(), tx: group[j].tx.clone_handle() });
                j = j + 1;
            }
            assert(copy@.map_values(|r: Receiver| r.id@) =~= group@.map_values(|r: Receiver| r.id@));
            out.push((src[i].0.clone(), copy));
            i = i + 1;
        }
        proof {
            self.table.lemma_view();
            assert forall|a: int, b: int| 0 <= a < b < out@.len() implies out@[a].0@ != out@[b].0@ by {
                assert(out@[a].0@ == src@[a].0@);
                assert(out@[b].0@ == src@[b].0@);
            }
            lemma_ids_same(out@, src@);
        }
        let t = RouterTable { table: ChatLog::from_groups(out), sent: SendLog::new() };
        proof {
            t.table.lemma_view();
        }
        t
    }
}

proof fn lemma_ids_same(a: Seq<(String, Vec<Receiver>)>, b: Seq<(String, Vec<Receiver>)>)
    requires
        a.len() == b.len(),
        forall|i: int| 0 <= i < a.len() ==> #[trigger] a[i].0@ == b[i].0@
            && a[i].1@.map_values(|r: Receiver| r.id@) == b[i].1@.map_values(|r: Receiver| r.id@),
    ensures
        ids_of(crate::chat_log::groups_map(a)) == ids_of(crate::chat_log::groups_map(b)),
    decreases a.len(),
{
    if a.len() > 0 {
        assert forall|i: int| 0 <= i < a.drop_last().len() implies #[trigger] a.drop_last()[i].0@
            == b.drop_last()[i].0@ && a.drop_last()[i].1@.map_values(|r: Receiver| r.id@)
            == b.drop_last()[i].1@.map_values(|r: Receiver| r.id@) by {
            assert(a[i].0@ == b[i].0@);
        }
        lemma_ids_same(a.drop_last(), b.drop_last());
        let ma = crate::chat_log::groups_map(a);
        let mb = crate::chat_log::groups_map(b);
        let pa = crate::chat_log::groups_map(a.drop_last());
        let pb = crate::chat_log::groups_map(b.drop_last());
        assert(a[a.len() - 1].0@ == b[b.len() - 1].0@);
        assert(ids_of(pa).dom() =~= pa.dom());
        assert(ids_of(pb).dom() =~= pb.dom());
        assert(pa.dom() =~= pb.dom());
        assert(ma.dom() =~= mb.dom());
        assert(ids_of(ma).dom() =~= ma.dom());
        assert(ids_of(mb).dom() =~= mb.dom());
        assert forall|k: Seq<char>| #[trigger] ids_of(ma).contains_key(k) implies ids_of(ma)[k] == ids_of(mb)[k] by {
            if k != a.last().0@ {
                assert(ids_of(crate::chat_log::groups_map(a.drop_last())).contains_key(k));
                assert(ids_of(crate::chat_log::groups_map(a.drop_last()))[k] == ids_of(crate::chat_log::groups_map(b.drop_last()))[k]);
            }
        }
        assert(ids_of(ma) =~= ids_of(mb));
    }
}

impl RouterTable {
    pub closed spec fn wf(&self) -> bool {
        self.table.wf()
    }

    /// Subscriber ids per topic.
    pub closed spec fn subs(&self) -> Map<Seq<char>, Seq<Seq<char>>> {
        ids_of(self.table@)
    }

    /// The sends made by routing so far, oldest first.
    pub closed spec fn sends(&self) -> Seq<RouteRecord> {
        self.sent.records()
    }

    /// Offers a copy of `event` to every subscriber of its topic, in
    /// registration order; a copy a subscriber does not take goes to the
    /// dead-letter queue.  Returns each subscriber's id with whether it took
    /// its copy (which depends on the queues).
    pub fn route(&mut self, event: &Event, dlq_tx: &tokio::sync::mpsc::UnboundedSender<Event>) -> (r: Vec<(String, bool)>)
        requires
            old(self).wf(),
        ensures
            final(self).wf(),
            final(self).subs() == old(self).subs(),
            r@.map_values(|x: (String, bool)| x.0@) == subscribers(old(self).subs(), event.meta.topic@),
            final(self).sends() == old(self).sends() + route_log(route_view(r@), event.meta, event.payload@),
            forall|k: int| old(self).sends().len() <= k < final(self).sends().len() ==> (#[trigger] final(self).sends()[k]).2
                == event.meta && final(self).sends()[k].3 == event.payload@,
    {
        let mut out: Vec<(String, bool)> = Vec::new();
        proof {
            assert(route_view(out@) =~= Seq::<(Seq<char>, bool)>::empty());
            assert(self.sends() + route_log(route_view(out@), event.meta, event.payload@) =~= old(self).sends());
        }
        match self.table.get(event.meta.topic.as_str()) {
            None => {
                assert(out@.map_values(|x: (String, bool)| x.0@) =~= Seq::<Seq<char>>::empty());
            },
            Some(receivers) => {
                let mut i: usize = 0;
                let ghost start = self.sent.records();
                while i < receivers.len()
                    invariant
                        self.table == old(self).table,
                        i <= receivers@.len(),
                        start == old(self).sends(),
                        out@.map_values(|x: (String, bool)| x.0@) == receivers@.subrange(0, i as int).map_values(|r: Receiver| r.id@),
                        self.sent.records() == start + route_log(route_view(out@), event.meta, event.payload@),
                    decreases receivers@.len() - i,
                {
                    let ghost rid = receivers@[i as int].id@;
                    let sent = self.sent.offer(&receivers[i].tx, &receivers[i].id, event.duplicate());
                    if !sent {
                        self.sent.dead_letter(dlq_tx, &receivers[i].id, event.duplicate());
                    }
                    let ghost before = out@;
                    out.push((receivers[i].id.clone(), sent));
                    proof {
                        assert(route_view(out@).drop_last() =~= route_view(before));
                        assert(route_view(out@).last() == (rid, sent));
                        if sent {
                            assert(self.sent.records() =~= start + route_log(route_view(out@), event.meta, event.payload@));
                        } else {
                            assert(self.sent.records() =~= start + route_log(route_view(out@), event.meta, event.payload@));
                        }
                    }
                    assert(out@.map_values(|x: (String, bool)| x.0@) =~= before.map_values(|x: (String, bool)| x.0@).push(receivers@[i as int].id@));
                    assert(receivers@.subrange(0, i + 1).map_values(|r: Receiver| r.id@) =~= receivers@.subrange(0, i as int).map_values(|r: Receiver| r.id@).push(receivers@[i as int].id@));
                    i = i + 1;
                    assert(out@.map_values(|x: (String, bool)| x.0@) =~= receivers@.subrange(0, i as int).map_values(|r: Receiver| r.id@));
                }
                assert(receivers@.subrange(0, receivers@.len() as int) =~= receivers@);
            },
        }
        proof {
            let rl = route_log(route_view(out@), event.meta, event.payload@);
            lemma_route_sends(route_view(out@), event.meta, event.payload@);
            assert forall|k: int| old(self).sends().len() <= k < self.sends().len() implies (#[trigger] self.sends()[k]).2
                == event.meta && self.sends()[k].3 == event.payload@ by {
                assert(self.sends()[k] == rl[k - old(self).sends().len()]);
            }
        }
        out
    }
}

} // verus!
