use vstd::prelude::*;
use crate::host::event::Event;
use crate::host::hotswap::{offer, ShutdownOffer};
use crate::host::router::{unbounded_send, RouteRecord, SubscriberTx};

verus! {

/// The sends a routing table has made, each recorded by the operation that
/// made it, with the envelope and payload of the very event it handed over.
pub struct SendLog {
    log: Ghost<Seq<RouteRecord>>,
}

impl SendLog {
    /// The sends so far, oldest first.
    pub closed spec fn records(&self) -> Seq<RouteRecord> {
        self.log@
    }

    /// No sends yet.
    pub fn new() -> (l: Self)
        ensures
            l.records() == Seq::<RouteRecord>::empty(),
    {
        SendLog { log: Ghost(Seq::empty()) }
    }

    /// Offers `ev` to the subscriber `id` through `tx`, without waiting;
    /// whether it was taken.  The offer is recorded with `ev` itself.
    pub fn offer(&mut self, tx: &SubscriberTx, id: &String, ev: Event) -> (sent: bool)
        ensures
            final(self).records() == old(self).records().push(("offer"@, id@, ev.meta, ev.payload@)),
    {
        let ghost rec = ("offer"@, id@, ev.meta, ev.payload@);
        let sent = tx.try_send(ev);
        self.log = Ghost(self.log@.push(rec));
        sent
    }

    /// Sends `ev`, a copy the subscriber `id` did not take, to the
    /// dead-letter queue.  The send is recorded with `ev` itself.
    pub fn dead_letter(&mut self, dlq_tx: &tokio::sync::mpsc::UnboundedSender<Event>, id: &String, ev: Event)
        ensures
            final(self).records() == old(self).records().push(("dead_letter"@, id@, ev.meta, ev.payload@)),
    {
        let ghost rec = ("dead_letter"@, id@, ev.meta, ev.payload@);
        let _ = unbounded_send(dlq_tx, ev);
        self.log = Ghost(self.log@.push(rec));
    }
}

} // verus!

verus! {

/// The shutdown notices a hot swapper has offered, each recorded by the
/// operation that offered it, with the topic and payload of the very event
/// handed over.
pub struct ShutdownLog {
    log: Ghost<Seq<ShutdownOffer>>,
}

impl ShutdownLog {
    /// The offers so far, oldest first.
    pub closed spec fn records(&self) -> Seq<ShutdownOffer> {
        self.log@
    }

    /// No offers yet.
    pub fn new() -> (l: Self)
        ensures
            l.records() == Seq::<ShutdownOffer>::empty(),
    {
        ShutdownLog { log: Ghost(Seq::empty()) }
    }

    /// Offers `ev` to the queue of plugin `id` without waiting; whether it
    /// was taken.  The offer is recorded with `ev` itself.
    pub fn offer(&mut self, tx: &tokio::sync::mpsc::Sender<Event>, id: &str, ev: Event) -> (sent: bool)
        ensures
            final(self).records() == old(self).records().push((id@, ev.meta.topic@, ev.payload@, sent)),
    {
        let ghost topic = ev.meta.topic@;
        let ghost payload = ev.payload@;
        let sent = offer(tx, ev);
        self.log = Ghost(self.log@.push((id@, topic, payload, sent)));
        sent
    }
}

} // verus!
