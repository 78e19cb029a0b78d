use vstd::prelude::*;
use crate::clock::{new_uuid_v4, unix_now_secs};
use crate::text::clone_bytes;

verus! {

/// The topic that stops a plugin's worker.
pub const SYS_SHUTDOWN: &'static str = "SYS_SHUTDOWN";

/// The topic of the data that arrives from the network.
pub const NET_RECEIVED: &'static str = "NET_RECEIVED";

/// The envelope of an event on the bus.
#[derive(Debug)]
pub struct EventMeta {
    pub id: String,
    pub topic: String,
    pub version: u32,
    pub timestamp: u64,
}

impl EventMeta {
    /// A fresh envelope for `topic`: a new random id, version 1, the current time.
    pub fn new(topic: &str) -> (m: EventMeta)
        ensures
            m.topic@ == topic@,
            m.version == 1,
            m.id@.len() == 36,
    {
        EventMeta { id: new_uuid_v4(), topic: String::from_str(topic), version: 1, timestamp: unix_now_secs() }
    }

    /// An equal copy.
    pub fn duplicate(&self) -> (m: EventMeta)
        ensures
            m == *self,
    {
        EventMeta { id: self.id.clone(), topic: self.topic.clone(), version: self.version, timestamp: self.timestamp }
    }
}

/// An event on the bus.
#[derive(Debug)]
pub struct Event {
    pub meta: EventMeta,
    pub payload: Vec<u8>,
}

impl Event {
    /// A fresh event on `topic` carrying `payload`.
    pub fn new(topic: &str, payload: Vec<u8>) -> (e: Event)
        ensures
            e.meta.topic@ == topic@,
            e.meta.version == 1,
            e.payload@ == payload@,
    {
        Event { meta: EventMeta::new(topic), payload }
    }

    /// A copy with the same envelope and payload.
    pub fn duplicate(&self) -> (e: Event)
        ensures
            e.meta == self.meta,
            e.payload@ == self.payload@,
    {
        Event { meta: self.meta.duplicate(), payload: clone_bytes(self.payload.as_slice()) }
    }
}

} // verus!
