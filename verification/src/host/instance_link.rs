use vstd::prelude::*;
use crate::host::worker::PluginInstance;

verus! {

/// One call of a plugin's `handle_event`: the envelope JSON and payload
/// handed over, and whether the handler succeeded.
pub type HandleRecord = (Seq<u8>, Seq<u8>, bool);

/// A plugin instance, with a record of the events handed to it.
pub struct InstanceLink<I> {
    pub instance: I,
    log: Ghost<Seq<HandleRecord>>,
}

impl<I: PluginInstance> InstanceLink<I> {
    /// The `handle_event` calls made so far, oldest first.
    pub closed spec fn calls(&self) -> Seq<HandleRecord> {
        self.log@
    }

    /// A link to `instance` with no calls made yet.
    pub fn new(instance: I) -> (l: Self)
        ensures
            l.calls() == Seq::<HandleRecord>::empty(),
    {
        InstanceLink { instance, log: Ghost(Seq::empty()) }
    }

    /// The fuel the instance has used so far.
    pub fn fuel_consumed(&self) -> u64 {
        self.instance.fuel_consumed()
    }

    /// Hands an event to the plugin.
    pub fn handle_event(&mut self, meta_json: &[u8], payload: &[u8]) -> (r: Result<(), String>)
        ensures
            final(self).calls() == old(self).calls().push((meta_json@, payload@, r is Ok)),
    {
        let r = self.instance.handle_event(meta_json, payload);
        self.log = Ghost(self.log@.push((meta_json@, payload@, r is Ok)));
        r
    }
}

} // verus!
