use vstd::prelude::*;
use crate::host::engine::{answer_view, PluginCallRecord};
use crate::host::plugin_manager::PluginCall;

verus! {

/// The `handle_event` calls an event engine has made, each recorded by the
/// operation that made it, with the input it actually handed the plugin.
pub struct HandlerLog {
    log: Ghost<Seq<(Seq<char>, Seq<char>)>>,
}

impl HandlerLog {
    /// The calls so far, oldest first: the plugin's name and the input.
    pub closed spec fn records(&self) -> Seq<(Seq<char>, Seq<char>)> {
        self.log@
    }

    /// No calls yet.
    pub fn new() -> (l: Self)
        ensures
            l.records() == Seq::<(Seq<char>, Seq<char>)>::empty(),
    {
        HandlerLog { log: Ghost(Seq::empty()) }
    }

    /// Calls `handle_event` of the plugin `name` with `input`; its answer.
    /// The call is recorded with that same input.
    pub fn handle_event<P: PluginCall>(&mut self, plugin: &mut P, name: &str, input: &str) -> (r: Result<String, String>)
        ensures
            final(self).records() == old(self).records().push((name@, input@)),
    {
        let r = plugin.call("handle_event", input);
        self.log = Ghost(self.log@.push((name@, input@)));
        r
    }
}

} // verus!

verus! {

/// The plugin calls a plugin table has made, each recorded by the operation
/// that made it: the plugin's id, the function, the input actually handed
/// over, and the answer that came back.
pub struct PluginCallLog {
    log: Ghost<Seq<PluginCallRecord>>,
}

impl PluginCallLog {
    /// The calls so far, oldest first.
    pub closed spec fn records(&self) -> Seq<PluginCallRecord> {
        self.log@
    }

    /// No calls yet.
    pub fn new() -> (l: Self)
        ensures
            l.records() == Seq::<PluginCallRecord>::empty(),
    {
        PluginCallLog { log: Ghost(Seq::empty()) }
    }

    /// Calls `func` of the plugin `id` with `input`; its answer.  The call
    /// is recorded with that same function, input and answer.
    pub fn call<P: PluginCall>(&mut self, plugin: &mut P, id: &str, func: &str, input: &str) -> (r: Result<String, String>)
        ensures
            final(self).records() == old(self).records().push((id@, func@, input@, answer_view(r))),
    {
        let r = plugin.call(func, input);
        self.log = Ghost(self.log@.push((id@, func@, input@, answer_view(r))));
        r
    }
}

} // verus!
