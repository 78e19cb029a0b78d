use vstd::prelude::*;
use crate::plugins::raw_ntfy::GuestHost;

verus! {

/// One call of a host function: its name, the URL or topic, the bytes
/// handed over, and the status code the host gave (`0` for `emit_event`,
/// which gives none).
pub type HostCallRecord = (Seq<char>, Seq<char>, Seq<u8>, i32);

/// A guest's host, with a record of the calls made through it.
pub struct HostLink<H> {
    pub host: H,
    log: Ghost<Seq<HostCallRecord>>,
}

impl<H: GuestHost> HostLink<H> {
    /// The host calls made so far, oldest first.
    pub closed spec fn calls(&self) -> Seq<HostCallRecord> {
        self.log@
    }

    /// A link to `host` with no calls made yet.
    pub fn new(host: H) -> (l: Self)
        ensures
            l.calls() == Seq::<HostCallRecord>::empty(),
    {
        HostLink { host, log: Ghost(Seq::empty()) }
    }

    /// Puts an event on the host's bus.
    pub fn emit_event(&mut self, topic: &str, payload: &[u8])
        ensures
            final(self).calls() == old(self).calls().push(("emit_event"@, topic@, payload@, 0i32)),
    {
        self.host.emit_event(topic, payload);
        self.log = Ghost(self.log@.push(("emit_event"@, topic@, payload@, 0i32)));
    }

    /// Posts `body` to `url`; the host's status code.
    pub fn http_post(&mut self, url: &str, body: &[u8]) -> (code: i32)
        ensures
            final(self).calls() == old(self).calls().push(("http_post"@, url@, body@, code)),
    {
        let code = self.host.http_post(url, body);
        self.log = Ghost(self.log@.push(("http_post"@, url@, body@, code)));
        code
    }

    /// Starts listening to the event stream at `url`; the host's status code.
    pub fn sse_start(&mut self, url: &str) -> (code: i32)
        ensures
            final(self).calls() == old(self).calls().push(("sse_start"@, url@, Seq::<u8>::empty(), code)),
    {
        let code = self.host.sse_start(url);
        self.log = Ghost(self.log@.push(("sse_start"@, url@, Seq::<u8>::empty(), code)));
        code
    }
}

} // verus!
