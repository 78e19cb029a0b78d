use vstd::prelude::*;
use crate::void::engine::TransportCall;
use crate::void::transport::Transport;

verus! {

/// The transport calls an engine has made, each recorded by the operation
/// that made it, with the address and bytes actually handed over or the
/// bytes actually received.
pub struct TransportLog {
    log: Ghost<Seq<TransportCall>>,
}

impl TransportLog {
    /// The calls so far, oldest first.
    pub closed spec fn records(&self) -> Seq<TransportCall> {
        self.log@
    }

    /// No calls yet.
    pub fn new() -> (l: Self)
        ensures
            l.records() == Seq::<TransportCall>::empty(),
    {
        TransportLog { log: Ghost(Seq::empty()) }
    }

    /// Sends `data` to the peer at `addr` through the transport at position
    /// `index`; its outcome.  The send is recorded with that address and data.
    pub fn send<T: Transport>(&mut self, t: &T, index: usize, addr: &str, data: &[u8]) -> (r: Result<(), String>)
        ensures
            final(self).records() == old(self).records().push(("send"@, index as int, addr@, Some(data@))),
    {
        let r = t.send(addr, data);
        self.log = Ghost(self.log@.push(("send"@, index as int, addr@, Some(data@))));
        r
    }

    /// Takes what the transport at position `index` received, if anything.
    /// The call is recorded with what came back.
    pub fn recv<T: Transport>(&mut self, t: &mut T, index: usize) -> (r: Option<Vec<u8>>)
        ensures
            final(self).records() == old(self).records().push(
                ("recv"@, index as int, Seq::<char>::empty(), if r is Some { Some(r->0@) } else { None }),
            ),
    {
        let r = t.recv();
        let ghost gv: Option<Seq<u8>> = if r is Some { Some(r->0@) } else { None };
        self.log = Ghost(self.log@.push(("recv"@, index as int, Seq::<char>::empty(), gv)));
        r
    }
}

} // verus!
