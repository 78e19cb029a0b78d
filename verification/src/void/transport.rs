use vstd::prelude::*;
use std::collections::VecDeque;
use crate::framing::{frame_length, from_be32, PEER_FRAME_LIMIT};

verus! {

/// A way to reach peers.
pub trait Transport {
    /// Sends `data` to the peer at `addr`.
    fn send(&self, addr: &str, data: &[u8]) -> Result<(), String>;

    /// The oldest message received and not yet taken, if any.
    fn recv(&mut self) -> Option<Vec<u8>>;
}

/// The messages that came over TCP, oldest first.
pub struct TcpTransport {
    inbox: VecDeque<Vec<u8>>,
}

impl View for TcpTransport {
    type V = Seq<Vec<u8>>;

    closed spec fn view(&self) -> Seq<Vec<u8>> {
        self.inbox@
    }
}

impl TcpTransport {
    /// An empty inbox.
    pub fn new() -> (t: Self)
        ensures
            t@ == Seq::<Vec<u8>>::empty(),
    {
        TcpTransport { inbox: VecDeque::new() }
    }

    /// The length a frame's big-endian header announces, `None` above ten
    /// million bytes (the frame is then dropped).
    pub fn read_frame(header: [u8; 4]) -> (r: Option<usize>)
        ensures
            r is Some <==> from_be32(header@) <= PEER_FRAME_LIMIT,
            r matches Some(n) ==> n == from_be32(header@),
    {
        frame_length(header, PEER_FRAME_LIMIT)
    }

    /// Keeps a received message.
    pub fn deliver(&mut self, data: Vec<u8>)
        ensures
            final(self)@ == old(self)@.push(data),
    {
        self.inbox.push_back(data);
    }

    /// Takes the oldest received message, if any.
    pub fn recv(&mut self) -> (r: Option<Vec<u8>>)
        ensures
            old(self)@.len() == 0 ==> r is None && final(self)@ == old(self)@,
            old(self)@.len() > 0 ==> r == Some(old(self)@[0]) && final(self)@ == old(self)@.drop_first(),
    {
        let r = self.inbox.pop_front();
        proof {
            if old(self)@.len() > 0 {
                assert(self.inbox@ =~= old(self)@.drop_first());
            }
        }
        r
    }
}

} // verus!
