use vstd::prelude::*;
use crate::text::{concat, decimal, decimal_string};

verus! {

/// The messenger's own endpoint.
pub struct CoreState {
    pub listen_port: u16,
    pub my_addr: String,
}

/// The port the messenger listens on until told otherwise.
pub const DEFAULT_PORT: u16 = 7777;

/// The address the messenger gives for a listening port:
/// `127.0.0.1:<port>`.
pub open spec fn addr_for(port: u16) -> Seq<char> {
    "127.0.0.1:"@ + decimal(port as nat)
}

/// The state before `init`: port 7777 at `127.0.0.1:7777`.
pub fn state() -> (s: CoreState)
    ensures
        s.listen_port == DEFAULT_PORT,
        s.my_addr@ == addr_for(DEFAULT_PORT),
{
    CoreState {
        listen_port: DEFAULT_PORT,
        my_addr: concat("127.0.0.1:", decimal_string(DEFAULT_PORT as u64).as_str()),
    }
}

/// Sets the listening port, and the address with it.
pub fn init(s: &mut CoreState, port: u16)
    ensures
        final(s).listen_port == port,
        final(s).my_addr@ == addr_for(port),
{
    s.listen_port = port;
    s.my_addr = concat("127.0.0.1:", decimal_string(port as u64).as_str());
}

/// The messenger's address.
pub fn get_my_addr(s: &CoreState) -> (a: String)
    ensures
        a@ == s.my_addr@,
{
    s.my_addr.clone()
}

/// After `init` with a port, the address is that port's.
pub proof fn lemma_init_then_addr(s: CoreState, port: u16, after: CoreState)
    requires
        after.listen_port == port,
        after.my_addr@ == addr_for(port),
    ensures
        after.my_addr@ == addr_for(after.listen_port),
{
}

} // verus!
