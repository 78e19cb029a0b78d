use vstd::prelude::*;
pub use crate::plugins::host_link::{HostCallRecord, HostLink};
use crate::json::{get_record_str, json_parse_spec, parse_json, record_str};
use crate::text::{str_eq, utf8_decode};

verus! {

/// Where the raw ntfy plugin posts.
pub const NTFY_SEND_URL: &'static str = "https://ntfy.sh/wasm-messenger";

/// The stream the raw ntfy plugin listens to.
pub const NTFY_RECV_URL: &'static str = "https://ntfy.sh/wasm-messenger/sse";

/// The host functions a raw plugin imports.
pub trait GuestHost {
    /// Puts an event on the host's bus.
    fn emit_event(&mut self, topic: &str, payload: &[u8]);

    /// Posts `body` to `url`; the host's status code.
    fn http_post(&mut self, url: &str, body: &[u8]) -> i32;

    /// Starts listening to the event stream at `url`; the host's status code.
    fn sse_start(&mut self, url: &str) -> i32;
}

/// What the raw ntfy plugin does with an event.
#[derive(Clone, Copy, Debug, PartialEq, Eq, Structural)]
pub enum RawAction {
    /// The envelope does not read: fail with code 1.
    Invalid,
    /// `SYS_STARTUP`: start listening.
    StartListening,
    /// `CRYPTO_ENCRYPTED`: post the payload.
    Post,
    /// `NET_RECEIVED`: put the payload back on the bus as `NET_FORWARDED`.
    Forward,
    /// Anything else: succeed doing nothing.
    Ignore,
}

/// The topic of an envelope, read as the plugin's one-field envelope
/// `{topic}`: an object with a string `topic` (other members are not read),
/// or an array of that one string.
pub open spec fn meta_topic_spec(meta: Seq<u8>) -> Option<Seq<char>> {
    if !vstd::utf8::valid_utf8(meta) {
        None
    } else {
        match json_parse_spec(vstd::utf8::decode_utf8(meta)) {
            Some(v) => record_str(v, "topic"@, 0, 1),
            None => None,
        }
    }
}

/// The action for an envelope.
pub open spec fn action_spec(meta: Seq<u8>) -> RawAction {
    match meta_topic_spec(meta) {
        None => RawAction::Invalid,
        Some(t) => if t == "SYS_STARTUP"@ {
            RawAction::StartListening
        } else if t == "CRYPTO_ENCRYPTED"@ {
            RawAction::Post
        } else if t == "NET_RECEIVED"@ {
            RawAction::Forward
        } else {
            RawAction::Ignore
        },
    }
}

/// Decides what to do with an event from its envelope.
pub fn route_topic(meta: &[u8]) -> (a: RawAction)
    ensures
        a == action_spec(meta@),
{
    let text = match utf8_decode(meta) {
        Ok(t) => t,
        Err(_) => {
            return RawAction::Invalid;
        },
    };
    let topic = match parse_json(text.as_str()) {
        Some(v) => match get_record_str(&v, "topic", 0, 1) {
            Some(t) => t,
            None => {
                return RawAction::Invalid;
            },
        },
        None => {
            return RawAction::Invalid;
        },
    };
    if str_eq(topic.as_str(), "SYS_STARTUP") {
        RawAction::StartListening
    } else if str_eq(topic.as_str(), "CRYPTO_ENCRYPTED") {
        RawAction::Post
    } else if str_eq(topic.as_str(), "NET_RECEIVED") {
        RawAction::Forward
    } else {
        RawAction::Ignore
    }
}

/// Starts listening to the channel's stream; the host's status code.
pub fn start_sse_listener<H: GuestHost>(host: &mut HostLink<H>) -> (code: i32)
    ensures
        final(host).calls() == old(host).calls().push(("sse_start"@, NTFY_RECV_URL@, Seq::<u8>::empty(), code)),
{
    host.sse_start(NTFY_RECV_URL)
}

/// Posts the payload to the channel; the host's status code.
pub fn send_over_network<H: GuestHost>(host: &mut HostLink<H>, payload: &[u8]) -> (code: i32)
    ensures
        final(host).calls() == old(host).calls().push(("http_post"@, NTFY_SEND_URL@, payload@, code)),
{
    host.http_post(NTFY_SEND_URL, payload)
}

/// Puts a received payload back on the bus as `NET_FORWARDED`.
pub fn forward_to_bus<H: GuestHost>(host: &mut HostLink<H>, payload: &[u8]) -> (code: i32)
    ensures
        code == 0,
        final(host).calls() == old(host).calls().push(("emit_event"@, "NET_FORWARDED"@, payload@, 0i32)),
{
    host.emit_event("NET_FORWARDED", payload);
    0
}

/// The raw ntfy plugin's handler: acts on the envelope's topic; `1` when
/// the envelope does not read, `0` when there is nothing to do or the
/// payload was forwarded, else the host's status code.
pub fn handle_event<H: GuestHost>(host: &mut HostLink<H>, meta: &[u8], payload: &[u8]) -> (code: i32)
    ensures
        action_spec(meta@) == RawAction::Invalid ==> code == 1 && final(host).calls() == old(host).calls(),
        action_spec(meta@) == RawAction::Ignore ==> code == 0 && final(host).calls() == old(host).calls(),
        action_spec(meta@) == RawAction::StartListening ==> final(host).calls() == old(host).calls().push(
            ("sse_start"@, NTFY_RECV_URL@, Seq::<u8>::empty(), code),
        ),
        action_spec(meta@) == RawAction::Post ==> final(host).calls() == old(host).calls().push(
            ("http_post"@, NTFY_SEND_URL@, payload@, code),
        ),
        action_spec(meta@) == RawAction::Forward ==> code == 0 && final(host).calls() == old(host).calls().push(
            ("emit_event"@, "NET_FORWARDED"@, payload@, 0i32),
        ),
{
    match route_topic(meta) {
        RawAction::Invalid => 1,
        RawAction::StartListening => start_sse_listener(host),
        RawAction::Post => send_over_network(host, payload),
        RawAction::Forward => forward_to_bus(host, payload),
        RawAction::Ignore => 0,
    }
}

} // verus!
