use vstd::prelude::*;
use crate::json::{json_parse_spec, parse_json, str_field, get_str};
use crate::text::{chars_of, concat, lines_spec, split_lines, str_eq, string_of, utf8_lossy, utf8_lossy_spec};

verus! {

/// The ntfy topic the command-line client talks on.
pub const CHANNEL_URL: &'static str = "https://ntfy.sh/void_messenger_test_channel";

/// The position to read from when none was kept.
pub const DEFAULT_SINCE: &'static str = "all";

/// The URL that reads the messages after `since`.
pub fn poll_url(since: &str) -> (u: String)
    ensures
        u@ == CHANNEL_URL@ + "/json?poll=1&since="@ + since@,
{
    let a = concat(CHANNEL_URL, "/json?poll=1&since=");
    concat(a.as_str(), since)
}

/// What one line of ntfy's answer gives: the message of a `message`
/// event, and the event's id.
pub open spec fn line_effect(line: Seq<char>) -> (Option<Seq<char>>, Option<Seq<char>>) {
    match json_parse_spec(line) {
        Some(v) => (
            if str_field(v, "event"@) == Some("message"@) {
                str_field(v, "message"@)
            } else {
                None
            },
            str_field(v, "id"@),
        ),
        None => (None, None),
    }
}

/// The messages of the first `n` lines, in order, and the id of the last
/// of them that has one.
pub open spec fn scan_lines(lines: Seq<Seq<char>>, n: nat) -> (Seq<Seq<char>>, Option<Seq<char>>)
    decreases n,
{
    if n == 0 || n > lines.len() {
        (seq![], None)
    } else {
        let (ms, id) = scan_lines(lines, (n - 1) as nat);
        let (m, i) = line_effect(lines[n - 1]);
        (
            match m {
                Some(x) => ms.push(x),
                None => ms,
            },
            match i {
                Some(y) => Some(y),
                None => id,
            },
        )
    }
}

/// What an answer body gives: the messages of its lines, and the id to
/// read from next time, if any line had one.
pub open spec fn scan_body(body: Seq<u8>) -> (Seq<Seq<char>>, Option<Seq<char>>) {
    let ls = lines_spec(utf8_lossy_spec(body));
    scan_lines(ls, ls.len())
}

/// Reads ntfy's answer.
pub fn scan_ntfy_body(body: &[u8]) -> (r: (Vec<String>, Option<String>))
    ensures
        r.0@.map_values(|s: String| s@) == scan_body(body@).0,
        (match r.1 {
            Some(s) => Some(s@),
            None => None,
        }) == scan_body(body@).1,
{
    let text = utf8_lossy(body);
    let cs = chars_of(text.as_str());
    let lines = split_lines(&cs);
    let ghost ls = lines_spec(text@);
    let mut msgs: Vec<String> = Vec::new();
    let mut last: Option<String> = None;
    let mut i: usize = 0;
    assert(msgs@.map_values(|s: String| s@) =~= Seq::<Seq<char>>::empty());
    while i < lines.len()
        invariant
            i <= lines@.len(),
            lines@.len() == ls.len(),
            forall|k: int| 0 <= k < lines@.len() ==> #[trigger] lines@[k]@ == ls[k],
            msgs@.map_values(|s: String| s@) == scan_lines(ls, i as nat).0,
            (match last {
                Some(s) => Some(s@),
                None => None,
            }) == scan_lines(ls, i as nat).1,
        decreases lines@.len() - i,
    {
        let line = string_of(lines[i].as_slice());
        assert(line@ == ls[i as int]);
        match parse_json(line.as_str()) {
            Some(v) => {
                let is_msg = match get_str(&v, "event") {
                    Some(e) => str_eq(e.as_str(), "message"),
                    None => false,
                };
                if is_msg {
                    match get_str(&v, "message") {
                        Some(m) => {
                            let ghost before = msgs@;
                            msgs.push(m);
                            assert(msgs@.map_values(|s: String| s@) =~= before.map_values(|s: String| s@).push(
                                msgs@.last()@,
                            ));
                        },
                        None => {},
                    }
                }
                match get_str(&v, "id") {
                    Some(id) => {
                        last = Some(id);
                    },
                    None => {},
                }
            },
            None => {},
        }
        i = i + 1;
    }
    (msgs, last)
}

/// What the command-line ntfy plugin does with an event.
pub enum NtfyPlan {
    /// Post the data to the channel.
    Post { url: String, body: String },
    /// Read the channel after the kept position.
    Poll,
    /// Nothing.
    Idle,
}

/// The plugin's decision for an event.
pub fn plan(topic: &str, data: &str) -> (r: NtfyPlan)
    ensures
        topic@ == "CRYPTO_ENCRYPTED"@ ==> (r matches NtfyPlan::Post { url, body } && url@ == CHANNEL_URL@ && body@
            == data@),
        topic@ == "SYS_TICK"@ ==> r is Poll,
        topic@ != "CRYPTO_ENCRYPTED"@ && topic@ != "SYS_TICK"@ ==> r is Idle,
{
    proof {
        reveal_strlit("CRYPTO_ENCRYPTED");
        reveal_strlit("SYS_TICK");
        assert("CRYPTO_ENCRYPTED"@.len() != "SYS_TICK"@.len());
    }
    if str_eq(topic, "CRYPTO_ENCRYPTED") {
        NtfyPlan::Post { url: String::from_str(CHANNEL_URL), body: String::from_str(data) }
    } else if str_eq(topic, "SYS_TICK") {
        NtfyPlan::Poll
    } else {
        NtfyPlan::Idle
    }
}

} // verus!
