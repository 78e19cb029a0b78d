use vstd::prelude::*;
use crate::json::{field, get_field, get_str, json_parse_spec, parse_json, str_field, JsonValue};
use crate::plugins::guest::read_event;
use crate::text::{concat, decimal, decimal_string, str_eq, string_push, utf8_bytes, utf8_lossy, utf8_lossy_spec, chars_of};

verus! {

/// The dweetr channel both ends use.
pub const CHANNEL: &'static str = "void_messenger_test";

/// A byte URLs carry as it is: letters, digits and `-_.~`.
pub open spec fn unreserved(b: u8) -> bool {
    (65 <= b <= 90) || (97 <= b <= 122) || (48 <= b <= 57) || b == 45 || b == 95 || b == 46 || b == 126
}

/// The upper-case hexadecimal digit for `n < 16`.
pub open spec fn upper_hex(n: nat) -> char {
    if n < 10 {
        ((n + 48) as u8) as char
    } else {
        ((n + 55) as u8) as char
    }
}

/// Percent-encoding of bytes: unreserved bytes as they are, others `%XX`.
pub open spec fn url_encode_spec(b: Seq<u8>) -> Seq<char>
    decreases b.len(),
{
    if b.len() == 0 {
        seq![]
    } else {
        (if unreserved(b[0]) {
            seq![b[0] as char]
        } else {
            seq!['%', upper_hex(b[0] as nat / 16), upper_hex(b[0] as nat % 16)]
        }) + url_encode_spec(b.drop_first())
    }
}

fn upper_hex_char(n: u8) -> (c: char)
    requires
        n < 16,
    ensures
        c == upper_hex(n as nat),
{
    if n < 10 {
        (n + 48) as char
    } else {
        (n + 55) as char
    }
}

proof fn lemma_url_encode_push(b: Seq<u8>, x: u8)
    ensures
        url_encode_spec(b.push(x)) == url_encode_spec(b) + (if unreserved(x) {
            seq![x as char]
        } else {
            seq!['%', upper_hex(x as nat / 16), upper_hex(x as nat % 16)]
        }),
    decreases b.len(),
{
    if b.len() == 0 {
        assert(b.push(x).drop_first() =~= Seq::<u8>::empty());
        assert(url_encode_spec(Seq::<u8>::empty()) == Seq::<char>::empty());
    } else {
        assert(b.push(x).drop_first() =~= b.drop_first().push(x));
        lemma_url_encode_push(b.drop_first(), x);
        let h = if unreserved(b[0]) {
            seq![b[0] as char]
        } else {
            seq!['%', upper_hex(b[0] as nat / 16), upper_hex(b[0] as nat % 16)]
        };
        let e = if unreserved(x) {
            seq![x as char]
        } else {
            seq!['%', upper_hex(x as nat / 16), upper_hex(x as nat % 16)]
        };
        assert(h + (url_encode_spec(b.drop_first()) + e) =~= (h + url_encode_spec(b.drop_first())) + e);
    }
}

/// Percent-encodes the UTF-8 bytes of `input`.
pub fn url_encode(input: &str) -> (s: String)
    ensures
        s@ == url_encode_spec(vstd::utf8::encode_utf8(input@)),
{
    let bytes = utf8_bytes(input);
    let mut out = String::new();
    let mut i: usize = 0;
    assert(bytes@.take(0) =~= Seq::<u8>::empty());
    while i < bytes.len()
        invariant
            i <= bytes@.len(),
            out@ == url_encode_spec(bytes@.take(i as int)),
        decreases bytes@.len() - i,
    {
        let b = bytes[i];
        proof {
            assert(bytes@.take(i + 1) =~= bytes@.take(i as int).push(b));
            lemma_url_encode_push(bytes@.take(i as int), b);
        }
        if (65 <= b && b <= 90) || (97 <= b && b <= 122) || (48 <= b && b <= 57) || b == 45 || b == 95 || b == 46
            || b == 126 {
            string_push(&mut out, b as char);
        } else {
            string_push(&mut out, '%');
            string_push(&mut out, upper_hex_char(b / 16));
            string_push(&mut out, upper_hex_char(b % 16));
        }
        i = i + 1;
    }
    assert(bytes@.take(i as int) =~= bytes@);
    out
}

/// The URL that publishes `data` on the channel.
pub open spec fn send_url_spec(data: Seq<char>) -> Seq<char> {
    "https://dweetr.io/dweet/quietly/for/"@ + CHANNEL@ + "?message="@ + url_encode_spec(vstd::utf8::encode_utf8(data))
}

/// The URL that publishes `data` on the channel.
pub fn send_url(data: &str) -> (u: String)
    ensures
        u@ == send_url_spec(data@),
{
    let a = concat("https://dweetr.io/dweet/quietly/for/", CHANNEL);
    let b = concat(a.as_str(), "?message=");
    concat(b.as_str(), url_encode(data).as_str())
}

/// The URL that reads the channel.
pub fn poll_url() -> (u: String)
    ensures
        u@ == "https://dweetr.io/get/dweets/for/"@ + CHANNEL@,
{
    concat("https://dweetr.io/get/dweets/for/", CHANNEL)
}

/// The log line after a message was published.
pub fn sent_log(status: u16) -> (s: String)
    ensures
        s@ == "Отправлено в dweetr! Статус: "@ + decimal(status as nat),
{
    concat("Отправлено в dweetr! Статус: ", decimal_string(status as u64).as_str())
}

/// `a` sorts after `b`, character by character (`str`'s order).
pub open spec fn str_after(a: Seq<char>, b: Seq<char>) -> bool
    decreases a.len(),
{
    if a.len() == 0 {
        false
    } else if b.len() == 0 {
        true
    } else if a[0] != b[0] {
        (a[0] as u32) > (b[0] as u32)
    } else {
        str_after(a.drop_first(), b.drop_first())
    }
}

/// Whether `a` sorts after `b`.
pub fn is_after(a: &str, b: &str) -> (r: bool)
    ensures
        r == str_after(a@, b@),
{
    let x = chars_of(a);
    let y = chars_of(b);
    let mut i: usize = 0;
    assert(x@.subrange(0, x@.len() as int) =~= x@);
    assert(y@.subrange(0, y@.len() as int) =~= y@);
    while i < x.len() && i < y.len()
        invariant
            i <= x@.len(),
            i <= y@.len(),
            x@ == a@,
            y@ == b@,
            str_after(a@, b@) == str_after(x@.subrange(i as int, x@.len() as int), y@.subrange(i as int, y@.len() as int)),
        decreases x@.len() - i,
    {
        let ghost xs = x@.subrange(i as int, x@.len() as int);
        let ghost ys = y@.subrange(i as int, y@.len() as int);
        assert(xs[0] == x@[i as int] && ys[0] == y@[i as int]);
        if x[i] != y[i] {
            return (x[i] as u32) > (y[i] as u32);
        }
        assert(xs.drop_first() =~= x@.subrange(i + 1, x@.len() as int));
        assert(ys.drop_first() =~= y@.subrange(i + 1, y@.len() as int));
        i = i + 1;
    }
    i < x.len()
}

/// The message text of a dweet: `content.message`, when a string.
pub open spec fn dweet_message(d: JsonValue) -> Option<Seq<char>> {
    match field(d, "content"@) {
        Some(c) => str_field(c, "message"@),
        None => None,
    }
}

/// Reading the dweets newest-last from the end of `items` (the `n` last
/// ones, last first): the messages of those created after `last`, and the
/// creation time of the last such dweet.
pub open spec fn scan_spec(items: Seq<JsonValue>, last: Seq<char>, n: nat) -> (Seq<Seq<char>>, Option<Seq<char>>)
    decreases n,
{
    if n == 0 {
        (seq![], None)
    } else {
        let (ms, nl) = scan_spec(items, last, (n - 1) as nat);
        let d = items[items.len() - n];
        match str_field(d, "created"@) {
            Some(c) => if str_after(c, last) {
                (
                    match dweet_message(d) {
                        Some(m) => ms.push(m),
                        None => ms,
                    },
                    Some(c),
                )
            } else {
                (ms, nl)
            },
            None => (ms, nl),
        }
    }
}

/// The dweets of a channel read, given the answer's body: when it is JSON
/// with a `with` array, the messages created after `last` (oldest first)
/// and the new last creation time, if any came.
pub open spec fn new_dweets_spec(body: Seq<u8>, last: Seq<char>) -> (Seq<Seq<char>>, Option<Seq<char>>) {
    match json_parse_spec(utf8_lossy_spec(body)) {
        Some(v) => match field(v, "with"@) {
            Some(JsonValue::Array(items)) => scan_spec(items@, last, items@.len()),
            _ => (seq![], None),
        },
        None => (seq![], None),
    }
}

/// Reads a channel's answer.
pub fn new_dweets(body: &[u8], last: &str) -> (r: (Vec<String>, Option<String>))
    ensures
        r.0@.map_values(|s: String| s@) == new_dweets_spec(body@, last@).0,
        (match r.1 {
            Some(s) => Some(s@),
            None => None,
        }) == new_dweets_spec(body@, last@).1,
{
    let text = utf8_lossy(body);
    let mut msgs: Vec<String> = Vec::new();
    let mut new_last: Option<String> = None;
    let items = match parse_json(text.as_str()) {
        Some(v) => match crate::json::take_field(v, "with") {
            Some(JsonValue::Array(items)) => items,
            _ => {
                proof {
                    assert(msgs@.map_values(|s: String| s@) =~= Seq::<Seq<char>>::empty());
                }
                return (msgs, new_last);
            },
        },
        None => {
            proof {
                assert(msgs@.map_values(|s: String| s@) =~= Seq::<Seq<char>>::empty());
            }
            return (msgs, new_last);
        },
    };
    let mut n: usize = 0;
    proof {
        assert(msgs@.map_values(|s: String| s@) =~= Seq::<Seq<char>>::empty());
    }
    while n < items.len()
        invariant
            n <= items@.len(),
            msgs@.map_values(|s: String| s@) == scan_spec(items@, last@, n as nat).0,
            (match new_last {
                Some(s) => Some(s@),
                None => None,
            }) == scan_spec(items@, last@, n as nat).1,
        decreases items@.len() - n,
    {
        let d = &items[items.len() - 1 - n];
        match get_str(d, "created") {
            Some(c) => {
                if is_after(c.as_str(), last) {
                    let m = match get_field(d, "content") {
                        Some(content) => get_str(content, "message"),
                        None => None,
                    };
                    match m {
                        Some(text) => {
                            let ghost before = msgs@;
                            msgs.push(text);
                            proof {
                                assert(msgs@.map_values(|s: String| s@) =~= before.map_values(|s: String| s@).push(
                                    msgs@.last()@,
                                ));
                            }
                        },
                        None => {},
                    }
                    new_last = Some(c);
                }
            },
            None => {},
        }
        n = n + 1;
    }
    (msgs, new_last)
}

/// What the dweetr plugin does with an event.
pub enum DweetPlan {
    /// Publish the encrypted message at this URL.
    Send { url: String },
    /// Read the channel at this URL.
    Poll { url: String },
    /// Nothing.
    Idle,
}

/// The dweetr plugin's decision for its input: `CRYPTO_ENCRYPTED` publishes
/// the data, `SYS_TICK` reads the channel.
pub fn plan(input: &str) -> (r: Result<DweetPlan, String>)
    ensures
        match crate::plugins::guest::guest_event_spec(input@, false) {
            None => r is Err,
            Some((t, d, _)) => if t == "CRYPTO_ENCRYPTED"@ {
                r matches Ok(DweetPlan::Send { url }) && url@ == send_url_spec(d)
            } else if t == "SYS_TICK"@ {
                r matches Ok(DweetPlan::Poll { url }) && url@ == "https://dweetr.io/get/dweets/for/"@ + CHANNEL@
            } else {
                r matches Ok(DweetPlan::Idle)
            },
        },
{
    let event = match read_event(input, false) {
        Ok(e) => e,
        Err(m) => {
            return Err(m);
        },
    };
    if str_eq(event.topic.as_str(), "CRYPTO_ENCRYPTED") {
        Ok(DweetPlan::Send { url: send_url(event.data.as_str()) })
    } else if str_eq(event.topic.as_str(), "SYS_TICK") {
        Ok(DweetPlan::Poll { url: poll_url() })
    } else {
        Ok(DweetPlan::Idle)
    }
}

} // verus!
