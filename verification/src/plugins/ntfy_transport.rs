use vstd::prelude::*;
use crate::json::{flat_object, reads_same, check_record, get_record_field, get_record_str, get_str, get_u64, is_record, json_parse_spec, json_text, parse_json, record_field, record_str, str_field, str_member, to_json_string, u64_field, u64_member, JsonValue};
use crate::text::{is_ws, trim_end_spec, trim_start_spec, chars_of, concat, decimal, decimal_string, lemma_first_newline_at, lines_spec, str_eq, string_of, strip_cr, trim_chars, trim_end_char, trim_end_char_spec, trim_spec, utf8_decode};

verus! {

/// Where the ntfy transport posts and polls.
pub struct NtfyConfig {
    pub base_url: String,
    /// Our own topic, i.e. our address; empty until `configure`.
    pub my_topic: String,
}

impl Default for NtfyConfig {
    fn default() -> (c: Self)
        ensures
            c.base_url@ == "https://ntfy.sh"@,
            c.my_topic@.len() == 0,
    {
        NtfyConfig { base_url: String::from_str("https://ntfy.sh"), my_topic: String::new() }
    }
}

/// `v` is the saved form of a configuration: `base_url` and `my_topic`.
pub open spec fn is_config_json(v: JsonValue, base_url: Seq<char>, my_topic: Seq<char>) -> bool {
    &&& v matches JsonValue::Object(fs)
    &&& fs@.len() == 2
    &&& fs@[0].0@ == "base_url"@ && (fs@[0].1 matches JsonValue::Str(s) && s@ == base_url)
    &&& fs@[1].0@ == "my_topic"@ && (fs@[1].1 matches JsonValue::Str(s) && s@ == my_topic)
}

/// The bytes a configuration is saved as: its UTF-8 JSON.
pub fn save_config(cfg: &NtfyConfig) -> (b: Vec<u8>)
    ensures
        exists|v: JsonValue| #[trigger] is_config_json(v, cfg.base_url@, cfg.my_topic@) && crate::json::flat_object(v)
            && b@ == vstd::utf8::encode_utf8(json_text(v)),
{
    let mut fs: Vec<(String, JsonValue)> = Vec::new();
    fs.push(str_member("base_url", cfg.base_url.as_str()));
    fs.push(str_member("my_topic", cfg.my_topic.as_str()));
    let v = JsonValue::Object(fs);
    proof {
        reveal_strlit("base_url");
        reveal_strlit("my_topic");
        let ms = v->Object_0@;
        assert(ms[0].0@[0] != ms[1].0@[0]);
        assert(crate::json::flat_object(v));
        assert(is_config_json(v, cfg.base_url@, cfg.my_topic@));
    }
    let s = to_json_string(&v);
    crate::text::utf8_bytes(s.as_str())
}

/// The configuration saved as `saved`: both strings when it is the JSON of
/// one, else the default.
pub open spec fn loaded_config(saved: Option<Seq<u8>>) -> Option<(Seq<char>, Seq<char>)> {
    match saved {
        Some(b) => if vstd::utf8::valid_utf8(b) {
            match json_parse_spec(vstd::utf8::decode_utf8(b)) {
                Some(v) => match (record_str(v, "base_url"@, 0, 2), record_str(v, "my_topic"@, 1, 2)) {
                    (Some(u), Some(t)) => Some((u, t)),
                    _ => None,
                },
                None => None,
            }
        } else {
            None
        },
        None => None,
    }
}

/// Reads the saved configuration, the default when there is none or it
/// does not read.  What `save_config` wrote reads back as the same
/// configuration.
pub fn load_config(saved: Option<&[u8]>) -> (c: NtfyConfig)
    ensures
        loaded_config(match saved {
            Some(b) => Some(b@),
            None => None,
        }) matches Some((u, t)) ==> c.base_url@ == u && c.my_topic@ == t,
        loaded_config(match saved {
            Some(b) => Some(b@),
            None => None,
        }) is None ==> c.base_url@ == "https://ntfy.sh"@ && c.my_topic@.len() == 0,
        saved matches Some(b) ==> forall|v: JsonValue, u: Seq<char>, t: Seq<char>| #[trigger] is_config_json(v, u, t)
            && crate::json::flat_object(v) && b@ == vstd::utf8::encode_utf8(json_text(v)) ==> c.base_url@ == u
            && c.my_topic@ == t,
{
    let bytes = match saved {
        Some(b) => b,
        None => {
            return NtfyConfig::default();
        },
    };
    proof {
        assert forall|v: JsonValue| #[trigger] crate::json::flat_object(v) && bytes@ == vstd::utf8::encode_utf8(json_text(v)) implies
            vstd::utf8::valid_utf8(bytes@) && vstd::utf8::decode_utf8(bytes@) == json_text(v) by {
            vstd::utf8::encode_utf8_valid_utf8(json_text(v));
            vstd::utf8::encode_utf8_decode_utf8(json_text(v));
        }
    }
    let text = match utf8_decode(bytes) {
        Ok(t) => t,
        Err(_) => {
            return NtfyConfig::default();
        },
    };
    let doc = match crate::json::parse_json_result(text.as_str()) {
        Ok(v) => v,
        Err(_) => {
            return NtfyConfig::default();
        },
    };
    proof {
        assert forall|v: JsonValue, u: Seq<char>, t: Seq<char>| #[trigger] is_config_json(v, u, t) && crate::json::flat_object(v)
            && bytes@ == vstd::utf8::encode_utf8(json_text(v)) implies record_str(doc, "base_url"@, 0, 2) == Some(u)
            && record_str(doc, "my_topic"@, 1, 2) == Some(t) by {
            assert(json_text(v) == text@);
            assert(crate::json::reads_same(doc, v));
            assert(str_field(doc, "base_url"@) == str_field(v, "base_url"@));
            assert(str_field(doc, "my_topic"@) == str_field(v, "my_topic"@));
            reveal_strlit("base_url");
            reveal_strlit("my_topic");
            let fs = v->Object_0@;
            assert(fs[1].0@ != "base_url"@) by {
                assert(fs[1].0@[0] != "base_url"@[0]);
            }
            assert(fs[0].0@ != "my_topic"@) by {
                assert(fs[0].0@[0] != "my_topic"@[0]);
            }
            assert(fs.drop_first()[0] == fs[1]);
            reveal_with_fuel(crate::json::member, 3);
            assert(crate::json::member(fs, "base_url"@) == Some(fs[0].1));
            assert(crate::json::member(fs, "my_topic"@) == Some(fs[1].1));
        }
    }
    match (get_record_str(&doc, "base_url", 0, 2), get_record_str(&doc, "my_topic", 1, 2)) {
        (Some(u), Some(t)) => NtfyConfig { base_url: u, my_topic: t },
        _ => NtfyConfig::default(),
    }
}

/// `v` is the reply `{"ok": ok}` or `{"ok": false, "error": err}`.
pub open spec fn is_status_reply(v: JsonValue, ok: bool, err: Option<Seq<char>>) -> bool {
    &&& v matches JsonValue::Object(fs)
    &&& fs@.len() >= 1
    &&& fs@[0].0@ == "ok"@ && fs@[0].1 == JsonValue::Bool(ok)
    &&& match err {
        None => fs@.len() == 1,
        Some(e) => fs@.len() == 2 && fs@[1].0@ == "error"@ && (fs@[1].1 matches JsonValue::Str(s)
            && s@ == e),
    }
}

/// The JSON text of a status reply.
pub fn status_reply(ok: bool, err: Option<&str>) -> (s: String)
    ensures
        exists|v: JsonValue|
            is_status_reply(v, ok, match err {
                Some(e) => Some(e@),
                None => None,
            }) && s@ == json_text(v),
{
    let mut fs: Vec<(String, JsonValue)> = Vec::new();
    fs.push((String::from_str("ok"), JsonValue::Bool(ok)));
    match err {
        Some(e) => fs.push(str_member("error", e)),
        None => {},
    }
    let v = JsonValue::Object(fs);
    to_json_string(&v)
}

/// The address of a `configure` request `{address}` (or `[address]`).
pub open spec fn configure_request(doc: Option<JsonValue>) -> Option<Seq<char>> {
    match doc {
        Some(v) => record_str(v, "address"@, 0, 1),
        None => None,
    }
}

/// `configure`: records the address as our topic.  An empty address is
/// refused with a failure reply and leaves the configuration as it was;
/// a request that is not `{address}` fails.
pub fn configure(cfg: &mut NtfyConfig, input: &str) -> (r: Result<String, String>)
    ensures
        r is Ok <==> configure_request(json_parse_spec(input@)) is Some,
        r is Ok ==> ({
            let addr = configure_request(json_parse_spec(input@))->0;
            if addr.len() == 0 {
                &&& final(cfg).my_topic@ == old(cfg).my_topic@
                &&& exists|v: JsonValue|
                    is_status_reply(v, false, Some("address cannot be empty"@))
                        && r->Ok_0@ == json_text(v)
            } else {
                &&& final(cfg).my_topic@ == addr
                &&& exists|v: JsonValue| is_status_reply(v, true, None) && r->Ok_0@ == json_text(v)
            }
        }),
        final(cfg).base_url == old(cfg).base_url,
        r is Err ==> final(cfg).my_topic == old(cfg).my_topic,
{
    let addr = match parse_json(input) {
        Some(v) => get_record_str(&v, "address", 0, 1),
        None => None,
    };
    match addr {
        Some(a) => {
            if a.as_str().is_empty() {
                Ok(status_reply(false, Some("address cannot be empty")))
            } else {
                cfg.my_topic = a;
                Ok(status_reply(true, None))
            }
        },
        None => Err(String::from_str("invalid configure request")),
    }
}

/// The fields of a `send` request `{to_topic, payload_b64}` (or the two
/// in that order as an array).
pub open spec fn send_request(doc: Option<JsonValue>) -> Option<(Seq<char>, Seq<char>)> {
    match doc {
        Some(v) => match (record_str(v, "to_topic"@, 0, 2), record_str(v, "payload_b64"@, 1, 2)) {
            (Some(t), Some(p)) => Some((t, p)),
            _ => None,
        },
        None => None,
    }
}

/// HTTP headers, as name and value, in order.
pub open spec fn headers_view(hs: Seq<(String, String)>) -> Seq<(Seq<char>, Seq<char>)> {
    hs.map_values(|h: (String, String)| (h.0@, h.1@))
}

/// The headers of the post that `send` makes.
pub open spec fn send_headers() -> Seq<(Seq<char>, Seq<char>)> {
    seq![("Content-Type"@, "application/json"@), ("X-Title"@, "msg"@)]
}

/// The headers of the poll that `get_pending` makes.
pub open spec fn poll_headers() -> Seq<(Seq<char>, Seq<char>)> {
    seq![("Accept"@, "application/x-ndjson"@)]
}

fn header(name: &str, value: &str) -> (h: (String, String))
    ensures
        h.0@ == name@,
        h.1@ == value@,
{
    (String::from_str(name), String::from_str(value))
}

/// What `send` does once the request is read.
pub enum SendPlan {
    /// Answer at once with this reply.
    Reply(String),
    /// POST `body` to `url` with `headers`, then answer with
    /// `send_result_reply`.
    Post { url: String, headers: Vec<(String, String)>, body: String },
}

/// `v` is the wire message `{from_topic, payload_b64}`.
pub open spec fn is_wire_message(v: JsonValue, from: Seq<char>, payload: Seq<char>) -> bool {
    &&& v matches JsonValue::Object(fs)
    &&& fs@.len() == 2
    &&& fs@[0].0@ == "from_topic"@ && (fs@[0].1 matches JsonValue::Str(s) && s@ == from)
    &&& fs@[1].0@ == "payload_b64"@ && (fs@[1].1 matches JsonValue::Str(s) && s@ == payload)
}

/// The URL of a topic: the base without trailing slashes, `/`, the topic.
pub open spec fn topic_url(base: Seq<char>, topic: Seq<char>) -> Seq<char> {
    trim_end_char_spec(base, '/') + "/"@ + topic
}

/// `send`, up to the HTTP request: refuses when we have no topic yet or the
/// recipient's topic is empty, else posts the wire message to the
/// recipient's topic.
pub fn plan_send(cfg: &NtfyConfig, input: &str) -> (r: Result<SendPlan, String>)
    ensures
        r is Ok <==> send_request(json_parse_spec(input@)) is Some,
        r matches Ok(plan) ==> ({
            let (to, payload) = send_request(json_parse_spec(input@))->0;
            if cfg.my_topic@.len() == 0 {
                plan matches SendPlan::Reply(s) && exists|v: JsonValue|
                    is_status_reply(v, false, Some("transport not configured: call configure first"@))
                        && s@ == json_text(v)
            } else if to.len() == 0 {
                plan matches SendPlan::Reply(s) && exists|v: JsonValue|
                    is_status_reply(v, false, Some("to_topic cannot be empty"@)) && s@
                        == json_text(v)
            } else {
                plan matches SendPlan::Post { url, headers, body } && url@ == topic_url(cfg.base_url@, to)
                    && headers_view(headers@) == send_headers()
                    && exists|v: JsonValue| is_wire_message(v, cfg.my_topic@, payload) && body@
                        == json_text(v)
            }
        }),
{
    let req = match parse_json(input) {
        Some(v) => match (get_record_str(&v, "to_topic", 0, 2), get_record_str(&v, "payload_b64", 1, 2)) {
            (Some(t), Some(p)) => Some((t, p)),
            _ => None,
        },
        None => None,
    };
    match req {
        Some((to, payload)) => {
            if cfg.my_topic.as_str().is_empty() {
                Ok(SendPlan::Reply(status_reply(false, Some("transport not configured: call configure first"))))
            } else if to.as_str().is_empty() {
                Ok(SendPlan::Reply(status_reply(false, Some("to_topic cannot be empty"))))
            } else {
                let mut fs: Vec<(String, JsonValue)> = Vec::new();
                fs.push(str_member("from_topic", cfg.my_topic.as_str()));
                fs.push(str_member("payload_b64", payload.as_str()));
                let wire = JsonValue::Object(fs);
                let body = to_json_string(&wire);
                let base = trim_end_char(cfg.base_url.as_str(), '/');
                let url = concat(concat(base.as_str(), "/").as_str(), to.as_str());
                let mut headers: Vec<(String, String)> = Vec::new();
                headers.push(header("Content-Type", "application/json"));
                headers.push(header("X-Title", "msg"));
                assert(headers_view(headers@) =~= send_headers());
                Ok(SendPlan::Post { url, headers, body })
            }
        },
        None => Err(String::from_str("invalid send request")),
    }
}

/// The statuses that mean ntfy took the message.
pub open spec fn accepted_status(status: u16) -> bool {
    status == 200 || status == 201 || status == 202
}

/// `send`'s reply to the HTTP outcome: success for 200, 201 and 202, else
/// the status or the transport error.
pub fn send_result_reply(outcome: Result<u16, String>) -> (s: String)
    ensures
        match outcome {
            Ok(st) => if accepted_status(st) {
                exists|v: JsonValue| is_status_reply(v, true, None) && s@ == json_text(v)
            } else {
                exists|v: JsonValue|
                    is_status_reply(v, false, Some("ntfy returned status "@ + decimal(st as nat)))
                        && s@ == json_text(v)
            },
            Err(e) => exists|v: JsonValue| is_status_reply(v, false, Some(e@)) && s@ == json_text(v),
        },
{
    match outcome {
        Ok(st) => {
            if st == 200 || st == 201 || st == 202 {
                status_reply(true, None)
            } else {
                let msg = concat("ntfy returned status ", decimal_string(st as u64).as_str());
                status_reply(false, Some(msg.as_str()))
            }
        },
        Err(e) => status_reply(false, Some(e.as_str())),
    }
}

} // verus!

verus! {

/// Optional number field `idx`, named `key`, of a struct of two fields:
/// `Some(None)` when missing or null, `Some(Some(n))` for a `u64`, `None`
/// for anything else.
pub open spec fn opt_u64_field(v: JsonValue, key: Seq<char>, idx: int) -> Option<Option<u64>> {
    match record_field(v, key, idx, 2) {
        None => Some(None),
        Some(JsonValue::Null) => Some(None),
        Some(JsonValue::UInt(n)) => Some(Some(n)),
        _ => None,
    }
}

/// The `since` and `limit` of a `get_pending` request; a request that does
/// not read as `{since?, limit?}` (or `[since, limit]`) counts as one with
/// neither.
pub open spec fn pending_request(doc: Option<JsonValue>) -> (Option<u64>, Option<u32>) {
    match doc {
        Some(v) => if is_record(v, 2) {
            match (opt_u64_field(v, "since"@, 0), opt_u64_field(v, "limit"@, 1)) {
                (Some(s), Some(None)) => (s, None),
                (Some(s), Some(Some(l))) => if l <= u32::MAX {
                    (s, Some(l as u32))
                } else {
                    (None, None)
                },
                _ => (None, None),
            }
        } else {
            (None, None)
        },
        None => (None, None),
    }
}

fn opt_u64(v: &JsonValue, key: &str, idx: usize) -> (r: Option<Option<u64>>)
    requires
        idx < 2,
    ensures
        r == opt_u64_field(*v, key@, idx as int),
{
    match get_record_field(v, key, idx, 2) {
        None => Some(None),
        Some(JsonValue::Null) => Some(None),
        Some(JsonValue::UInt(n)) => Some(Some(*n)),
        _ => None,
    }
}

/// Reads a `get_pending` request.
pub fn parse_pending_input(input: &str) -> (r: (Option<u64>, Option<u32>))
    ensures
        r == pending_request(json_parse_spec(input@)),
{
    match parse_json(input) {
        Some(v) => {
            if !check_record(&v, 2) {
                return (None, None);
            }
            match (opt_u64(&v, "since", 0), opt_u64(&v, "limit", 1)) {
                (Some(s), Some(None)) => (s, None),
                (Some(s), Some(Some(l))) => if l <= 0xffff_ffffu64 {
                    (s, Some(l as u32))
                } else {
                    (None, None)
                },
                _ => (None, None),
            }
        },
        None => (None, None),
    }
}

/// The poll URL: `<base>/<topic>/json?poll=1&since=<since>&limit=<limit>`,
/// with `since` the timestamp when one above zero is given, else `1h`, and
/// `limit` 50 unless given.
pub open spec fn poll_url(base: Seq<char>, topic: Seq<char>, since: Option<u64>, limit: Option<u32>) -> Seq<char> {
    let since_param = match since {
        Some(ts) => if ts > 0 { decimal(ts as nat) } else { "1h"@ },
        None => "1h"@,
    };
    let lim: nat = match limit {
        Some(l) => l as nat,
        None => 50,
    };
    topic_url(base, topic) + "/json?poll=1&since="@ + since_param + "&limit="@ + decimal(lim)
}

/// A message taken from our topic.
pub struct IncomingMessage {
    pub from_topic: String,
    pub payload_b64: String,
    pub timestamp: u64,
}

/// `v` is `{from_topic, payload_b64, timestamp}` for `m`.
pub open spec fn is_incoming_json(v: JsonValue, m: (Seq<char>, Seq<char>, u64)) -> bool {
    &&& v matches JsonValue::Object(fs)
    &&& fs@.len() == 3
    &&& fs@[0].0@ == "from_topic"@ && (fs@[0].1 matches JsonValue::Str(s) && s@ == m.0)
    &&& fs@[1].0@ == "payload_b64"@ && (fs@[1].1 matches JsonValue::Str(s) && s@ == m.1)
    &&& fs@[2].0@ == "timestamp"@ && fs@[2].1 == JsonValue::UInt(m.2)
}

/// `v` is `{"messages": [...]}` for `ms`.
pub open spec fn is_pending_reply(v: JsonValue, ms: Seq<(Seq<char>, Seq<char>, u64)>) -> bool {
    &&& v matches JsonValue::Object(fs)
    &&& fs@.len() == 1
    &&& fs@[0].0@ == "messages"@
    &&& fs@[0].1 matches JsonValue::Array(items)
    &&& items@.len() == ms.len()
    &&& forall|i: int| 0 <= i < ms.len() ==> is_incoming_json(#[trigger] items@[i], ms[i])
}

pub open spec fn incoming_view(m: IncomingMessage) -> (Seq<char>, Seq<char>, u64) {
    (m.from_topic@, m.payload_b64@, m.timestamp)
}

/// The JSON text of the `get_pending` reply.
pub fn pending_reply(ms: &Vec<IncomingMessage>) -> (s: String)
    ensures
        exists|v: JsonValue| is_pending_reply(v, ms@.map_values(|m: IncomingMessage| incoming_view(m)))
            && s@ == json_text(v),
{
    let mut items: Vec<JsonValue> = Vec::new();
    let mut i: usize = 0;
    let ghost mv = ms@.map_values(|m: IncomingMessage| incoming_view(m));
    while i < ms.len()
        invariant
            i <= ms@.len(),
            mv == ms@.map_values(|m: IncomingMessage| incoming_view(m)),
            items@.len() == i,
            forall|j: int| 0 <= j < i ==> is_incoming_json(#[trigger] items@[j], mv[j]),
        decreases ms@.len() - i,
    {
        let mut fs: Vec<(String, JsonValue)> = Vec::new();
        fs.push(str_member("from_topic", ms[i].from_topic.as_str()));
        fs.push(str_member("payload_b64", ms[i].payload_b64.as_str()));
        fs.push(u64_member("timestamp", ms[i].timestamp));
        items.push(JsonValue::Object(fs));
        i = i + 1;
    }
    let mut top: Vec<(String, JsonValue)> = Vec::new();
    top.push((String::from_str("messages"), JsonValue::Array(items)));
    let v = JsonValue::Object(top);
    to_json_string(&v)
}

/// What `get_pending` does once the request is read.
pub enum PendingPlan {
    /// Answer at once with this reply.
    Reply(String),
    /// GET `url` with `headers`, then read the body with
    /// `pending_from_response`.
    Get { url: String, headers: Vec<(String, String)> },
}

/// `get_pending`, up to the HTTP request: nothing to poll before
/// `configure`, else the poll URL of our topic.
pub fn plan_pending(cfg: &NtfyConfig, input: &str) -> (r: PendingPlan)
    ensures
        cfg.my_topic@.len() == 0 ==> (r matches PendingPlan::Reply(s) && exists|v: JsonValue|
            is_pending_reply(v, Seq::empty()) && s@ == json_text(v)),
        cfg.my_topic@.len() > 0 ==> ({
            let (since, limit) = pending_request(json_parse_spec(input@));
            r matches PendingPlan::Get { url, headers } && url@ == poll_url(cfg.base_url@, cfg.my_topic@, since, limit)
                && headers_view(headers@) == poll_headers()
        }),
{
    let (since, limit) = parse_pending_input(input);
    if cfg.my_topic.as_str().is_empty() {
        let none: Vec<IncomingMessage> = Vec::new();
        proof {
            assert(none@.map_values(|m: IncomingMessage| incoming_view(m)) =~= Seq::empty());
        }
        return PendingPlan::Reply(pending_reply(&none));
    }
    let lim: u64 = match limit {
        Some(l) => l as u64,
        None => 50,
    };
    let since_param = match since {
        Some(ts) => if ts > 0 { decimal_string(ts) } else { String::from_str("1h") },
        None => String::from_str("1h"),
    };
    let base = trim_end_char(cfg.base_url.as_str(), '/');
    let mut url = concat(base.as_str(), "/");
    url = concat(url.as_str(), cfg.my_topic.as_str());
    url = concat(url.as_str(), "/json?poll=1&since=");
    url = concat(url.as_str(), since_param.as_str());
    url = concat(url.as_str(), "&limit=");
    url = concat(url.as_str(), decimal_string(lim).as_str());
    proof {
        let ghost t = topic_url(cfg.base_url@, cfg.my_topic@);
        assert(url@ =~= poll_url(cfg.base_url@, cfg.my_topic@, since, limit));
    }
    let mut headers: Vec<(String, String)> = Vec::new();
    headers.push(header("Accept", "application/x-ndjson"));
    assert(headers_view(headers@) =~= poll_headers());
    PendingPlan::Get { url, headers }
}

} // verus!

verus! {

/// The message one line of ntfy's NDJSON answer carries, if any: a
/// `"message"` event whose text is a wire message from another topic.
pub open spec fn line_message(line: Seq<char>, my_topic: Seq<char>) -> Option<(Seq<char>, Seq<char>, u64)> {
    let t = trim_spec(line);
    if t.len() == 0 {
        None
    } else {
        match json_parse_spec(t) {
            None => None,
            Some(ev) => if str_field(ev, "event"@) != Some("message"@) {
                None
            } else {
                match str_field(ev, "message"@) {
                    None => None,
                    Some(msg) => match json_parse_spec(msg) {
                        None => None,
                        Some(w) => match (record_str(w, "from_topic"@, 0, 2), record_str(w, "payload_b64"@, 1, 2)) {
                            (Some(f), Some(p)) => if f == my_topic {
                                None
                            } else {
                                Some(
                                    (
                                        f,
                                        p,
                                        match u64_field(ev, "time"@) {
                                            Some(tm) => tm,
                                            None => 0,
                                        },
                                    ),
                                )
                            },
                            _ => None,
                        },
                    },
                }
            },
        }
    }
}

/// The messages that `lines` carry, in order.
pub open spec fn messages_of_lines(lines: Seq<Seq<char>>, my_topic: Seq<char>) -> Seq<(Seq<char>, Seq<char>, u64)>
    decreases lines.len(),
{
    if lines.len() == 0 {
        seq![]
    } else {
        let rest = messages_of_lines(lines.drop_first(), my_topic);
        match line_message(lines[0], my_topic) {
            Some(m) => seq![m] + rest,
            None => rest,
        }
    }
}

/// The messages of an HTTP answer: none unless the status is 200 and the
/// body is UTF-8, else those of its lines.
pub open spec fn pending_messages(status: u16, body: Seq<u8>, my_topic: Seq<char>) -> Seq<(Seq<char>, Seq<char>, u64)> {
    if status != 200 || !vstd::utf8::valid_utf8(body) {
        seq![]
    } else {
        messages_of_lines(lines_spec(vstd::utf8::decode_utf8(body)), my_topic)
    }
}

proof fn lemma_messages_cons(l: Seq<char>, ls: Seq<Seq<char>>, my: Seq<char>)
    ensures
        messages_of_lines(seq![l] + ls, my) == (match line_message(l, my) {
            Some(m) => seq![m],
            None => seq![],
        }) + messages_of_lines(ls, my),
{
    assert((seq![l] + ls).drop_first() =~= ls);
    assert((seq![l] + ls)[0] == l);
    if line_message(l, my) is None {
        assert(seq![] + messages_of_lines(ls, my) =~= messages_of_lines(ls, my));
    }
}

/// `line` is the text of a line `v` of ntfy's poll answer that carries the
/// wire message `w` from `from` with `payload`: a flat object whose `event`
/// is `message` and whose `message` is the JSON text of `w`.
pub open spec fn wire_line(line: Seq<char>, v: JsonValue, w: JsonValue, from: Seq<char>, payload: Seq<char>) -> bool {
    &&& line == json_text(v)
    &&& flat_object(v)
    &&& str_field(v, "event"@) == Some("message"@)
    &&& str_field(v, "message"@) == Some(json_text(w))
    &&& is_wire_message(w, from, payload)
}

/// The time a poll line gives, 0 when it has none.
pub open spec fn line_time(v: JsonValue) -> u64 {
    match u64_field(v, "time"@) {
        Some(t) => t,
        None => 0,
    }
}

/// What a line carrying the wire message from `from` with `payload` gives a
/// reader whose own topic is `my_topic`: the message with the line's time,
/// nothing for a message from its own topic.
pub open spec fn carried_message(v: JsonValue, from: Seq<char>, payload: Seq<char>, my_topic: Seq<char>) -> Option<
    (Seq<char>, Seq<char>, u64),
> {
    if from == my_topic {
        None
    } else {
        Some((from, payload, line_time(v)))
    }
}

/// The poll line `l`, if it carries a wire message, reads as that message.
pub open spec fn reads_as_carried(l: Seq<char>, my_topic: Seq<char>) -> bool {
    forall|v: JsonValue, w: JsonValue, from: Seq<char>, payload: Seq<char>|
        #[trigger] wire_line(l, v, w, from, payload) ==> line_message(l, my_topic) == carried_message(
            v,
            from,
            payload,
            my_topic,
        )
}

proof fn lemma_line_in_messages(lines: Seq<Seq<char>>, i: int, my: Seq<char>)
    requires
        0 <= i < lines.len(),
        line_message(lines[i], my) is Some,
    ensures
        messages_of_lines(lines, my).contains(line_message(lines[i], my)->0),
    decreases lines.len(),
{
    let m = line_message(lines[i], my)->0;
    let rest = messages_of_lines(lines.drop_first(), my);
    if i == 0 {
        assert(messages_of_lines(lines, my)[0] == m);
    } else {
        lemma_line_in_messages(lines.drop_first(), i - 1, my);
        assert(lines.drop_first()[i - 1] == lines[i]);
        let k = choose|k: int| 0 <= k < rest.len() && rest[k] == m;
        match line_message(lines[0], my) {
            Some(m0) => {
                assert((seq![m0] + rest)[k + 1] == rest[k]);
            },
            None => {},
        }
    }
}

/// What `send` posts comes back from a later poll: when a line of the poll
/// answer carries the wire message that `send` posted (its `message` is the
/// posted body), the messages read from the answer include the sender's
/// topic and the payload, unchanged, with the line's time; unless the
/// reader is the sender.
pub proof fn lemma_sent_body_polled(
    lines: Seq<Seq<char>>,
    i: int,
    v: JsonValue,
    w: JsonValue,
    sender: Seq<char>,
    payload: Seq<char>,
    reader: Seq<char>,
)
    requires
        0 <= i < lines.len(),
        forall|k: int| 0 <= k < lines.len() ==> reads_as_carried(#[trigger] lines[k], reader),
        wire_line(lines[i], v, w, sender, payload),
        sender != reader,
    ensures
        messages_of_lines(lines, reader).contains((sender, payload, line_time(v))),
{
    assert(reads_as_carried(lines[i], reader));
    assert(line_message(lines[i], reader) == Some((sender, payload, line_time(v))));
    lemma_line_in_messages(lines, i, reader);
}

proof fn lemma_object_text_trimmed(v: JsonValue)
    requires
        v is Object,
    ensures
        trim_spec(json_text(v)) == json_text(v),
        json_text(v).len() > 0,
{
    let s = json_text(v);
    assert(s[0] == '{');
    assert(s.last() == '}');
    assert(!is_ws('{'));
    assert(!is_ws('}'));
    assert(trim_start_spec(s) == s);
    assert(trim_end_spec(s) == s);
}

proof fn lemma_wire_flat(w: JsonValue, from: Seq<char>, payload: Seq<char>)
    requires
        is_wire_message(w, from, payload),
    ensures
        flat_object(w),
        str_field(w, "from_topic"@) == Some(from),
        str_field(w, "payload_b64"@) == Some(payload),
{
    let fs = w->Object_0@;
    reveal_strlit("from_topic");
    reveal_strlit("payload_b64");
    assert("from_topic"@.len() != "payload_b64"@.len());
    assert(fs.drop_first()[0] == fs[1]);
    assert(fs[0].0@ != "payload_b64"@);
    assert(crate::json::member(fs.drop_first(), "payload_b64"@) == Some(fs[1].1));
    assert(crate::json::member(fs, "payload_b64"@) == Some(fs[1].1));
}

/// The message of one line of ntfy's poll answer.  A line that is the text
/// of a flat object carrying the wire message that a `send` posted gives
/// that message back: its sender, its payload and the line's time, unless
/// it was sent from our own topic.
pub fn read_poll_line(line: &Vec<char>, my_topic: &str) -> (r: Option<IncomingMessage>)
    ensures
        r matches Some(m) ==> line_message(line@, my_topic@) == Some(incoming_view(m)),
        r is None ==> line_message(line@, my_topic@) is None,
        forall|v: JsonValue, w: JsonValue, from: Seq<char>, payload: Seq<char>|
            #[trigger] wire_line(line@, v, w, from, payload) ==> if from == my_topic@ {
                r is None
            } else {
                r matches Some(m) && incoming_view(m) == (from, payload, line_time(v))
            },
        reads_as_carried(line@, my_topic@),
{
    let t = trim_chars(line.as_slice());
    proof {
        assert forall|v: JsonValue, w: JsonValue, from: Seq<char>, payload: Seq<char>|
            #[trigger] wire_line(line@, v, w, from, payload) implies t@ == line@ && t@.len() > 0 by {
            lemma_object_text_trimmed(v);
        }
    }
    if t.len() == 0 {
        return None;
    }
    let text = string_of(t.as_slice());
    let ev = match parse_json(text.as_str()) {
        Some(v) => v,
        None => return None,
    };
    match get_str(&ev, "event") {
        Some(kind) => {
            if !str_eq(kind.as_str(), "message") {
                return None;
            }
        },
        None => return None,
    }
    let msg = match get_str(&ev, "message") {
        Some(m) => m,
        None => return None,
    };
    proof {
        assert forall|v: JsonValue, w: JsonValue, from: Seq<char>, payload: Seq<char>|
            #[trigger] wire_line(line@, v, w, from, payload) implies msg@ == json_text(w) && flat_object(w)
            && str_field(w, "from_topic"@) == Some(from) && str_field(w, "payload_b64"@) == Some(payload)
            && u64_field(ev, "time"@) == u64_field(v, "time"@) by {
            lemma_wire_flat(w, from, payload);
            assert(reads_same(ev, v));
            assert(str_field(ev, "message"@) == str_field(v, "message"@));
            assert(u64_field(ev, "time"@) == u64_field(v, "time"@));
        }
    }
    let w = match parse_json(msg.as_str()) {
        Some(w) => w,
        None => return None,
    };
    proof {
        assert forall|v: JsonValue, wm: JsonValue, from: Seq<char>, payload: Seq<char>|
            #[trigger] wire_line(line@, v, wm, from, payload) implies record_str(w, "from_topic"@, 0, 2) == Some(from)
            && record_str(w, "payload_b64"@, 1, 2) == Some(payload) by {
            assert(reads_same(w, wm));
            assert(str_field(w, "from_topic"@) == str_field(wm, "from_topic"@));
            assert(str_field(w, "payload_b64"@) == str_field(wm, "payload_b64"@));
        }
    }
    match (get_record_str(&w, "from_topic", 0, 2), get_record_str(&w, "payload_b64", 1, 2)) {
        (Some(f), Some(p)) => {
            if str_eq(f.as_str(), my_topic) {
                None
            } else {
                let ts = match get_u64(&ev, "time") {
                    Some(tm) => tm,
                    None => 0,
                };
                Some(IncomingMessage { from_topic: f, payload_b64: p, timestamp: ts })
            }
        },
        _ => None,
    }
}

/// `get_pending` after the HTTP request: the messages the answer carries.
pub fn pending_from_response(my_topic: &str, status: u16, body: &[u8]) -> (r: Vec<IncomingMessage>)
    ensures
        r@.map_values(|m: IncomingMessage| incoming_view(m)) == pending_messages(status, body@, my_topic@),
        status == 200 && vstd::utf8::valid_utf8(body@) ==> forall|i: int|
            0 <= i < lines_spec(vstd::utf8::decode_utf8(body@)).len() ==> reads_as_carried(
                #[trigger] lines_spec(vstd::utf8::decode_utf8(body@))[i],
                my_topic@,
            ),
        status == 200 && vstd::utf8::valid_utf8(body@) ==> forall|
            i: int,
            v: JsonValue,
            w: JsonValue,
            from: Seq<char>,
            payload: Seq<char>,
        |
            0 <= i < lines_spec(vstd::utf8::decode_utf8(body@)).len() && #[trigger] wire_line(
                lines_spec(vstd::utf8::decode_utf8(body@))[i],
                v,
                w,
                from,
                payload,
            ) && from != my_topic@ ==> r@.map_values(|m: IncomingMessage| incoming_view(m)).contains(
                (from, payload, line_time(v)),
            ),
{
    let mut out: Vec<IncomingMessage> = Vec::new();
    if status != 200 {
        proof {
            assert(out@.map_values(|m: IncomingMessage| incoming_view(m)) =~= Seq::empty());
        }
        return out;
    }
    let text = match utf8_decode(body) {
        Ok(t) => t,
        Err(_) => {
            proof {
                assert(out@.map_values(|m: IncomingMessage| incoming_view(m)) =~= Seq::empty());
            }
            return out;
        },
    };
    let cs = chars_of(text.as_str());
    let ghost whole = messages_of_lines(lines_spec(cs@), my_topic@);
    let mut start: usize = 0;
    let mut p: usize = 0;
    let ghost mut done: Seq<Seq<char>> = seq![];
    proof {
        assert(cs@.subrange(0, cs@.len() as int) =~= cs@);
        assert(done + lines_spec(cs@.subrange(0, cs@.len() as int)) =~= lines_spec(cs@));
        assert(out@.map_values(|m: IncomingMessage| incoming_view(m)) =~= Seq::empty());
    }
    while p < cs.len()
        invariant
            start <= p <= cs@.len(),
            forall|j: int| start <= j < p ==> cs@[j] != '\n',
            out@.map_values(|m: IncomingMessage| incoming_view(m)) + messages_of_lines(
                lines_spec(cs@.subrange(start as int, cs@.len() as int)),
                my_topic@,
            ) == whole,
            done + lines_spec(cs@.subrange(start as int, cs@.len() as int)) == lines_spec(cs@),
            forall|i: int| 0 <= i < done.len() ==> reads_as_carried(#[trigger] done[i], my_topic@),
        decreases cs@.len() - p,
    {
        if cs[p] == '\n' {
            let ghost rest = cs@.subrange(start as int, cs@.len() as int);
            proof {
                assert forall|j: int| 0 <= j < p - start implies rest[j] != '\n' by {
                    assert(rest[j] == cs@[start + j]);
                }
                lemma_first_newline_at(rest, p - start);
                assert(rest.subrange((p - start) + 1, rest.len() as int) =~= cs@.subrange(
                    p + 1,
                    cs@.len() as int,
                ));
                assert(rest.subrange(0, p - start) =~= cs@.subrange(start as int, p as int));
            }
            let mut line: Vec<char> = Vec::new();
            let mut q: usize = start;
            while q < p
                invariant
                    start <= q <= p < cs@.len(),
                    line@ == cs@.subrange(start as int, q as int),
                decreases p - q,
            {
                line.push(cs[q]);
                q = q + 1;
                assert(line@ =~= cs@.subrange(start as int, q as int));
            }
            if line.len() > 0 && line[line.len() - 1] == '\r' {
                line.pop();
            }
            let ghost before = out@.map_values(|m: IncomingMessage| incoming_view(m));
            let item = read_poll_line(&line, my_topic);
            proof {
                lemma_messages_cons(
                    strip_cr(cs@.subrange(start as int, p as int)),
                    lines_spec(cs@.subrange(p + 1, cs@.len() as int)),
                    my_topic@,
                );
                assert(lines_spec(rest) == seq![strip_cr(cs@.subrange(start as int, p as int))] + lines_spec(
                    cs@.subrange(p + 1, cs@.len() as int),
                ));
                assert(line@ == strip_cr(cs@.subrange(start as int, p as int)));
                let ghost d2 = done.push(line@);
                assert(d2 + lines_spec(cs@.subrange(p + 1, cs@.len() as int)) =~= done + lines_spec(rest));
                assert forall|i: int| 0 <= i < d2.len() implies reads_as_carried(#[trigger] d2[i], my_topic@) by {
                    if i < done.len() {
                        assert(d2[i] == done[i]);
                    }
                }
                done = d2;
            }
            match item {
                Some(m) => {
                    out.push(m);
                    proof {
                        assert(out@.map_values(|m: IncomingMessage| incoming_view(m)) =~= before.push(
                            incoming_view(m),
                        ));
                        assert(before.push(incoming_view(m)) + messages_of_lines(
                            lines_spec(cs@.subrange(p + 1, cs@.len() as int)),
                            my_topic@,
                        ) =~= before + (seq![incoming_view(m)] + messages_of_lines(
                            lines_spec(cs@.subrange(p + 1, cs@.len() as int)),
                            my_topic@,
                        )));
                    }
                },
                None => {
                    proof {
                        assert(seq![] + messages_of_lines(
                            lines_spec(cs@.subrange(p + 1, cs@.len() as int)),
                            my_topic@,
                        ) =~= messages_of_lines(
                            lines_spec(cs@.subrange(p + 1, cs@.len() as int)),
                            my_topic@,
                        ));
                    }
                },
            }
            start = p + 1;
        }
        p = p + 1;
    }
    if start < cs.len() {
        let ghost rest = cs@.subrange(start as int, cs@.len() as int);
        proof {
            assert forall|j: int| 0 <= j < rest.len() implies rest[j] != '\n' by {
                assert(rest[j] == cs@[start + j]);
            }
            lemma_first_newline_at(rest, rest.len() as int);
            assert(lines_spec(rest) == seq![rest]);
        }
        let mut line: Vec<char> = Vec::new();
        let mut q: usize = start;
        while q < cs.len()
            invariant
                start <= q <= cs@.len(),
                line@ == cs@.subrange(start as int, q as int),
            decreases cs@.len() - q,
        {
            line.push(cs[q]);
            q = q + 1;
            assert(line@ =~= cs@.subrange(start as int, q as int));
        }
        let ghost before = out@.map_values(|m: IncomingMessage| incoming_view(m));
        let item = read_poll_line(&line, my_topic);
        proof {
            lemma_messages_cons(rest, seq![], my_topic@);
            assert(seq![rest] + Seq::<Seq<char>>::empty() =~= seq![rest]);
            assert(line@ == rest);
            let ghost d2 = done.push(line@);
            assert(d2 =~= done + lines_spec(rest));
            assert forall|i: int| 0 <= i < d2.len() implies reads_as_carried(#[trigger] d2[i], my_topic@) by {
                if i < done.len() {
                    assert(d2[i] == done[i]);
                }
            }
            done = d2;
        }
        match item {
            Some(m) => {
                out.push(m);
                proof {
                    assert(out@.map_values(|m: IncomingMessage| incoming_view(m)) =~= before.push(
                        incoming_view(m),
                    ));
                }
            },
            None => {},
        }
        proof {
            assert(out@.map_values(|m: IncomingMessage| incoming_view(m)) =~= whole);
        }
    } else {
        proof {
            assert(cs@.subrange(start as int, cs@.len() as int).len() == 0);
            assert(out@.map_values(|m: IncomingMessage| incoming_view(m)) =~= whole);
            assert(done + lines_spec(cs@.subrange(start as int, cs@.len() as int)) =~= done);
        }
    }
    proof {
        assert(done =~= lines_spec(cs@));
        let lines = lines_spec(cs@);
        assert forall|i: int, v: JsonValue, w: JsonValue, from: Seq<char>, payload: Seq<char>|
            0 <= i < lines.len() && #[trigger] wire_line(lines[i], v, w, from, payload) && from != my_topic@ implies out@.map_values(
            |m: IncomingMessage| incoming_view(m),
        ).contains((from, payload, line_time(v))) by {
            lemma_sent_body_polled(lines, i, v, w, from, payload, my_topic@);
        }
    }
    out
}

} // verus!

verus! {

/// The messages `get_pending` answers with, given the outcome of its HTTP
/// request (a status and body, or a transport error): none before
/// `configure` or on an error, else those the answer carries.
pub open spec fn pending_outcome_messages(my_topic: Seq<char>, outcome: Result<(u16, Seq<u8>), Seq<char>>) -> Seq<
    (Seq<char>, Seq<char>, u64),
> {
    if my_topic.len() == 0 {
        seq![]
    } else {
        match outcome {
            Ok((status, body)) => pending_messages(status, body, my_topic),
            Err(_) => seq![],
        }
    }
}

/// An HTTP outcome by its views.
pub open spec fn http_view(outcome: Result<(u16, Vec<u8>), String>) -> Result<(u16, Seq<u8>), Seq<char>> {
    match outcome {
        Ok((status, body)) => Ok((status, body@)),
        Err(e) => Err(e@),
    }
}

/// `get_pending`'s reply once its HTTP request (made on the plan of
/// `plan_pending`) has an outcome: the JSON `{"messages": [...]}`.
pub fn get_pending(cfg: &NtfyConfig, outcome: Result<(u16, Vec<u8>), String>) -> (s: String)
    ensures
        exists|v: JsonValue| #[trigger] is_pending_reply(v, pending_outcome_messages(cfg.my_topic@, http_view(outcome)))
            && s@ == json_text(v),
{
    let none: Vec<IncomingMessage> = Vec::new();
    proof {
        assert(none@.map_values(|m: IncomingMessage| incoming_view(m)) =~= Seq::empty());
    }
    let ghost want = pending_outcome_messages(cfg.my_topic@, http_view(outcome));
    if cfg.my_topic.as_str().is_empty() {
        assert(want == none@.map_values(|m: IncomingMessage| incoming_view(m)));
        return pending_reply(&none);
    }
    match outcome {
        Ok((status, body)) => {
            let ms = pending_from_response(cfg.my_topic.as_str(), status, body.as_slice());
            assert(want == ms@.map_values(|m: IncomingMessage| incoming_view(m)));
            pending_reply(&ms)
        },
        Err(_) => {
            assert(want == none@.map_values(|m: IncomingMessage| incoming_view(m)));
            pending_reply(&none)
        },
    }
}

} // verus!
