use vstd::prelude::*;
use crate::clock::unix_now_secs;
use crate::codec::{base64_decode, base64_decode_spec, base64_encode, base64_encode_spec};
use crate::json::{doc_str, field, lemma_members_push, members_text, get_str, get_u64, is_true, json_parse_spec, num_pair, parse_json, parse_json_result, serde_parse, str_field, str_member, str_pair, take_field, to_json_string, true_field, u64_field, u64_member, JsonValue};
use crate::host::call_log::PluginCallLog;
use crate::host::plugin_manager::PluginCall;
use crate::messenger::manifest::{declares_hook, PluginManifest};
use crate::str_map::StrMap;
use crate::text::{concat, str_eq, utf8_bytes, utf8_decode};

verus! {

/// What the engine tells its user about a loaded plugin.
#[derive(Debug)]
pub struct PluginInfo {
    pub id: String,
    pub name: String,
    pub version: String,
    pub category: String,
    pub description: String,
    pub active: bool,
    pub network: bool,
    pub filesystem: bool,
}

impl PluginInfo {
    /// An equal copy.
    pub fn duplicate(&self) -> (p: PluginInfo)
        ensures
            p == *self,
    {
        PluginInfo {
            id: self.id.clone(),
            name: self.name.clone(),
            version: self.version.clone(),
            category: self.category.clone(),
            description: self.description.clone(),
            active: self.active,
            network: self.network,
            filesystem: self.filesystem,
        }
    }
}

/// A stored message.
#[derive(Debug)]
pub struct Message {
    pub from: String,
    pub to: String,
    pub text: String,
    pub timestamp: u64,
}

/// Something that happened, for the user interface to show.
#[derive(Debug)]
pub struct Event {
    pub kind: String,
    pub from: String,
    pub text: String,
    pub timestamp: u64,
}

/// The description of the plugin a manifest declares: its identity and
/// its network and file-system permissions, marked active.
pub open spec fn engine_info_of(m: PluginManifest, p: PluginInfo) -> bool {
    &&& p.id@ == m.plugin.id@
    &&& p.name@ == m.plugin.name@
    &&& p.version@ == m.plugin.version@
    &&& p.category@ == m.plugin.category@
    &&& p.description@ == m.plugin.description@
    &&& p.active
    &&& p.network == m.permissions.network
    &&& p.filesystem == m.permissions.filesystem
}

/// The description of the plugin `m` declares.
pub fn info_from_manifest(m: &PluginManifest) -> (p: PluginInfo)
    ensures
        engine_info_of(*m, p),
{
    PluginInfo {
        id: m.plugin.id.clone(),
        name: m.plugin.name.clone(),
        version: m.plugin.version.clone(),
        category: m.plugin.category.clone(),
        description: m.plugin.description.clone(),
        active: true,
        network: m.permissions.network,
        filesystem: m.permissions.filesystem,
    }
}

/// `"plugin '<id>' already loaded"`.
pub open spec fn already_loaded_text(id: Seq<char>) -> Seq<char> {
    "plugin '"@ + id + "' already loaded"@
}

/// `"wasm init failed: <reason>"`.
pub open spec fn init_failed_text(reason: Seq<char>) -> Seq<char> {
    "wasm init failed: "@ + reason
}

/// `"plugin '<id>' not found"`.
pub open spec fn not_found_text(id: Seq<char>) -> Seq<char> {
    "plugin '"@ + id + "' not found"@
}

/// `"<func> failed: <reason>"`.
pub open spec fn call_failed_text(func: Seq<char>, reason: Seq<char>) -> Seq<char> {
    func + " failed: "@ + reason
}

/// What a call of `func` gives back, given what the plugin answered: its
/// output, or its error prefixed by the function's name.
pub fn call_outcome(func: &str, answer: Result<String, String>) -> (r: Result<String, String>)
    ensures
        answer matches Ok(out) ==> (r matches Ok(o) && o@ == out@),
        answer matches Err(reason) ==> (r matches Err(e) && e@ == call_failed_text(func@, reason@)),
{
    match answer {
        Ok(out) => Ok(out),
        Err(reason) => {
            let a = concat(func, " failed: ");
            Err(concat(a.as_str(), reason.as_str()))
        },
    }
}

/// The current time in seconds since the Unix epoch (zero before it).
pub fn now_secs() -> u64 {
    unix_now_secs()
}

/// `{"address": address}`: the argument of a transport's `configure`.
pub fn configure_input(address: &str) -> (s: String)
    ensures
        s@ == seq!['{'] + str_pair("address"@, address@) + seq!['}'],
{
    let mut fs: Vec<(String, JsonValue)> = Vec::new();
    let m0 = str_member("address", address);
    proof {
        lemma_members_push(fs@, m0);
    }
    fs.push(m0);
    let ghost ms = fs@;
    let s = to_json_string(&JsonValue::Object(fs));
    assert(s@ =~= seq!['{'] + members_text(ms) + seq!['}']);
    s
}

/// The most messages a poll asks the transport for.
pub const PENDING_LIMIT: u64 = 50;

/// `{"limit": 50, "since": since}`: the argument of a transport's
/// `get_pending`.
pub fn pending_input(since: u64) -> (s: String)
    ensures
        s@ == seq!['{'] + num_pair("limit"@, PENDING_LIMIT) + seq![','] + num_pair("since"@, since) + seq!['}'],
{
    let mut fs: Vec<(String, JsonValue)> = Vec::new();
    let m0 = u64_member("limit", PENDING_LIMIT);
    proof {
        lemma_members_push(fs@, m0);
    }
    fs.push(m0);
    let m1 = u64_member("since", since);
    proof {
        lemma_members_push(fs@, m1);
    }
    fs.push(m1);
    let ghost ms = fs@;
    let s = to_json_string(&JsonValue::Object(fs));
    assert(s@ =~= seq!['{'] + members_text(ms) + seq!['}']);
    s
}

/// `{"payload_b64": payload, "to_topic": to}`: the argument of a
/// transport's `send`.
pub fn send_input(to: &str, payload: &str) -> (s: String)
    ensures
        s@ == seq!['{'] + str_pair("payload_b64"@, payload@) + seq![','] + str_pair("to_topic"@, to@) + seq!['}'],
{
    let mut fs: Vec<(String, JsonValue)> = Vec::new();
    let m0 = str_member("payload_b64", payload);
    proof {
        lemma_members_push(fs@, m0);
    }
    fs.push(m0);
    let m1 = str_member("to_topic", to);
    proof {
        lemma_members_push(fs@, m1);
    }
    fs.push(m1);
    let ghost ms = fs@;
    let s = to_json_string(&JsonValue::Object(fs));
    assert(s@ =~= seq!['{'] + members_text(ms) + seq!['}']);
    s
}

/// `{key: value}`: the argument of a one-string request (`contact`,
/// `plaintext`, `ciphertext`).
pub fn single_input(key: &str, value: &str) -> (s: String)
    ensures
        s@ == seq!['{'] + str_pair(key@, value@) + seq!['}'],
{
    let mut fs: Vec<(String, JsonValue)> = Vec::new();
    let m0 = str_member(key, value);
    proof {
        lemma_members_push(fs@, m0);
    }
    fs.push(m0);
    let ghost ms = fs@;
    let s = to_json_string(&JsonValue::Object(fs));
    assert(s@ =~= seq!['{'] + members_text(ms) + seq!['}']);
    s
}

/// `{"from", "text", "timestamp", "to"}`: the argument of a storage
/// plugin's `store_message`.
pub fn store_input(from: &str, to: &str, text: &str, ts: u64) -> (s: String)
    ensures
        s@ == seq!['{'] + str_pair("from"@, from@) + seq![','] + str_pair("text"@, text@) + seq![',']
            + num_pair("timestamp"@, ts) + seq![','] + str_pair("to"@, to@) + seq!['}'],
{
    let mut fs: Vec<(String, JsonValue)> = Vec::new();
    let m0 = str_member("from", from);
    proof {
        lemma_members_push(fs@, m0);
    }
    fs.push(m0);
    let m1 = str_member("text", text);
    proof {
        lemma_members_push(fs@, m1);
    }
    fs.push(m1);
    let m2 = u64_member("timestamp", ts);
    proof {
        lemma_members_push(fs@, m2);
    }
    fs.push(m2);
    let m3 = str_member("to", to);
    proof {
        lemma_members_push(fs@, m3);
    }
    fs.push(m3);
    let ghost ms = fs@;
    let s = to_json_string(&JsonValue::Object(fs));
    assert(s@ =~= seq!['{'] + members_text(ms) + seq!['}']);
    s
}

/// What a plugin's status reply `{"ok": true}` or `{"ok": false, "error": ..}`
/// means: `Ok` when `ok` is `true`; else the `error` text, or `default`
/// when there is none; the parser's error text when `raw` is not JSON.
pub open spec fn reply_status_spec(raw: Seq<char>, default: Seq<char>) -> Result<(), Seq<char>> {
    match serde_parse(raw) {
        Err(e) => Err(e),
        Ok(v) => if true_field(v, "ok"@) {
            Ok(())
        } else {
            match str_field(v, "error"@) {
                Some(e) => Err(e),
                None => Err(default),
            }
        },
    }
}

/// Reads a plugin's status reply.
pub fn reply_status(raw: &str, default: &str) -> (r: Result<(), String>)
    ensures
        r is Ok <==> reply_status_spec(raw@, default@) is Ok,
        r matches Err(e) ==> (reply_status_spec(raw@, default@) matches Err(m) && m == e@),
{
    match parse_json_result(raw) {
        Err(e) => Err(e),
        Ok(v) => {
            if is_true(&v, "ok") {
                Ok(())
            } else {
                match get_str(&v, "error") {
                    Some(e) => Err(e),
                    None => Err(String::from_str(default)),
                }
            }
        },
    }
}

/// The string member `key` of the reply `raw`, if it is JSON and has one.
pub fn reply_str(raw: &str, key: &str) -> (r: Option<String>)
    ensures
        r is Some <==> doc_str(json_parse_spec(raw@), key@) is Some,
        r matches Some(s) ==> doc_str(json_parse_spec(raw@), key@) == Some(s@),
{
    match parse_json(raw) {
        Some(v) => get_str(&v, key),
        None => None,
    }
}

/// The `messages` array of a `get_pending` reply.
pub open spec fn pending_list_spec(raw: Seq<char>) -> Option<Seq<JsonValue>> {
    match json_parse_spec(raw) {
        Some(v) => match field(v, "messages"@) {
            Some(JsonValue::Array(items)) => Some(items@),
            _ => None,
        },
        None => None,
    }
}

/// Reads the `messages` array of a `get_pending` reply.
pub fn pending_list(raw: &str) -> (r: Option<Vec<JsonValue>>)
    ensures
        r is Some <==> pending_list_spec(raw@) is Some,
        r matches Some(items) ==> pending_list_spec(raw@) == Some(items@),
{
    match parse_json(raw) {
        Some(v) => match take_field(v, "messages") {
            Some(JsonValue::Array(items)) => Some(items),
            _ => None,
        },
        None => None,
    }
}

/// The sender of an incoming message: its `from_topic`, or `"unknown"`.
pub open spec fn incoming_from_spec(msg: JsonValue) -> Seq<char> {
    match str_field(msg, "from_topic"@) {
        Some(f) => f,
        None => "unknown"@,
    }
}

/// The payload of an incoming message: its `payload_b64`, or empty.
pub open spec fn incoming_payload_spec(msg: JsonValue) -> Seq<char> {
    match str_field(msg, "payload_b64"@) {
        Some(p) => p,
        None => Seq::empty(),
    }
}

/// Reads the sender of an incoming message.
pub fn incoming_from(msg: &JsonValue) -> (s: String)
    ensures
        s@ == incoming_from_spec(*msg),
{
    match get_str(msg, "from_topic") {
        Some(f) => f,
        None => String::from_str("unknown"),
    }
}

/// Reads the payload of an incoming message.
pub fn incoming_payload(msg: &JsonValue) -> (s: String)
    ensures
        s@ == incoming_payload_spec(*msg),
{
    match get_str(msg, "payload_b64") {
        Some(p) => p,
        None => String::new(),
    }
}

/// A payload read without a crypto plugin: the text its Base64 encodes
/// when that is UTF-8, else the payload itself.
pub open spec fn decrypt_fallback_spec(payload: Seq<char>) -> Seq<char> {
    match base64_decode_spec(payload) {
        Some(b) => if vstd::utf8::valid_utf8(b) {
            vstd::utf8::decode_utf8(b)
        } else {
            payload
        },
        None => payload,
    }
}

/// Reads a payload without a crypto plugin.
pub fn decrypt_fallback(payload: &str) -> (s: String)
    ensures
        s@ == decrypt_fallback_spec(payload@),
{
    match base64_decode(payload) {
        Ok(b) => match utf8_decode(b.as_slice()) {
            Ok(t) => t,
            Err(_) => String::from_str(payload),
        },
        Err(_) => String::from_str(payload),
    }
}

/// Writes a payload without a crypto plugin: the Base64 of the text's UTF-8.
pub fn encrypt_fallback(text: &str) -> (s: String)
    ensures
        s@ == base64_encode_spec(vstd::utf8::encode_utf8(text@)),
{
    let b = utf8_bytes(text);
    base64_encode(b.as_slice())
}

/// The fields of a stored message in JSON: string `from`, `to`, `text`
/// and a `u64` `timestamp`.
pub open spec fn message_fields(v: JsonValue) -> Option<(Seq<char>, Seq<char>, Seq<char>, u64)> {
    match (
        crate::json::record_str(v, "from"@, 0, 4),
        crate::json::record_str(v, "to"@, 1, 4),
        crate::json::record_str(v, "text"@, 2, 4),
        crate::json::record_u64(v, "timestamp"@, 3, 4),
    ) {
        (Some(f), Some(t), Some(x), Some(ts)) => Some((f, t, x, ts)),
        _ => None,
    }
}

/// `raw` is a JSON array of stored messages.
pub open spec fn is_message_list_reply(raw: Seq<char>) -> bool {
    match json_parse_spec(raw) {
        Some(JsonValue::Array(items)) => forall|i: int| 0 <= i < items@.len() ==> #[trigger] message_fields(items@[i]) is Some,
        _ => false,
    }
}

/// `ms` are the messages of the array `raw`, in its order.
pub open spec fn messages_of_reply(raw: Seq<char>, ms: Seq<Message>) -> bool {
    match json_parse_spec(raw) {
        Some(JsonValue::Array(items)) => items@.len() == ms.len() && forall|i: int|
            0 <= i < ms.len() ==> #[trigger] message_fields(items@[i]) == Some(
                (ms[i].from@, ms[i].to@, ms[i].text@, ms[i].timestamp),
            ),
        _ => false,
    }
}

/// Reads one stored message.
fn message_from_json(v: &JsonValue) -> (r: Option<Message>)
    ensures
        r is Some <==> message_fields(*v) is Some,
        r matches Some(m) ==> message_fields(*v) == Some((m.from@, m.to@, m.text@, m.timestamp)),
{
    match (
        crate::json::get_record_str(v, "from", 0, 4),
        crate::json::get_record_str(v, "to", 1, 4),
        crate::json::get_record_str(v, "text", 2, 4),
        crate::json::get_record_u64(v, "timestamp", 3, 4),
    ) {
        (Some(from), Some(to), Some(text), Some(timestamp)) => Some(Message { from, to, text, timestamp }),
        _ => None,
    }
}

/// Reads a storage plugin's `get_messages` reply: its messages when it is
/// an array of stored messages, else none.
pub fn messages_from_reply(raw: &str) -> (r: Vec<Message>)
    ensures
        is_message_list_reply(raw@) ==> messages_of_reply(raw@, r@),
        !is_message_list_reply(raw@) ==> r@.len() == 0,
{
    let doc = parse_json(raw);
    match doc {
        Some(JsonValue::Array(items)) => {
            let mut out: Vec<Message> = Vec::new();
            let mut i: usize = 0;
            while i < items.len()
                invariant
                    i <= items@.len(),
                    json_parse_spec(raw@) == Some(JsonValue::Array(items)),
                    out@.len() == i,
                    forall|j: int| 0 <= j < i ==> #[trigger] message_fields(items@[j]) == Some(
                        (out@[j].from@, out@[j].to@, out@[j].text@, out@[j].timestamp),
                    ),
                decreases items@.len() - i,
            {
                match message_from_json(&items[i]) {
                    Some(m) => out.push(m),
                    None => {
                        return Vec::new();
                    },
                }
                i = i + 1;
            }
            out
        },
        _ => Vec::new(),
    }
}

/// `ev` is the event made of the incoming message `msg`: its kind is
/// `message_received`, its sender is `msg`'s, and its time is `msg`'s
/// `timestamp` when it has one.
pub open spec fn incoming_event(ev: Event, msg: JsonValue) -> bool {
    &&& ev.kind@ == "message_received"@
    &&& ev.from@ == incoming_from_spec(msg)
    &&& (u64_field(msg, "timestamp"@) matches Some(t) ==> ev.timestamp == t)
}

struct LoadedPlugin<P> {
    plugin: P,
    info: PluginInfo,
    manifest: PluginManifest,
}

/// The plugins a client application runs, and the events it has not yet
/// shown.
pub struct Engine<P> {
    plugins: StrMap<LoadedPlugin<P>>,
    events: Vec<Event>,
    log: PluginCallLog,
}

/// One call of a plugin function: the plugin's id, the function, the input
/// handed to it, and what the plugin answered.
pub type PluginCallRecord = (Seq<char>, Seq<char>, Seq<char>, Result<Seq<char>, Seq<char>>);

/// A plugin's answer by its views.
pub open spec fn answer_view(a: Result<String, String>) -> Result<Seq<char>, Seq<char>> {
    match a {
        Ok(s) => Ok(s@),
        Err(e) => Err(e@),
    }
}

/// A status outcome by its views.
pub open spec fn status_view(r: Result<(), String>) -> Result<(), Seq<char>> {
    match r {
        Ok(()) => Ok(()),
        Err(e) => Err(e@),
    }
}

/// What a call of `func` gives back for the plugin's `answer`: its output,
/// or its error prefixed by the function's name.
pub open spec fn outcome_spec(func: Seq<char>, answer: Result<Seq<char>, Seq<char>>) -> Result<Seq<char>, Seq<char>> {
    match answer {
        Ok(o) => Ok(o),
        Err(reason) => Err(call_failed_text(func, reason)),
    }
}

/// The status a call of `func` reports for the plugin's `answer`: the
/// reply's status, or the call's failure.
pub open spec fn status_result(func: Seq<char>, default: Seq<char>, answer: Result<Seq<char>, Seq<char>>) -> Result<
    (),
    Seq<char>,
> {
    match outcome_spec(func, answer) {
        Ok(raw) => reply_status_spec(raw, default),
        Err(e) => Err(e),
    }
}

/// `after` is `before` with exactly one more call, of `func` of a plugin
/// serving `category`, handed `input`.
pub open spec fn one_call(
    infos: Map<Seq<char>, PluginInfo>,
    before: Seq<PluginCallRecord>,
    after: Seq<PluginCallRecord>,
    category: Seq<char>,
    func: Seq<char>,
    input: Seq<char>,
) -> bool {
    &&& after.len() == before.len() + 1
    &&& after.drop_last() == before
    &&& engine_serves(infos, after.last().0, category)
    &&& after.last().1 == func
    &&& after.last().2 == input
}

/// `after` holds every call of `before` and possibly more after them.
pub open spec fn extends(before: Seq<PluginCallRecord>, after: Seq<PluginCallRecord>) -> bool {
    before.len() <= after.len() && after.subrange(0, before.len() as int) == before
}

proof fn lemma_extends_refl(a: Seq<PluginCallRecord>)
    ensures
        extends(a, a),
{
    assert(a.subrange(0, a.len() as int) =~= a);
}

proof fn lemma_one_call_extends(a: Seq<PluginCallRecord>, b: Seq<PluginCallRecord>)
    requires
        b.len() == a.len() + 1,
        b.drop_last() == a,
    ensures
        extends(a, b),
{
    assert(b.subrange(0, a.len() as int) =~= b.drop_last());
}

proof fn lemma_extends_trans(a: Seq<PluginCallRecord>, b: Seq<PluginCallRecord>, c: Seq<PluginCallRecord>)
    requires
        extends(a, b),
        extends(b, c),
    ensures
        extends(a, c),
{
    assert(c.subrange(0, a.len() as int) =~= b.subrange(0, a.len() as int));
}

proof fn lemma_same_or_one_extends(a: Seq<PluginCallRecord>, b: Seq<PluginCallRecord>)
    requires
        b == a || (b.len() == a.len() + 1 && b.drop_last() == a),
    ensures
        extends(a, b),
{
    if b == a {
        lemma_extends_refl(a);
    } else {
        lemma_one_call_extends(a, b);
    }
}

/// What a shorter log holds at an index, a log that extends it holds too.
proof fn lemma_extends_keeps(a: Seq<PluginCallRecord>, b: Seq<PluginCallRecord>, c: Seq<PluginCallRecord>)
    requires
        extends(b, c),
    ensures
        forall|k: int| 0 <= k < b.len() ==> #[trigger] c[k] == b[k],
{
    assert forall|k: int| 0 <= k < b.len() implies #[trigger] c[k] == b[k] by {
        assert(c.subrange(0, b.len() as int)[k] == c[k]);
    }
}

/// `{"address": address}`.
pub open spec fn configure_text(address: Seq<char>) -> Seq<char> {
    seq!['{'] + str_pair("address"@, address) + seq!['}']
}

/// `{key: value}`.
pub open spec fn single_text(key: Seq<char>, value: Seq<char>) -> Seq<char> {
    seq!['{'] + str_pair(key, value) + seq!['}']
}

/// `{"payload_b64": payload, "to_topic": to}`.
pub open spec fn send_text(to: Seq<char>, payload: Seq<char>) -> Seq<char> {
    seq!['{'] + str_pair("payload_b64"@, payload) + seq![','] + str_pair("to_topic"@, to) + seq!['}']
}

/// `{"from", "text", "timestamp", "to"}`.
pub open spec fn store_text(from: Seq<char>, to: Seq<char>, text: Seq<char>, ts: u64) -> Seq<char> {
    seq!['{'] + str_pair("from"@, from) + seq![','] + str_pair("text"@, text) + seq![','] + num_pair("timestamp"@, ts)
        + seq![','] + str_pair("to"@, to) + seq!['}']
}

/// How many calls handling one incoming message makes: a `decrypt` when a
/// crypto plugin serves, then a `store_message` when a storage plugin does.
pub open spec fn receive_call_count(infos: Map<Seq<char>, PluginInfo>) -> nat {
    (if none_serves(infos, "crypto"@) { 0nat } else { 1nat }) + (if none_serves(infos, "storage"@) {
        0nat
    } else {
        1nat
    })
}

/// `seg` holds the calls made while handling the incoming message `msg`,
/// which became the event `ev`: the event's text is the payload as the
/// crypto plugin's `decrypt` gave it (else as read without one), and the
/// message was handed to the storage plugin as received by `"me"`.
pub open spec fn receive_step(
    infos: Map<Seq<char>, PluginInfo>,
    seg: Seq<PluginCallRecord>,
    msg: JsonValue,
    ev: Event,
) -> bool {
    let payload = incoming_payload_spec(msg);
    let c: int = if none_serves(infos, "crypto"@) { 0 } else { 1 };
    &&& seg.len() == receive_call_count(infos)
    &&& incoming_event(ev, msg)
    &&& none_serves(infos, "crypto"@) ==> ev.text@ == decrypt_fallback_spec(payload)
    &&& !none_serves(infos, "crypto"@) ==> {
        &&& engine_serves(infos, seg[0].0, "crypto"@)
        &&& seg[0].1 == "decrypt"@
        &&& seg[0].2 == single_text("ciphertext"@, payload)
        &&& ev.text@ == decrypt_result(payload, seg[0].3)
    }
    &&& !none_serves(infos, "storage"@) ==> {
        &&& engine_serves(infos, seg[c].0, "storage"@)
        &&& seg[c].1 == "store_message"@
        &&& seg[c].2 == store_text(ev.from@, "me"@, ev.text@, ev.timestamp)
    }
}

/// `log` holds the calls made while handling the incoming messages `ms` in
/// turn, and `evs` the events they became, in the same order.
pub open spec fn receive_steps(
    infos: Map<Seq<char>, PluginInfo>,
    log: Seq<PluginCallRecord>,
    ms: Seq<JsonValue>,
    evs: Seq<Event>,
) -> bool
    decreases ms.len(),
{
    if ms.len() == 0 {
        log.len() == 0 && evs.len() == 0
    } else {
        let k = receive_call_count(infos);
        &&& evs.len() == ms.len()
        &&& log.len() >= k
        &&& receive_steps(infos, log.subrange(0, log.len() - k), ms.drop_last(), evs.drop_last())
        &&& receive_step(infos, log.subrange(log.len() - k, log.len() as int), ms.last(), evs.last())
    }
}

proof fn lemma_receive_steps_push(
    infos: Map<Seq<char>, PluginInfo>,
    log: Seq<PluginCallRecord>,
    ms: Seq<JsonValue>,
    evs: Seq<Event>,
    seg: Seq<PluginCallRecord>,
    m: JsonValue,
    e: Event,
)
    requires
        receive_steps(infos, log, ms, evs),
        receive_step(infos, seg, m, e),
    ensures
        receive_steps(infos, log + seg, ms.push(m), evs.push(e)),
{
    let k = receive_call_count(infos);
    let all = log + seg;
    assert(all.subrange(0, all.len() - k) =~= log);
    assert(all.subrange(all.len() - k, all.len() as int) =~= seg);
    assert(ms.push(m).drop_last() =~= ms);
    assert(evs.push(e).drop_last() =~= evs);
    if ms.len() > 0 {
        assert(evs.len() == ms.len());
    }
}

/// The text of `payload` given a crypto plugin's answer to `decrypt`: the
/// reply's `plaintext`, else what `decrypt_fallback` reads.
pub open spec fn decrypt_result(payload: Seq<char>, answer: Result<Seq<char>, Seq<char>>) -> Seq<char> {
    match answer {
        Ok(raw) => match doc_str(json_parse_spec(raw), "plaintext"@) {
            Some(p) => p,
            None => decrypt_fallback_spec(payload),
        },
        Err(_) => decrypt_fallback_spec(payload),
    }
}

/// The payload `send_message` hands the transport for `text`: with a
/// crypto plugin, what `encrypt_result` makes of that plugin's answer
/// (the first call `send_message` makes), else the Base64 of the text.
pub open spec fn sent_payload(
    infos: Map<Seq<char>, PluginInfo>,
    text: Seq<char>,
    answer: Result<Seq<char>, Seq<char>>,
) -> Seq<char> {
    if none_serves(infos, "crypto"@) {
        base64_encode_spec(vstd::utf8::encode_utf8(text))
    } else {
        encrypt_result(text, answer)
    }
}

/// `{"limit": 50, "since": since}`.
pub open spec fn pending_text(since: u64) -> Seq<char> {
    seq!['{'] + num_pair("limit"@, PENDING_LIMIT) + seq![','] + num_pair("since"@, since) + seq!['}']
}

/// The payload text for `text` given a crypto plugin's answer to
/// `encrypt`: the reply's `ciphertext`, else the Base64 of the text.
pub open spec fn encrypt_result(text: Seq<char>, answer: Result<Seq<char>, Seq<char>>) -> Seq<char> {
    match answer {
        Ok(raw) => match doc_str(json_parse_spec(raw), "ciphertext"@) {
            Some(c) => c,
            None => base64_encode_spec(vstd::utf8::encode_utf8(text)),
        },
        Err(_) => base64_encode_spec(vstd::utf8::encode_utf8(text)),
    }
}

/// The plugin `id` serves `category`: it is loaded, active, and of that
/// category.
pub open spec fn engine_serves(infos: Map<Seq<char>, PluginInfo>, id: Seq<char>, category: Seq<char>) -> bool {
    infos.contains_key(id) && infos[id].category@ == category && infos[id].active
}

/// `e` is an error that a plugin's status reply can bring back from a call
/// of `func`: the call's own failure, or the reply's error (`default` when
/// the reply names none).
pub open spec fn status_error(func: Seq<char>, default: Seq<char>, e: Seq<char>) -> bool {
    ||| exists|reason: Seq<char>| e == #[trigger] call_failed_text(func, reason)
    ||| exists|raw: Seq<char>| #[trigger] reply_status_spec(raw, default) == Err::<(), Seq<char>>(e)
}

/// No loaded plugin serves `category`.
pub open spec fn none_serves(infos: Map<Seq<char>, PluginInfo>, category: Seq<char>) -> bool {
    forall|id: Seq<char>| !engine_serves(infos, id, category)
}

impl<P> Engine<P> {
    pub closed spec fn wf(&self) -> bool {
        &&& self.plugins.wf()
        &&& forall|k: Seq<char>| #[trigger] self.plugins@.contains_key(k) ==> self.plugins@[k].info.id@ == k
    }

    /// The descriptions of the loaded plugins, by id.
    pub closed spec fn infos(&self) -> Map<Seq<char>, PluginInfo> {
        Map::new(|k: Seq<char>| self.plugins@.contains_key(k), |k: Seq<char>| self.plugins@[k].info)
    }

    /// The manifests of the loaded plugins, by id.
    pub closed spec fn manifests(&self) -> Map<Seq<char>, PluginManifest> {
        Map::new(|k: Seq<char>| self.plugins@.contains_key(k), |k: Seq<char>| self.plugins@[k].manifest)
    }

    /// The events not yet taken, oldest first.
    pub closed spec fn pending(&self) -> Seq<Event> {
        self.events@
    }

    /// The plugin calls made so far, oldest first.
    pub closed spec fn calls(&self) -> Seq<PluginCallRecord> {
        self.log.records()
    }

    /// A plugin is loaded exactly when it has a manifest.
    pub proof fn lemma_manifests_dom(&self)
        ensures
            self.manifests().dom() == self.infos().dom(),
    {
        assert(self.manifests().dom() =~= self.infos().dom());
    }

    /// An engine with no plugins and no events.
    pub fn new() -> (e: Self)
        ensures
            e.wf(),
            e.infos() == Map::<Seq<char>, PluginInfo>::empty(),
            e.manifests() == Map::<Seq<char>, PluginManifest>::empty(),
            e.pending() == Seq::<Event>::empty(),
            e.calls() == Seq::<PluginCallRecord>::empty(),
    {
        let e = Engine { plugins: StrMap::new(), events: Vec::new(), log: PluginCallLog::new() };
        assert(e.infos() =~= Map::<Seq<char>, PluginInfo>::empty());
        assert(e.manifests() =~= Map::<Seq<char>, PluginManifest>::empty());
        e
    }

    /// Refuses a manifest whose id is already loaded, before any module is
    /// instantiated for it.
    pub fn check_new(&self, manifest: &PluginManifest) -> (r: Result<(), String>)
        requires
            self.wf(),
        ensures
            r is Err <==> self.infos().contains_key(manifest.plugin.id@),
            r matches Err(e) ==> e@ == already_loaded_text(manifest.plugin.id@),
    {
        if self.plugins.contains_key(manifest.plugin.id.as_str()) {
            let a = concat("plugin '", manifest.plugin.id.as_str());
            return Err(concat(a.as_str(), "' already loaded"));
        }
        Ok(())
    }

    /// The descriptions of the loaded plugins, each once.
    pub fn list_plugins(&self) -> (r: Vec<PluginInfo>)
        requires
            self.wf(),
        ensures
            r@.len() == self.infos().dom().len(),
            forall|i: int| 0 <= i < r@.len() ==> self.infos().contains_key(#[trigger] r@[i].id@)
                && self.infos()[r@[i].id@] == r@[i],
            forall|i: int, j: int| 0 <= i < j < r@.len() ==> r@[i].id@ != r@[j].id@,
    {
        let entries = self.plugins.entries();
        proof {
            self.plugins.lemma_seq();
        }
        let mut out: Vec<PluginInfo> = Vec::new();
        let mut i: usize = 0;
        while i < entries.len()
            invariant
                self.wf(),
                entries@ == self.plugins.seq(),
                i <= entries@.len(),
                out@.len() == i,
                forall|j: int| 0 <= j < i ==> #[trigger] out@[j] == entries@[j].1.info,
            decreases entries@.len() - i,
        {
            out.push(entries[i].1.info.duplicate());
            i = i + 1;
        }
        proof {
            assert(self.infos().dom() =~= self.plugins@.dom());
            assert forall|i: int| 0 <= i < out@.len() implies self.infos().contains_key(#[trigger] out@[i].id@)
                && self.infos()[out@[i].id@] == out@[i] by {
                assert(self.plugins@.contains_key(entries@[i].0@));
                assert(self.plugins@[entries@[i].0@].info.id@ == entries@[i].0@);
            }
            assert forall|i: int, j: int| 0 <= i < j < out@.len() implies out@[i].id@ != out@[j].id@ by {
                assert(self.plugins@[entries@[i].0@].info.id@ == entries@[i].0@);
                assert(self.plugins@[entries@[j].0@].info.id@ == entries@[j].0@);
            }
        }
        out
    }

    /// The id of an active plugin of `category`, if one is loaded.
    fn find_category(&self, category: &str) -> (r: Option<String>)
        requires
            self.wf(),
        ensures
            r matches Some(id) ==> engine_serves(self.infos(), id@, category@),
            r is None ==> none_serves(self.infos(), category@),
    {
        let entries = self.plugins.entries();
        proof {
            self.plugins.lemma_seq();
        }
        let mut i: usize = 0;
        while i < entries.len()
            invariant
                self.wf(),
                entries@ == self.plugins.seq(),
                i <= entries@.len(),
                forall|j: int| 0 <= j < i ==> !(#[trigger] entries@[j].1.info.category@ == category@
                    && entries@[j].1.info.active),
            decreases entries@.len() - i,
        {
            let lp = &entries[i].1;
            if str_eq(lp.info.category.as_str(), category) && lp.info.active {
                proof {
                    self.plugins.lemma_seq();
                    let k = entries@[i as int].0@;
                    assert(self.plugins@.contains_key(k));
                    assert(self.plugins@[k] == entries@[i as int].1);
                    assert(self.infos()[k] == lp.info);
                }
                return Some(lp.info.id.clone());
            }
            i = i + 1;
        }
        proof {
            self.plugins.lemma_seq();
            assert forall|id: Seq<char>| !engine_serves(self.infos(), id, category@) by {
                if engine_serves(self.infos(), id, category@) {
                    let j = choose|j: int| 0 <= j < self.plugins.seq().len() && #[trigger] self.plugins.seq()[j].0@ == id;
                    assert(entries@[j].1.info.category@ == category@ && entries@[j].1.info.active);
                }
            }
        }
        None
    }
}

impl<P: PluginCall> Engine<P> {
    /// Calls `func` of the plugin `id` with `input`.
    fn call(&mut self, id: &str, func: &str, input: &str) -> (r: Result<String, String>)
        requires
            old(self).wf(),
        ensures
            final(self).wf(),
            final(self).infos() == old(self).infos(),
            final(self).manifests() == old(self).manifests(),
            final(self).pending() == old(self).pending(),
            !old(self).infos().contains_key(id@) ==> (r matches Err(e) && e@ == not_found_text(id@)),
            old(self).infos().contains_key(id@) ==> (r matches Err(e) ==> exists|reason: Seq<char>|
                e@ == call_failed_text(func@, reason)),
            !old(self).infos().contains_key(id@) ==> final(self).calls() == old(self).calls(),
            old(self).infos().contains_key(id@) ==> {
                &&& final(self).calls().len() == old(self).calls().len() + 1
                &&& final(self).calls().drop_last() == old(self).calls()
                &&& final(self).calls().last().0 == id@
                &&& final(self).calls().last().1 == func@
                &&& final(self).calls().last().2 == input@
                &&& answer_view(r) == outcome_spec(func@, final(self).calls().last().3)
            },
    {
        let ghost before = self.plugins@;
        match self.plugins.remove(id) {
            None => {
                assert(self.plugins@ =~= before);
                let a = concat("plugin '", id);
                Err(concat(a.as_str(), "' not found"))
            },
            Some(mut lp) => {
                let answer = self.log.call(&mut lp.plugin, id, func, input);
                let key = lp.info.id.clone();
                self.plugins.insert(key, lp);
                proof {
                    assert(self.plugins@.dom() =~= before.dom());
                    assert forall|k: Seq<char>| #[trigger] self.plugins@.contains_key(k) implies self.plugins@[k].info.id@ == k by {
                        if k != id@ {
                            assert(self.plugins@[k] == before[k]);
                        }
                    }
                    assert(self.infos() =~= old(self).infos());
                    assert(self.manifests() =~= old(self).manifests());
                }
                let r = call_outcome(func, answer);
                proof {
                    if r is Err {
                        assert(answer is Err);
                    }
                    assert(self.calls().drop_last() =~= old(self).calls());
                }
                r
            },
        }
    }

    /// Loads the plugin `manifest` declares, whose module was instantiated
    /// as `instance` (an `Err` carries the instantiation error).
    pub fn load_plugin(&mut self, manifest: PluginManifest, instance: Result<P, String>) -> (r: Result<PluginInfo, String>)
        requires
            old(self).wf(),
        ensures
            final(self).wf(),
            final(self).pending() == old(self).pending(),
            old(self).infos().contains_key(manifest.plugin.id@) ==> (r matches Err(e) && e@ == already_loaded_text(
                manifest.plugin.id@,
            )),
            !old(self).infos().contains_key(manifest.plugin.id@) && instance is Err ==> (r matches Err(e)
                && e@ == init_failed_text(instance->Err_0@)),
            r is Err ==> final(self).infos() == old(self).infos(),
            r is Ok <==> !old(self).infos().contains_key(manifest.plugin.id@) && instance is Ok,
            r matches Ok(info) ==> engine_info_of(manifest, info) && final(self).infos() == old(self).infos().insert(
                info.id@,
                info,
            ) && final(self).manifests() == old(self).manifests().insert(info.id@, manifest),
    {
        match self.check_new(&manifest) {
            Ok(()) => {},
            Err(e) => {
                return Err(e);
            },
        }
        let info = info_from_manifest(&manifest);
        let plugin = match instance {
            Ok(p) => p,
            Err(e) => {
                return Err(concat("wasm init failed: ", e.as_str()));
            },
        };
        let ghost m = manifest;
        let ghost before = self.plugins@;
        let id = info.id.clone();
        let entry = LoadedPlugin { plugin, info: info.duplicate(), manifest };
        self.plugins.insert(id, entry);
        proof {
            assert forall|k: Seq<char>| #[trigger] self.plugins@.contains_key(k) implies self.plugins@[k].info.id@ == k by {
                if k != info.id@ {
                    assert(before.contains_key(k));
                }
            }
            assert(self.infos() =~= old(self).infos().insert(info.id@, info));
            assert(self.manifests() =~= old(self).manifests().insert(info.id@, m));
        }
        Ok(info)
    }

    /// Unloads the plugin `id`, first calling its `on_unload` hook when its
    /// manifest declares one (the hook's outcome is ignored).  An unknown id
    /// changes nothing.
    pub fn unload_plugin(&mut self, id: &str)
        requires
            old(self).wf(),
        ensures
            final(self).wf(),
            final(self).infos() == old(self).infos().remove(id@),
            final(self).manifests() == old(self).manifests().remove(id@),
            final(self).pending() == old(self).pending(),
    {
        let wants = match self.plugins.get(id) {
            Some(lp) => declares_hook(&lp.manifest, "on_unload"),
            None => false,
        };
        if wants {
            let _ = self.call(id, "on_unload", "{}");
        }
        let ghost before = self.plugins@;
        let ghost infos_before = self.infos();
        let ghost manifests_before = self.manifests();
        let _ = self.plugins.remove(id);
        proof {
            assert forall|k: Seq<char>| #[trigger] self.plugins@.contains_key(k) implies self.plugins@[k].info.id@ == k by {
                assert(before.contains_key(k));
            }
            assert(self.infos() =~= infos_before.remove(id@));
            assert(self.manifests() =~= manifests_before.remove(id@));
        }
    }

    /// The payload text for `text`: what an active crypto plugin's
    /// `encrypt` gives as `ciphertext`, else the Base64 of the text.
    fn encrypt(&mut self, text: &str) -> (s: String)
        requires
            old(self).wf(),
        ensures
            final(self).wf(),
            final(self).infos() == old(self).infos(),
            final(self).manifests() == old(self).manifests(),
            final(self).pending() == old(self).pending(),
            none_serves(old(self).infos(), "crypto"@) ==> s@ == base64_encode_spec(vstd::utf8::encode_utf8(text@))
                && final(self).calls() == old(self).calls(),
            !none_serves(old(self).infos(), "crypto"@) ==> one_call(
                old(self).infos(),
                old(self).calls(),
                final(self).calls(),
                "crypto"@,
                "encrypt"@,
                single_text("plaintext"@, text@),
            ) && s@ == encrypt_result(text@, final(self).calls().last().3),
    {
        match self.find_category("crypto") {
            Some(id) => {
                let input = single_input("plaintext", text);
                match self.call(id.as_str(), "encrypt", input.as_str()) {
                    Ok(raw) => match reply_str(raw.as_str(), "ciphertext") {
                        Some(b64) => {
                            return b64;
                        },
                        None => {},
                    },
                    Err(_) => {},
                }
            },
            None => {},
        }
        encrypt_fallback(text)
    }

    /// The text of a payload: what an active crypto plugin's `decrypt`
    /// gives as `plaintext`, else what `decrypt_fallback` reads.
    fn decrypt(&mut self, payload: &str) -> (s: String)
        requires
            old(self).wf(),
        ensures
            final(self).wf(),
            final(self).infos() == old(self).infos(),
            final(self).manifests() == old(self).manifests(),
            final(self).pending() == old(self).pending(),
            none_serves(old(self).infos(), "crypto"@) ==> s@ == decrypt_fallback_spec(payload@)
                && final(self).calls() == old(self).calls(),
            !none_serves(old(self).infos(), "crypto"@) ==> one_call(
                old(self).infos(),
                old(self).calls(),
                final(self).calls(),
                "crypto"@,
                "decrypt"@,
                single_text("ciphertext"@, payload@),
            ) && s@ == decrypt_result(payload@, final(self).calls().last().3),
    {
        match self.find_category("crypto") {
            Some(id) => {
                let input = single_input("ciphertext", payload);
                match self.call(id.as_str(), "decrypt", input.as_str()) {
                    Ok(raw) => match reply_str(raw.as_str(), "plaintext") {
                        Some(text) => {
                            return text;
                        },
                        None => {},
                    },
                    Err(_) => {},
                }
            },
            None => {},
        }
        decrypt_fallback(payload)
    }

    /// Hands a message to an active storage plugin, if there is one; its
    /// answer is ignored.
    fn store_message(&mut self, from: &str, to: &str, text: &str, ts: u64)
        requires
            old(self).wf(),
        ensures
            final(self).wf(),
            final(self).infos() == old(self).infos(),
            final(self).manifests() == old(self).manifests(),
            final(self).pending() == old(self).pending(),
            none_serves(old(self).infos(), "storage"@) ==> final(self).calls() == old(self).calls(),
            !none_serves(old(self).infos(), "storage"@) ==> one_call(
                old(self).infos(),
                old(self).calls(),
                final(self).calls(),
                "storage"@,
                "store_message"@,
                store_text(from@, to@, text@, ts),
            ),
    {
        match self.find_category("storage") {
            Some(id) => {
                let input = store_input(from, to, text, ts);
                let _ = self.call(id.as_str(), "store_message", input.as_str());
            },
            None => {},
        }
    }

    /// Tells an active transport plugin our address.  Without one the
    /// engine is offline, which is no error.
    pub fn configure_transport(&mut self, address: &str) -> (r: Result<(), String>)
        requires
            old(self).wf(),
        ensures
            final(self).wf(),
            final(self).infos() == old(self).infos(),
            final(self).manifests() == old(self).manifests(),
            final(self).pending() == old(self).pending(),
            none_serves(old(self).infos(), "transport"@) ==> r is Ok && final(self).calls() == old(self).calls(),
            r matches Err(e) ==> status_error("configure"@, "configure failed"@, e@),
            !none_serves(old(self).infos(), "transport"@) ==> one_call(
                old(self).infos(),
                old(self).calls(),
                final(self).calls(),
                "transport"@,
                "configure"@,
                configure_text(address@),
            ) && status_view(r) == status_result("configure"@, "configure failed"@, final(self).calls().last().3),
    {
        match self.find_category("transport") {
            Some(id) => {
                let input = configure_input(address);
                match self.call(id.as_str(), "configure", input.as_str()) {
                    Ok(raw) => {
                        let r = reply_status(raw.as_str(), "configure failed");
                        proof {
                            if r is Err {
                                assert(reply_status_spec(raw@, "configure failed"@) == Err::<(), Seq<char>>(r->Err_0@));
                            }
                        }
                        r
                    },
                    Err(e) => Err(e),
                }
            },
            None => Ok(()),
        }
    }

    /// Sends `text` to `to`: the text is stored as sent by `"me"` and its
    /// payload handed to an active transport plugin.  Without one the
    /// message is only stored, which is no error.
    pub fn send_message(&mut self, to: &str, text: &str) -> (r: Result<(), String>)
        requires
            old(self).wf(),
        ensures
            final(self).wf(),
            final(self).infos() == old(self).infos(),
            final(self).manifests() == old(self).manifests(),
            final(self).pending() == old(self).pending(),
            none_serves(old(self).infos(), "transport"@) ==> r is Ok,
            r matches Err(e) ==> status_error("send"@, "send failed"@, e@),
            extends(old(self).calls(), final(self).calls()),
            !none_serves(old(self).infos(), "crypto"@) ==> exists|k: int| #![trigger final(self).calls()[k]]
                old(self).calls().len() <= k < final(self).calls().len() && final(self).calls()[k].1 == "encrypt"@
                    && engine_serves(old(self).infos(), final(self).calls()[k].0, "crypto"@)
                    && final(self).calls()[k].2 == single_text("plaintext"@, text@),
            !none_serves(old(self).infos(), "storage"@) ==> exists|k: int, ts: u64| #![trigger final(self).calls()[k], store_text("me"@, to@, text@, ts)]
                old(self).calls().len() <= k < final(self).calls().len() && final(self).calls()[k].2 == store_text(
                    "me"@,
                    to@,
                    text@,
                    ts,
                ) && final(self).calls()[k].1 == "store_message"@ && engine_serves(old(self).infos(), final(self).calls()[k].0, "storage"@),
            !none_serves(old(self).infos(), "transport"@) ==> {
                &&& final(self).calls().len() > old(self).calls().len()
                &&& engine_serves(old(self).infos(), final(self).calls().last().0, "transport"@)
                &&& final(self).calls().last().1 == "send"@
                &&& final(self).calls().last().2 == send_text(
                    to@,
                    sent_payload(old(self).infos(), text@, final(self).calls()[old(self).calls().len() as int].3),
                )
                &&& status_view(r) == status_result("send"@, "send failed"@, final(self).calls().last().3)
            },
            none_serves(old(self).infos(), "crypto"@) && none_serves(old(self).infos(), "storage"@) && none_serves(
                old(self).infos(),
                "transport"@,
            ) ==> final(self).calls() == old(self).calls(),
    {
        let ghost c0 = self.calls();
        let payload = self.encrypt(text);
        let ghost c1 = self.calls();
        let ts = now_secs();
        self.store_message("me", to, text, ts);
        let ghost c2 = self.calls();
        proof {
            lemma_extends_refl(c0);
            if !none_serves(old(self).infos(), "crypto"@) {
                lemma_one_call_extends(c0, c1);
                assert(c1[c0.len() as int] == c1.last());
            }
            lemma_extends_refl(c1);
            if !none_serves(old(self).infos(), "storage"@) {
                lemma_one_call_extends(c1, c2);
                assert(c2[c1.len() as int] == c2.last());
            }
            lemma_extends_trans(c0, c1, c2);
            lemma_extends_keeps(c0, c1, c2);
        }
        match self.find_category("transport") {
            Some(id) => {
                let input = send_input(to, payload.as_str());
                let res = self.call(id.as_str(), "send", input.as_str());
                let ghost c3 = self.calls();
                proof {
                    lemma_one_call_extends(c2, c3);
                    lemma_extends_trans(c0, c2, c3);
                    lemma_extends_keeps(c0, c2, c3);
                    lemma_extends_keeps(c1, c2, c3);
                    assert(send_text(to@, payload@) == c3.last().2);
                }
                match res {
                    Ok(raw) => {
                        let r = reply_status(raw.as_str(), "send failed");
                        proof {
                            if r is Err {
                                assert(reply_status_spec(raw@, "send failed"@) == Err::<(), Seq<char>>(r->Err_0@));
                            }
                            assert(status_view(r) == reply_status_spec(raw@, "send failed"@));
                        }
                        r
                    },
                    Err(e) => Err(e),
                }
            },
            None => Ok(()),
        }
    }

    /// The stored conversation with `contact`, as an active storage plugin
    /// gives it; none without one, or when its answer is not a list of
    /// messages.
    pub fn get_messages(&mut self, contact: &str) -> (r: Vec<Message>)
        requires
            old(self).wf(),
        ensures
            final(self).wf(),
            final(self).infos() == old(self).infos(),
            final(self).manifests() == old(self).manifests(),
            final(self).pending() == old(self).pending(),
            none_serves(old(self).infos(), "storage"@) ==> r@.len() == 0 && final(self).calls() == old(self).calls(),
            r@.len() > 0 ==> exists|raw: Seq<char>| #[trigger] is_message_list_reply(raw) && messages_of_reply(raw, r@),
            !none_serves(old(self).infos(), "storage"@) ==> one_call(
                old(self).infos(),
                old(self).calls(),
                final(self).calls(),
                "storage"@,
                "get_messages"@,
                single_text("contact"@, contact@),
            ) && match final(self).calls().last().3 {
                Ok(raw) => if is_message_list_reply(raw) {
                    messages_of_reply(raw, r@)
                } else {
                    r@.len() == 0
                },
                Err(_) => r@.len() == 0,
            },
    {
        match self.find_category("storage") {
            Some(id) => {
                let input = single_input("contact", contact);
                match self.call(id.as_str(), "get_messages", input.as_str()) {
                    Ok(raw) => {
                        let r = messages_from_reply(raw.as_str());
                        proof {
                            if r@.len() > 0 {
                                assert(is_message_list_reply(raw@));
                            }
                        }
                        r
                    },
                    Err(_) => Vec::new(),
                }
            },
            None => Vec::new(),
        }
    }

    /// Asks an active transport plugin for the messages that came since
    /// `since_ts`; each is read, stored as received by `"me"`, and becomes a
    /// `message_received` event.  Returns how many there were (modulo 2^32).
    /// Without a transport plugin, or when its answer is not a list of
    /// messages, nothing happens.
    pub fn poll_incoming(&mut self, since_ts: u64) -> (n: u32)
        requires
            old(self).wf(),
        ensures
            final(self).wf(),
            final(self).infos() == old(self).infos(),
            final(self).manifests() == old(self).manifests(),
            final(self).pending().len() >= old(self).pending().len(),
            final(self).pending().subrange(0, old(self).pending().len() as int) == old(self).pending(),
            n == (final(self).pending().len() - old(self).pending().len()) as u32,
            exists|msgs: Seq<JsonValue>| #[trigger] msgs.len() == final(self).pending().len() - old(self).pending().len()
                && forall|i: int| 0 <= i < msgs.len() ==> incoming_event(
                    #[trigger] final(self).pending()[old(self).pending().len() + i],
                    msgs[i],
                ),
            none_serves(old(self).infos(), "transport"@) ==> n == 0 && final(self).pending() == old(self).pending()
                && final(self).calls() == old(self).calls(),
            !none_serves(old(self).infos(), "transport"@) ==> {
                let rec = final(self).calls()[old(self).calls().len() as int];
                &&& extends(old(self).calls(), final(self).calls())
                &&& final(self).calls().len() > old(self).calls().len()
                &&& engine_serves(old(self).infos(), rec.0, "transport"@)
                &&& rec.1 == "get_pending"@
                &&& rec.2 == pending_text(since_ts)
                &&& match rec.3 {
                    Ok(raw) => match pending_list_spec(raw) {
                        Some(ms) => {
                            &&& n == ms.len() as u32
                            &&& final(self).pending().len() == old(self).pending().len() + ms.len()
                            &&& forall|i: int| 0 <= i < ms.len() ==> incoming_event(
                                #[trigger] final(self).pending()[old(self).pending().len() + i],
                                ms[i],
                            )
                            &&& receive_steps(
                                old(self).infos(),
                                final(self).calls().subrange(
                                    (old(self).calls().len() + 1) as int,
                                    final(self).calls().len() as int,
                                ),
                                ms,
                                final(self).pending().subrange(
                                    old(self).pending().len() as int,
                                    final(self).pending().len() as int,
                                ),
                            )
                        },
                        None => n == 0 && final(self).pending() == old(self).pending() && final(self).calls().len()
                            == old(self).calls().len() + 1,
                    },
                    Err(_) => n == 0 && final(self).pending() == old(self).pending() && final(self).calls().len()
                        == old(self).calls().len() + 1,
                }
            },
    {
        let ghost c0 = self.calls();
        let id = match self.find_category("transport") {
            Some(id) => id,
            None => {
                assert(Seq::<JsonValue>::empty().len() == 0);
                return 0;
            },
        };
        let input = pending_input(since_ts);
        let res = self.call(id.as_str(), "get_pending", input.as_str());
        let ghost c1 = self.calls();
        proof {
            lemma_one_call_extends(c0, c1);
            assert(c1[c0.len() as int] == c1.last());
        }
        let raw = match res {
            Ok(r) => r,
            Err(_) => {
                assert(self.pending().subrange(0, self.pending().len() as int) =~= self.pending());
                assert(Seq::<JsonValue>::empty().len() == 0);
                return 0;
            },
        };
        let msgs = match pending_list(raw.as_str()) {
            Some(a) => a,
            None => {
                assert(self.pending().subrange(0, self.pending().len() as int) =~= self.pending());
                assert(Seq::<JsonValue>::empty().len() == 0);
                return 0;
            },
        };
        let ghost start = self.pending();
        let mut i: usize = 0;
        proof {
            lemma_extends_refl(c1);
            assert(self.calls().subrange(c1.len() as int, self.calls().len() as int) =~= Seq::<PluginCallRecord>::empty());
            assert(msgs@.subrange(0, 0) =~= Seq::<JsonValue>::empty());
            assert(self.pending().subrange(start.len() as int, self.pending().len() as int) =~= Seq::<Event>::empty());
        }
        while i < msgs.len()
            invariant
                self.wf(),
                self.infos() == old(self).infos(),
                self.manifests() == old(self).manifests(),
                start == old(self).pending(),
                i <= msgs@.len(),
                self.pending().len() == start.len() + i,
                self.pending().subrange(0, start.len() as int) == start,
                forall|j: int| 0 <= j < i ==> incoming_event(#[trigger] self.pending()[start.len() + j], msgs@[j]),
                extends(c1, self.calls()),
                c1.len() == c0.len() + 1,
                receive_steps(
                    old(self).infos(),
                    self.calls().subrange(c1.len() as int, self.calls().len() as int),
                    msgs@.subrange(0, i as int),
                    self.pending().subrange(start.len() as int, self.pending().len() as int),
                ),
            decreases msgs@.len() - i,
        {
            let ghost d0 = self.calls();
            let msg = &msgs[i];
            let from = incoming_from(msg);
            let payload = incoming_payload(msg);
            let ts = match get_u64(msg, "timestamp") {
                Some(t) => t,
                None => now_secs(),
            };
            let text = self.decrypt(payload.as_str());
            let ghost d1 = self.calls();
            self.store_message(from.as_str(), "me", text.as_str(), ts);
            proof {
                lemma_same_or_one_extends(d0, d1);
                lemma_same_or_one_extends(d1, self.calls());
                lemma_extends_trans(c1, d0, d1);
                lemma_extends_trans(c1, d1, self.calls());
            }
            let ghost before = self.pending();
            let ghost d2 = self.calls();
            let ev = Event { kind: String::from_str("message_received"), from, text, timestamp: ts };
            let ghost evg = ev;
            self.events.push(ev);
            proof {
                let seg = d2.subrange(d0.len() as int, d2.len() as int);
                let infos = old(self).infos();
                if none_serves(infos, "crypto"@) {
                    assert(d1 == d0);
                } else {
                    assert(seg[0] == d1.last());
                }
                if !none_serves(infos, "storage"@) {
                    let c: int = if none_serves(infos, "crypto"@) { 0 } else { 1 };
                    assert(seg[c] == d2.last());
                } else {
                    assert(d2 == d1);
                }
                assert(receive_step(infos, seg, msgs@[i as int], evg));
                let l0 = d0.subrange(c1.len() as int, d0.len() as int);
                assert(d2.subrange(c1.len() as int, d2.len() as int) =~= l0 + seg);
                assert(msgs@.subrange(0, i + 1) =~= msgs@.subrange(0, i as int).push(msgs@[i as int]));
                assert(self.pending().subrange(start.len() as int, self.pending().len() as int) =~= before.subrange(
                    start.len() as int,
                    before.len() as int,
                ).push(evg));
                lemma_receive_steps_push(
                    infos,
                    l0,
                    msgs@.subrange(0, i as int),
                    before.subrange(start.len() as int, before.len() as int),
                    seg,
                    msgs@[i as int],
                    evg,
                );
            }
            proof {
                assert(self.infos() =~= old(self).infos());
                assert(self.manifests() =~= old(self).manifests());
                assert(self.pending().subrange(0, start.len() as int) =~= before.subrange(0, start.len() as int));
                assert forall|j: int| 0 <= j < i + 1 implies incoming_event(#[trigger] self.pending()[start.len() + j], msgs@[j]) by {
                    if j < i {
                        assert(self.pending()[start.len() + j] == before[start.len() + j]);
                    }
                }
            }
            i = i + 1;
        }
        assert(msgs@.len() == self.pending().len() - start.len());
        assert(msgs@.subrange(0, i as int) =~= msgs@);
        proof {
            lemma_extends_trans(c0, c1, self.calls());
            lemma_extends_keeps(c0, c1, self.calls());
        }
        i as u32
    }

    /// The events not yet taken, oldest first; none are left.
    pub fn poll_events(&mut self) -> (r: Vec<Event>)
        requires
            old(self).wf(),
        ensures
            final(self).wf(),
            r@ == old(self).pending(),
            final(self).pending() == Seq::<Event>::empty(),
            final(self).infos() == old(self).infos(),
            final(self).manifests() == old(self).manifests(),
    {
        let mut taken: Vec<Event> = Vec::new();
        std::mem::swap(&mut taken, &mut self.events);
        proof {
            assert(self.infos() =~= old(self).infos());
            assert(self.manifests() =~= old(self).manifests());
        }
        taken
    }
}

} // verus!
