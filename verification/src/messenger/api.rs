use vstd::prelude::*;
use crate::clock::unix_now_secs;
use crate::codec::{base64_decode, base64_decode_spec, base64_encode, base64_encode_spec};
use crate::host::errors::{error_text, CoreError};
use crate::host::models::PluginInfo;
use crate::host::plugin_manager::{call_plugin_fn, find_plugin_by_category, serves, PluginCall, PluginTable};
use crate::json::{doc_str, json_parse_spec, items_text, lemma_members_push, quote_str, json_quote, json_text, str_member, str_pair, to_json_string, u64_member, JsonValue};
use crate::host::engine::{reply_str, single_input, single_text, store_input, store_text, PluginCallRecord};
use crate::messenger::bus::{push_spec, Event, EventQueue};
use crate::text::{concat, utf8_bytes, utf8_lossy, utf8_lossy_spec};

verus! {

/// The current time in seconds since the Unix epoch (zero before it).
pub fn current_timestamp() -> u64 {
    unix_now_secs()
}

/// No loaded plugin serves `category`.
pub open spec fn no_plugin_for<P>(table: PluginTable<P>, category: Seq<char>) -> bool {
    forall|id: Seq<char>| !serves(table.manifests(), table.infos(), id, category)
}

/// `after` is `before` with exactly one more call, of `func` of a plugin
/// serving `category` in `table`, handed `input`.
pub open spec fn table_call<P>(
    table: PluginTable<P>,
    before: Seq<PluginCallRecord>,
    after: Seq<PluginCallRecord>,
    category: Seq<char>,
    func: Seq<char>,
    input: Seq<char>,
) -> bool {
    &&& after.len() == before.len() + 1
    &&& after.drop_last() == before
    &&& serves(table.manifests(), table.infos(), after.last().0, category)
    &&& after.last().1 == func
    &&& after.last().2 == input
}

/// The bytes sent for `text` given a crypto plugin's answer to `encrypt`:
/// the Base64 `ciphertext` of the reply, decoded, else the text's UTF-8.
pub open spec fn encrypted_bytes(text: Seq<char>, answer: Result<Seq<char>, Seq<char>>) -> Seq<u8> {
    match answer {
        Ok(raw) => match doc_str(json_parse_spec(raw), "ciphertext"@) {
            Some(c) => match base64_decode_spec(c) {
                Some(b) => b,
                None => vstd::utf8::encode_utf8(text),
            },
            None => vstd::utf8::encode_utf8(text),
        },
        Err(_) => vstd::utf8::encode_utf8(text),
    }
}

/// The text of received bytes given a crypto plugin's answer to
/// `decrypt`: the reply's `plaintext`, else the bytes read as UTF-8.
pub open spec fn decrypted_text(data: Seq<u8>, answer: Result<Seq<char>, Seq<char>>) -> Seq<char> {
    match answer {
        Ok(raw) => match doc_str(json_parse_spec(raw), "plaintext"@) {
            Some(p) => p,
            None => utf8_lossy_spec(data),
        },
        Err(_) => utf8_lossy_spec(data),
    }
}

/// The bytes sent for `text`: what an active crypto plugin's `encrypt`
/// gives as Base64 `ciphertext`, decoded; else the text's UTF-8.
pub fn encrypt_text<P: PluginCall>(table: &mut PluginTable<P>, text: &str) -> (r: Vec<u8>)
    requires
        old(table).wf(),
    ensures
        final(table).wf(),
        final(table).infos() == old(table).infos(),
        final(table).manifests() == old(table).manifests(),
        no_plugin_for(*old(table), "crypto"@) ==> r@ == vstd::utf8::encode_utf8(text@),
        r@ == vstd::utf8::encode_utf8(text@) || exists|c: Seq<char>| #[trigger] base64_decode_spec(c) == Some(r@),
        no_plugin_for(*old(table), "crypto"@) ==> final(table).calls() == old(table).calls(),
        !no_plugin_for(*old(table), "crypto"@) ==> table_call(
            *old(table),
            old(table).calls(),
            final(table).calls(),
            "crypto"@,
            "encrypt"@,
            single_text("plaintext"@, text@),
        ) && r@ == encrypted_bytes(text@, final(table).calls().last().3),
{
    match find_plugin_by_category(table, "crypto") {
        Some(id) => {
            let input = single_input("plaintext", text);
            match call_plugin_fn(table, id.as_str(), "encrypt", input.as_str()) {
                Ok(res) => match reply_str(res.as_str(), "ciphertext") {
                    Some(b64) => match base64_decode(b64.as_str()) {
                        Ok(bytes) => {
                            assert(base64_decode_spec(b64@) == Some(bytes@));
                            return bytes;
                        },
                        Err(_) => {},
                    },
                    None => {},
                },
                Err(_) => {},
            }
        },
        None => {},
    }
    utf8_bytes(text)
}

/// The text of received bytes: what an active crypto plugin's `decrypt`
/// gives as `plaintext` for their Base64; else the bytes read as UTF-8,
/// invalid sequences replaced.
pub fn decrypt_bytes<P: PluginCall>(table: &mut PluginTable<P>, data: &[u8]) -> (r: String)
    requires
        old(table).wf(),
    ensures
        final(table).wf(),
        final(table).infos() == old(table).infos(),
        final(table).manifests() == old(table).manifests(),
        no_plugin_for(*old(table), "crypto"@) ==> r@ == utf8_lossy_spec(data@),
        no_plugin_for(*old(table), "crypto"@) ==> final(table).calls() == old(table).calls(),
        !no_plugin_for(*old(table), "crypto"@) ==> table_call(
            *old(table),
            old(table).calls(),
            final(table).calls(),
            "crypto"@,
            "decrypt"@,
            single_text("ciphertext"@, base64_encode_spec(data@)),
        ) && r@ == decrypted_text(data@, final(table).calls().last().3),
{
    match find_plugin_by_category(table, "crypto") {
        Some(id) => {
            let b64 = base64_encode(data);
            let input = single_input("ciphertext", b64.as_str());
            match call_plugin_fn(table, id.as_str(), "decrypt", input.as_str()) {
                Ok(res) => match reply_str(res.as_str(), "plaintext") {
                    Some(text) => {
                        return text;
                    },
                    None => {},
                },
                Err(_) => {},
            }
        },
        None => {},
    }
    utf8_lossy(data)
}

/// Hands a message to an active storage plugin, if there is one; its
/// answer is ignored.
fn store_with_plugin<P: PluginCall>(table: &mut PluginTable<P>, from: &str, to: &str, text: &str, ts: u64)
    requires
        old(table).wf(),
    ensures
        final(table).wf(),
        final(table).infos() == old(table).infos(),
        final(table).manifests() == old(table).manifests(),
        no_plugin_for(*old(table), "storage"@) ==> final(table).calls() == old(table).calls(),
        !no_plugin_for(*old(table), "storage"@) ==> {
            &&& final(table).calls().len() == old(table).calls().len() + 1
            &&& final(table).calls().drop_last() == old(table).calls()
            &&& serves(old(table).manifests(), old(table).infos(), final(table).calls().last().0, "storage"@)
            &&& final(table).calls().last().1 == "store_message"@
            &&& final(table).calls().last().2 == store_text(from@, to@, text@, ts)
        },
{
    match find_plugin_by_category(table, "storage") {
        Some(id) => {
            let input = store_input(from, to, text, ts);
            let _ = call_plugin_fn(table, id.as_str(), "store_message", input.as_str());
        },
        None => {},
    }
}

/// `payload` is `{"from": from, "text": text, "timestamp": ts}`.
pub open spec fn is_received_payload(payload: JsonValue, from: Seq<char>, text: Seq<char>, ts: u64) -> bool {
    &&& payload matches JsonValue::Object(fs)
    &&& fs@.len() == 3
    &&& fs@[0].0@ == "from"@ && (fs@[0].1 matches JsonValue::Str(s) && s@ == from)
    &&& fs@[1].0@ == "text"@ && (fs@[1].1 matches JsonValue::Str(s) && s@ == text)
    &&& fs@[2].0@ == "timestamp"@ && fs@[2].1 == JsonValue::UInt(ts)
}

/// Takes in a message that came from `from`: its text is read, stored as
/// received by `"me"`, and queued as a `message_received` event.
pub fn receive_message<P: PluginCall>(table: &mut PluginTable<P>, bus: &mut EventQueue, from: &str, data: &[u8])
    requires
        old(table).wf(),
    ensures
        final(table).wf(),
        final(table).infos() == old(table).infos(),
        final(table).manifests() == old(table).manifests(),
        exists|e: Event| {
            &&& final(bus)@ == push_spec(old(bus)@, e)
            &&& e.kind@ == "message_received"@
            &&& exists|text: Seq<char>, ts: u64| {
                &&& is_received_payload(e.payload, from@, text, ts)
                &&& no_plugin_for(*old(table), "crypto"@) ==> text == utf8_lossy_spec(data@)
                &&& !no_plugin_for(*old(table), "crypto"@) ==> text == decrypted_text(
                    data@,
                    final(table).calls()[old(table).calls().len() as int].3,
                )
                &&& !no_plugin_for(*old(table), "storage"@) ==> {
                    &&& serves(old(table).manifests(), old(table).infos(), final(table).calls().last().0, "storage"@)
                    &&& final(table).calls().last().1 == "store_message"@
                    &&& final(table).calls().last().2 == store_text(from@, "me"@, text, ts)
                }
            }
        },
        !no_plugin_for(*old(table), "crypto"@) ==> final(table).calls()[old(table).calls().len() as int].1 == "decrypt"@,
{
    let ghost c0 = table.calls();
    let text = decrypt_bytes(table, data);
    let ghost c1 = table.calls();
    let ts = current_timestamp();
    store_with_plugin(table, from, "me", text.as_str(), ts);
    proof {
        if !no_plugin_for(*old(table), "crypto"@) {
            assert(c1[c0.len() as int] == c1.last());
            if !no_plugin_for(*old(table), "storage"@) {
                assert(table.calls().drop_last() == c1);
                assert(table.calls()[c0.len() as int] == c1[c0.len() as int]);
            }
        }
    }
    let mut fs: Vec<(String, JsonValue)> = Vec::new();
    fs.push(str_member("from", from));
    fs.push(str_member("text", text.as_str()));
    fs.push(u64_member("timestamp", ts));
    let e = Event { kind: String::from_str("message_received"), payload: JsonValue::Object(fs) };
    let ghost eg = e;
    bus.push_event(e);
    assert(is_received_payload(eg.payload, from@, text@, ts));
}

/// Before a message to `to` goes out: the bytes to send, with the text
/// stored as sent by `"me"`.
pub fn prepare_outgoing<P: PluginCall>(table: &mut PluginTable<P>, to: &str, text: &str) -> (r: Vec<u8>)
    requires
        old(table).wf(),
    ensures
        final(table).wf(),
        final(table).infos() == old(table).infos(),
        final(table).manifests() == old(table).manifests(),
        no_plugin_for(*old(table), "crypto"@) ==> r@ == vstd::utf8::encode_utf8(text@),
        r@ == vstd::utf8::encode_utf8(text@) || exists|c: Seq<char>| #[trigger] base64_decode_spec(c) == Some(r@),
{
    let payload = encrypt_text(table, text);
    let ts = current_timestamp();
    store_with_plugin(table, "me", to, text, ts);
    payload
}

/// The conversation with `contact` as an active storage plugin's
/// `get_messages` gives it, `[]` when there is none or the call fails.
pub fn stored_messages<P: PluginCall>(table: &mut PluginTable<P>, contact: &str) -> (r: String)
    requires
        old(table).wf(),
    ensures
        final(table).wf(),
        final(table).infos() == old(table).infos(),
        final(table).manifests() == old(table).manifests(),
        no_plugin_for(*old(table), "storage"@) ==> r@ == "[]"@,
{
    match find_plugin_by_category(table, "storage") {
        Some(id) => {
            let input = single_input("contact", contact);
            match call_plugin_fn(table, id.as_str(), "get_messages", input.as_str()) {
                Ok(raw) => raw,
                Err(_) => String::from_str("[]"),
            }
        },
        None => String::from_str("[]"),
    }
}

/// `{"ok": true}` for a sent message, `{"error": e, "ok": false}` else.
pub fn send_reply(r: &Result<(), String>) -> (s: String)
    ensures
        r is Ok ==> s@ == seq!['{'] + json_quote("ok"@) + seq![':', 't', 'r', 'u', 'e', '}'],
        r matches Err(e) ==> s@ == seq!['{'] + str_pair("error"@, e@) + seq![','] + json_quote("ok"@) + seq![
            ':',
            'f',
            'a',
            'l',
            's',
            'e',
            '}',
        ],
{
    let mut fs: Vec<(String, JsonValue)> = Vec::new();
    match r {
        Ok(()) => {
            let m0 = bool_member("ok", true);
            proof {
                lemma_members_push(fs@, m0);
            }
            fs.push(m0);
            let ghost ms = fs@;
            let s = to_json_string(&JsonValue::Object(fs));
            assert(s@ =~= seq!['{'] + json_quote("ok"@) + seq![':', 't', 'r', 'u', 'e', '}']);
            s
        },
        Err(e) => {
            let m0 = str_member("error", e.as_str());
            proof {
                lemma_members_push(fs@, m0);
            }
            fs.push(m0);
            let m1 = bool_member("ok", false);
            proof {
                lemma_members_push(fs@, m1);
            }
            fs.push(m1);
            let s = to_json_string(&JsonValue::Object(fs));
            assert(s@ =~= seq!['{'] + str_pair("error"@, e@) + seq![','] + json_quote("ok"@) + seq![
                ':',
                'f',
                'a',
                'l',
                's',
                'e',
                '}',
            ]);
            s
        },
    }
}

/// `v` is the JSON of `info`: its fields in declaration order, the
/// permissions as a nested object.
pub open spec fn is_info_json(v: JsonValue, info: PluginInfo) -> bool {
    &&& v matches JsonValue::Object(fs)
    &&& fs@.len() == 7
    &&& fs@[0].0@ == "id"@ && (fs@[0].1 matches JsonValue::Str(s) && s@ == info.id@)
    &&& fs@[1].0@ == "name"@ && (fs@[1].1 matches JsonValue::Str(s) && s@ == info.name@)
    &&& fs@[2].0@ == "version"@ && (fs@[2].1 matches JsonValue::Str(s) && s@ == info.version@)
    &&& fs@[3].0@ == "category"@ && (fs@[3].1 matches JsonValue::Str(s) && s@ == info.category@)
    &&& fs@[4].0@ == "description"@ && (fs@[4].1 matches JsonValue::Str(s) && s@ == info.description@)
    &&& fs@[5].0@ == "active"@ && fs@[5].1 == JsonValue::Bool(info.active)
    &&& fs@[6].0@ == "permissions"@ && (fs@[6].1 matches JsonValue::Object(ps) && {
        &&& ps@.len() == 5
        &&& ps@[0].0@ == "network"@ && ps@[0].1 == JsonValue::Bool(info.permissions.network)
        &&& ps@[1].0@ == "filesystem"@ && ps@[1].1 == JsonValue::Bool(info.permissions.filesystem)
        &&& ps@[2].0@ == "contacts"@ && ps@[2].1 == JsonValue::Bool(info.permissions.contacts)
        &&& ps@[3].0@ == "clipboard"@ && ps@[3].1 == JsonValue::Bool(info.permissions.clipboard)
        &&& ps@[4].0@ == "notifications"@ && ps@[4].1 == JsonValue::Bool(info.permissions.notifications)
    })
}

fn bool_member(key: &str, b: bool) -> (m: (String, JsonValue))
    ensures
        m.0@ == key@,
        m.1 == JsonValue::Bool(b),
{
    (String::from_str(key), JsonValue::Bool(b))
}

/// The JSON of a plugin's description.
pub fn info_json(info: &PluginInfo) -> (v: JsonValue)
    ensures
        is_info_json(v, *info),
{
    let mut ps: Vec<(String, JsonValue)> = Vec::new();
    ps.push(bool_member("network", info.permissions.network));
    ps.push(bool_member("filesystem", info.permissions.filesystem));
    ps.push(bool_member("contacts", info.permissions.contacts));
    ps.push(bool_member("clipboard", info.permissions.clipboard));
    ps.push(bool_member("notifications", info.permissions.notifications));
    let mut fs: Vec<(String, JsonValue)> = Vec::new();
    fs.push(str_member("id", info.id.as_str()));
    fs.push(str_member("name", info.name.as_str()));
    fs.push(str_member("version", info.version.as_str()));
    fs.push(str_member("category", info.category.as_str()));
    fs.push(str_member("description", info.description.as_str()));
    fs.push(bool_member("active", info.active));
    fs.push((String::from_str("permissions"), JsonValue::Object(ps)));
    JsonValue::Object(fs)
}

/// The JSON array of plugin descriptions.
pub fn infos_json(infos: &Vec<PluginInfo>) -> (s: String)
    ensures
        exists|items: Seq<JsonValue>| {
            &&& items.len() == infos@.len()
            &&& forall|i: int| 0 <= i < items.len() ==> is_info_json(#[trigger] items[i], infos@[i])
            &&& s@ == seq!['['] + items_text(items) + seq![']']
        },
{
    let mut items: Vec<JsonValue> = Vec::new();
    let mut i: usize = 0;
    while i < infos.len()
        invariant
            i <= infos@.len(),
            items@.len() == i,
            forall|j: int| 0 <= j < i ==> is_info_json(#[trigger] items@[j], infos@[j]),
        decreases infos@.len() - i,
    {
        items.push(info_json(&infos[i]));
        i = i + 1;
    }
    let ghost seq_items = items@;
    let v = JsonValue::Array(items);
    let s = to_json_string(&v);
    assert(s@ =~= seq!['['] + items_text(seq_items) + seq![']']);
    s
}

/// The answer to a load: `{"ok": true, "plugin": info}`, or
/// `{"error": text, "ok": false}`.
pub fn load_reply(r: &Result<PluginInfo, CoreError>) -> (s: String)
    ensures
        r matches Ok(info) ==> exists|pv: JsonValue| #[trigger] is_info_json(pv, *info) && s@ == seq!['{']
            + json_quote("ok"@) + seq![':', 't', 'r', 'u', 'e', ','] + json_quote("plugin"@) + seq![':'] + json_text(
            pv,
        ) + seq!['}'],
        r matches Err(e) ==> s@ == seq!['{'] + str_pair("error"@, error_text(*e)) + seq![','] + json_quote("ok"@)
            + seq![':', 'f', 'a', 'l', 's', 'e', '}'],
{
    match r {
        Ok(info) => {
            let mut fs: Vec<(String, JsonValue)> = Vec::new();
            let m0 = bool_member("ok", true);
            proof {
                lemma_members_push(fs@, m0);
            }
            fs.push(m0);
            let pv = info_json(info);
            let ghost pg = pv;
            let m1 = (String::from_str("plugin"), pv);
            proof {
                lemma_members_push(fs@, m1);
            }
            fs.push(m1);
            let s = to_json_string(&JsonValue::Object(fs));
            proof {
                assert(s@ =~= seq!['{'] + json_quote("ok"@) + seq![':', 't', 'r', 'u', 'e', ','] + json_quote(
                    "plugin"@,
                ) + seq![':'] + json_text(pg) + seq!['}']);
            }
            s
        },
        Err(e) => {
            let msg = e.message();
            send_reply(&Err(msg))
        },
    }
}

/// The JSON of an event: `{"kind": kind, "payload": payload}`.
pub fn event_json(e: &Event) -> (s: String)
    ensures
        s@ == seq!['{'] + str_pair("kind"@, e.kind@) + seq![','] + json_quote("payload"@) + seq![':'] + json_text(
            e.payload,
        ) + seq!['}'],
{
    let a = concat("{", quote_str("kind").as_str());
    let b = concat(a.as_str(), ":");
    let c = concat(b.as_str(), quote_str(e.kind.as_str()).as_str());
    let d = concat(c.as_str(), ",");
    let f = concat(d.as_str(), quote_str("payload").as_str());
    let g = concat(f.as_str(), ":");
    let h = concat(g.as_str(), to_json_string(&e.payload).as_str());
    let s = concat(h.as_str(), "}");
    proof {
        reveal_strlit("{");
        reveal_strlit(":");
        reveal_strlit(",");
        reveal_strlit("}");
    }
    assert(s@ =~= seq!['{'] + str_pair("kind"@, e.kind@) + seq![','] + json_quote("payload"@) + seq![':'] + json_text(
        e.payload,
    ) + seq!['}']);
    s
}

} // verus!
