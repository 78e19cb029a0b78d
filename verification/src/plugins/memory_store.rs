use vstd::prelude::*;
use crate::chat_log::{append_spec, group_of, lemma_append_other_keys, lemma_append_then_group, ChatLog};
use crate::json::{
    get_record_str, get_record_u64, parse_json, record_str, record_u64, str_member, to_json_string, u64_member,
    json_parse_spec, json_text, members_text, JsonValue,
};
use crate::text::{str_eq, utf8_bytes, utf8_decode};

verus! {

/// A message as the in-memory storage plugin keeps it.
#[derive(Debug)]
pub struct StoredMessage {
    pub from: String,
    pub to: String,
    pub text: String,
    pub timestamp: u64,
}

impl StoredMessage {
    /// An equal copy.
    pub fn duplicate(&self) -> (m: StoredMessage)
        ensures
            m == *self,
    {
        StoredMessage {
            from: self.from.clone(),
            to: self.to.clone(),
            text: self.text.clone(),
            timestamp: self.timestamp,
        }
    }
}

/// The conversation a message belongs to: the peer, i.e. the recipient of
/// what "me" sent and the sender of anything else.
pub open spec fn conversation_key_spec(from: Seq<char>, to: Seq<char>) -> Seq<char> {
    if from == "me"@ {
        to
    } else {
        from
    }
}

/// The conversation key of a message from `from` to `to`.
pub fn conversation_key(from: &str, to: &str) -> (k: String)
    ensures
        k@ == conversation_key_spec(from@, to@),
{
    if str_eq(from, "me") {
        String::from_str(to)
    } else {
        String::from_str(from)
    }
}

/// Messages grouped by conversation.
pub struct ConversationStore {
    log: ChatLog<StoredMessage>,
}

impl View for ConversationStore {
    type V = Map<Seq<char>, Seq<StoredMessage>>;

    closed spec fn view(&self) -> Self::V {
        self.log@
    }
}

/// The store after a message from `from` to `to` is kept.
pub open spec fn store_spec(
    m: Map<Seq<char>, Seq<StoredMessage>>,
    msg: StoredMessage,
) -> Map<Seq<char>, Seq<StoredMessage>> {
    append_spec(m, conversation_key_spec(msg.from@, msg.to@), msg)
}

/// `v` is the JSON form of `m`: an object with `from`, `to`, `text` and
/// `timestamp`, in that order.
pub open spec fn is_message_json(v: JsonValue, m: StoredMessage) -> bool {
    &&& v matches JsonValue::Object(fs)
    &&& fs@.len() == 4
    &&& fs@[0].0@ == "from"@ && (fs@[0].1 matches JsonValue::Str(s) && s@ == m.from@)
    &&& fs@[1].0@ == "to"@ && (fs@[1].1 matches JsonValue::Str(s) && s@ == m.to@)
    &&& fs@[2].0@ == "text"@ && (fs@[2].1 matches JsonValue::Str(s) && s@ == m.text@)
    &&& fs@[3].0@ == "timestamp"@ && fs@[3].1 == JsonValue::UInt(m.timestamp)
}

/// `v` is the JSON array of `ms`.
pub open spec fn is_messages_json(v: JsonValue, ms: Seq<StoredMessage>) -> bool {
    &&& v matches JsonValue::Array(items)
    &&& items@.len() == ms.len()
    &&& forall|i: int| 0 <= i < ms.len() ==> is_message_json(#[trigger] items@[i], ms[i])
}

/// The fields of a store request `{from, to, text, timestamp}`.
pub open spec fn store_request(doc: Option<JsonValue>) -> Option<(Seq<char>, Seq<char>, Seq<char>, u64)> {
    match doc {
        Some(v) => match (
            record_str(v, "from"@, 0, 4),
            record_str(v, "to"@, 1, 4),
            record_str(v, "text"@, 2, 4),
            record_u64(v, "timestamp"@, 3, 4),
        ) {
            (Some(f), Some(t), Some(x), Some(ts)) => Some((f, t, x, ts)),
            _ => None,
        },
        None => None,
    }
}

/// The contact of a read request `{contact}`.
pub open spec fn read_request(doc: Option<JsonValue>) -> Option<Seq<char>> {
    match doc {
        Some(v) => record_str(v, "contact"@, 0, 1),
        None => None,
    }
}

/// The JSON form of a message.
pub fn message_to_json(m: &StoredMessage) -> (v: JsonValue)
    ensures
        is_message_json(v, *m),
{
    let mut fs: Vec<(String, JsonValue)> = Vec::new();
    fs.push(str_member("from", m.from.as_str()));
    fs.push(str_member("to", m.to.as_str()));
    fs.push(str_member("text", m.text.as_str()));
    fs.push(u64_member("timestamp", m.timestamp));
    JsonValue::Object(fs)
}

/// The JSON array of `ms`.
pub fn messages_to_json(ms: &Vec<StoredMessage>) -> (v: JsonValue)
    ensures
        is_messages_json(v, ms@),
{
    let mut items: Vec<JsonValue> = Vec::new();
    let mut i: usize = 0;
    while i < ms.len()
        invariant
            i <= ms@.len(),
            items@.len() == i,
            forall|j: int| 0 <= j < i ==> is_message_json(#[trigger] items@[j], ms@[j]),
        decreases ms@.len() - i,
    {
        items.push(message_to_json(&ms[i]));
        i = i + 1;
    }
    JsonValue::Array(items)
}

/// Reads a store request.
pub fn parse_store_input(input: &str) -> (r: Option<StoredMessage>)
    ensures
        r is Some <==> store_request(json_parse_spec(input@)) is Some,
        r matches Some(m) ==> store_request(json_parse_spec(input@)) == Some(
            (m.from@, m.to@, m.text@, m.timestamp),
        ),
{
    match parse_json(input) {
        Some(v) => message_from_value(&v),
        None => None,
    }
}

/// A message by its views.
pub open spec fn msg_view(m: StoredMessage) -> (Seq<char>, Seq<char>, Seq<char>, u64) {
    (m.from@, m.to@, m.text@, m.timestamp)
}

/// Reads a message document `{from, to, text, timestamp}`.
pub fn message_from_value(v: &JsonValue) -> (r: Option<StoredMessage>)
    ensures
        r is Some <==> store_request(Some(*v)) is Some,
        r matches Some(m) ==> store_request(Some(*v)) == Some(msg_view(m)),
{
    let from = get_record_str(v, "from", 0, 4);
    let to = get_record_str(v, "to", 1, 4);
    let text = get_record_str(v, "text", 2, 4);
    let ts = get_record_u64(v, "timestamp", 3, 4);
    match (from, to, text, ts) {
        (Some(f), Some(t), Some(x), Some(n)) => Some(StoredMessage { from: f, to: t, text: x, timestamp: n }),
        _ => None,
    }
}

/// Reads a read request.
pub fn parse_read_input(input: &str) -> (r: Option<String>)
    ensures
        r is Some <==> read_request(json_parse_spec(input@)) is Some,
        r matches Some(c) ==> read_request(json_parse_spec(input@)) == Some(c@),
{
    match parse_json(input) {
        Some(v) => get_record_str(&v, "contact", 0, 1),
        None => None,
    }
}

impl ConversationStore {
    pub closed spec fn wf(&self) -> bool {
        self.log.wf()
    }

    /// An empty store.
    pub fn new() -> (s: Self)
        ensures
            s.wf(),
            s@ == Map::<Seq<char>, Seq<StoredMessage>>::empty(),
    {
        ConversationStore { log: ChatLog::new() }
    }

    /// Keeps a message under its conversation.
    pub fn store(&mut self, msg: StoredMessage)
        requires
            old(self).wf(),
        ensures
            final(self).wf(),
            final(self)@ == store_spec(old(self)@, msg),
            forall|c: Seq<char>| #[trigger] group_of(final(self)@, c) == if c == conversation_key_spec(msg.from@, msg.to@) {
                group_of(old(self)@, c).push(msg)
            } else {
                group_of(old(self)@, c)
            },
    {
        let key = conversation_key(msg.from.as_str(), msg.to.as_str());
        let ghost m = msg;
        self.log.append(key.as_str(), msg);
        proof {
            assert forall|c: Seq<char>| #[trigger] group_of(self@, c) == if c == conversation_key_spec(m.from@, m.to@) {
                group_of(old(self)@, c).push(m)
            } else {
                group_of(old(self)@, c)
            } by {
                lemma_store_then_messages(old(self)@, m, c);
            }
        }
    }

    /// The messages of the conversation with `contact`, oldest first.
    pub fn messages(&self, contact: &str) -> (r: Vec<StoredMessage>)
        requires
            self.wf(),
        ensures
            r@ == group_of(self@, contact@),
    {
        match self.log.get(contact) {
            Some(v) => {
                let mut w: Vec<StoredMessage> = Vec::new();
                let mut i: usize = 0;
                while i < v.len()
                    invariant
                        i <= v@.len(),
                        w@ == v@.subrange(0, i as int),
                    decreases v@.len() - i,
                {
                    w.push(v[i].duplicate());
                    i = i + 1;
                    assert(w@ =~= v@.subrange(0, i as int));
                }
                assert(w@ =~= v@);
                w
            },
            None => Vec::new(),
        }
    }

    /// Forgets every conversation.
    pub fn clear(&mut self)
        ensures
            final(self).wf(),
            final(self)@ == Map::<Seq<char>, Seq<StoredMessage>>::empty(),
    {
        self.log.clear();
    }
}

/// A read after a store: the conversation the message belongs to ends with
/// it, after what it held before; every other conversation reads as before.
pub proof fn lemma_store_then_messages(m: Map<Seq<char>, Seq<StoredMessage>>, msg: StoredMessage, contact: Seq<char>)
    ensures
        contact == conversation_key_spec(msg.from@, msg.to@) ==> group_of(store_spec(m, msg), contact)
            == group_of(m, contact).push(msg),
        contact != conversation_key_spec(msg.from@, msg.to@) ==> group_of(store_spec(m, msg), contact)
            == group_of(m, contact),
{
    let key = conversation_key_spec(msg.from@, msg.to@);
    lemma_append_then_group(m, key, msg);
    if contact != key {
        lemma_append_other_keys(m, key, msg, contact);
    }
}

/// The plugin's reply to a store that succeeded.
pub open spec fn ok_reply() -> Seq<char> {
    "{\"ok\":true}"@
}

/// The plugin's `store_message`: keeps the message named by the JSON request.
/// Fails, leaving the store as it was, when the request is not a store request.
pub fn store_message(store: &mut ConversationStore, input: &str) -> (r: Result<String, String>)
    requires
        old(store).wf(),
    ensures
        final(store).wf(),
        r is Ok <==> store_request(json_parse_spec(input@)) is Some,
        r matches Ok(s) ==> s@ == ok_reply(),
        r is Ok ==> exists|m: StoredMessage|
            store_request(json_parse_spec(input@)) == Some((m.from@, m.to@, m.text@, m.timestamp))
                && final(store)@ == store_spec(old(store)@, m) && forall|c: Seq<char>| #[trigger] group_of(
                final(store)@,
                c,
            ) == if c == conversation_key_spec(m.from@, m.to@) {
                group_of(old(store)@, c).push(m)
            } else {
                group_of(old(store)@, c)
            },
        r is Err ==> final(store)@ == old(store)@,
{
    match parse_store_input(input) {
        Some(m) => {
            store.store(m);
            Ok(String::from_str("{\"ok\":true}"))
        },
        None => Err(String::from_str("invalid store request")),
    }
}

/// The plugin's `get_messages`: the JSON array of the conversation with the
/// requested contact.
pub fn get_messages(store: &ConversationStore, input: &str) -> (r: Result<String, String>)
    requires
        store.wf(),
    ensures
        r is Ok <==> read_request(json_parse_spec(input@)) is Some,
        r matches Ok(s) ==> exists|v: JsonValue|
            is_messages_json(v, group_of(store@, read_request(json_parse_spec(input@))->0))
                && s@ == json_text(v),
{
    match parse_read_input(input) {
        Some(contact) => {
            let ms = store.messages(contact.as_str());
            let v = messages_to_json(&ms);
            Ok(to_json_string(&v))
        },
        None => Err(String::from_str("invalid read request")),
    }
}

/// The plugin's `clear`: forgets every conversation.
pub fn clear(store: &mut ConversationStore) -> (r: String)
    ensures
        final(store).wf(),
        final(store)@ == Map::<Seq<char>, Seq<StoredMessage>>::empty(),
        r@ == ok_reply(),
{
    store.clear();
    String::from_str("{\"ok\":true}")
}

} // verus!

verus! {

/// The messages of an array document, when each item is a message document.
pub open spec fn messages_of(v: JsonValue) -> Option<Seq<(Seq<char>, Seq<char>, Seq<char>, u64)>> {
    match v {
        JsonValue::Array(items) => if forall|i: int| 0 <= i < items@.len() ==> #[trigger] store_request(Some(items@[i])) is Some {
            Some(Seq::new(items@.len(), |i: int| store_request(Some(items@[i]))->0))
        } else {
            None
        },
        _ => None,
    }
}

/// The conversations a saved store holds, in member order: `None` unless
/// it is the UTF-8 JSON of an object each of whose members is an array of
/// message documents.
pub open spec fn saved_entries(bytes: Seq<u8>) -> Option<Seq<(Seq<char>, Seq<(Seq<char>, Seq<char>, Seq<char>, u64)>)>> {
    if !vstd::utf8::valid_utf8(bytes) {
        None
    } else {
        match json_parse_spec(vstd::utf8::decode_utf8(bytes)) {
            Some(JsonValue::Object(fs)) => if forall|i: int| 0 <= i < fs@.len() ==> #[trigger] messages_of(fs@[i].1) is Some {
                Some(Seq::new(fs@.len(), |i: int| (fs@[i].0@, messages_of(fs@[i].1)->0)))
            } else {
                None
            },
            _ => None,
        }
    }
}

/// The conversations after putting each in turn, a later one under a key
/// replacing an earlier one.
pub open spec fn saved_groups(es: Seq<(Seq<char>, Seq<(Seq<char>, Seq<char>, Seq<char>, u64)>)>) -> Map<
    Seq<char>,
    Seq<(Seq<char>, Seq<char>, Seq<char>, u64)>,
>
    decreases es.len(),
{
    if es.len() == 0 {
        Map::empty()
    } else {
        saved_groups(es.drop_last()).insert(es.last().0, es.last().1)
    }
}

/// What a saved store gives: its conversations, or none when there is no
/// saved store or it does not read.
pub open spec fn saved_store(saved: Option<Seq<u8>>) -> Map<Seq<char>, Seq<(Seq<char>, Seq<char>, Seq<char>, u64)>> {
    match saved {
        Some(b) => match saved_entries(b) {
            Some(es) => saved_groups(es),
            None => Map::empty(),
        },
        None => Map::empty(),
    }
}

/// The conversations by the views of their messages.
pub open spec fn store_views(m: Map<Seq<char>, Seq<StoredMessage>>) -> Map<Seq<char>, Seq<(Seq<char>, Seq<char>, Seq<char>, u64)>> {
    Map::new(|k: Seq<char>| m.contains_key(k), |k: Seq<char>| m[k].map_values(|x: StoredMessage| msg_view(x)))
}

/// Reads an array of message documents.
fn messages_from_value(v: &JsonValue) -> (r: Option<Vec<StoredMessage>>)
    ensures
        r is Some <==> messages_of(*v) is Some,
        r matches Some(ms) ==> messages_of(*v) == Some(ms@.map_values(|x: StoredMessage| msg_view(x))),
{
    let items = match v {
        JsonValue::Array(items) => items,
        _ => {
            return None;
        },
    };
    let mut out: Vec<StoredMessage> = Vec::new();
    let mut i: usize = 0;
    while i < items.len()
        invariant
            *v == JsonValue::Array(*items),
            i <= items@.len(),
            out@.len() == i,
            forall|k: int| 0 <= k < i ==> #[trigger] store_request(Some(items@[k])) == Some(msg_view(out@[k])),
        decreases items@.len() - i,
    {
        match message_from_value(&items[i]) {
            Some(m) => out.push(m),
            None => {
                return None;
            },
        }
        i = i + 1;
    }
    proof {
        assert forall|k: int| 0 <= k < items@.len() implies #[trigger] store_request(Some(items@[k])) is Some by {
            assert(store_request(Some(items@[k])) == Some(msg_view(out@[k])));
        }
        assert(out@.map_values(|x: StoredMessage| msg_view(x)) =~= Seq::new(
            items@.len(),
            |k: int| store_request(Some(items@[k]))->0,
        ));
    }
    Some(out)
}

impl ConversationStore {
    /// The saved form of the store: the UTF-8 JSON object from each
    /// conversation key to the array of its messages.
    pub fn saved_bytes(&self) -> (b: Vec<u8>)
        requires
            self.wf(),
        ensures
            exists|fs: Seq<(String, JsonValue)>| {
                &&& fs.len() == self@.dom().len()
                &&& forall|i: int, j: int| 0 <= i < j < fs.len() ==> fs[i].0@ != fs[j].0@
                &&& forall|i: int| 0 <= i < fs.len() ==> self@.contains_key(#[trigger] fs[i].0@) && is_messages_json(
                    fs[i].1,
                    self@[fs[i].0@],
                )
                &&& b@ == vstd::utf8::encode_utf8(seq!['{'] + members_text(fs) + seq!['}'])
            },
    {
        let groups = self.log.groups();
        proof {
            self.log.lemma_key_count();
        }
        let mut fs: Vec<(String, JsonValue)> = Vec::new();
        let mut i: usize = 0;
        while i < groups.len()
            invariant
                self.wf(),
                groups@ == self.log.seq(),
                i <= groups@.len(),
                fs@.len() == i,
                forall|k: int| 0 <= k < i ==> (#[trigger] fs@[k]).0@ == groups@[k].0@ && is_messages_json(
                    fs@[k].1,
                    groups@[k].1@,
                ),
            decreases groups@.len() - i,
        {
            fs.push((groups[i].0.clone(), messages_to_json(&groups[i].1)));
            i = i + 1;
        }
        let ghost fsv = fs@;
        proof {
            assert forall|k: int| 0 <= k < fsv.len() implies self@.contains_key(#[trigger] fsv[k].0@) && is_messages_json(
                fsv[k].1,
                self@[fsv[k].0@],
            ) by {
                self.log.lemma_group_at(k);
            }
            assert forall|a: int, c: int| 0 <= a < c < fsv.len() implies fsv[a].0@ != fsv[c].0@ by {
                self.log.lemma_view();
                assert(fsv[a].0@ == groups@[a].0@);
                assert(fsv[c].0@ == groups@[c].0@);
            }
        }
        let s = to_json_string(&JsonValue::Object(fs));
        assert(s@ =~= seq!['{'] + members_text(fsv) + seq!['}']);
        utf8_bytes(s.as_str())
    }

    /// The store a saved store holds; an empty one when there is none or it
    /// does not read.
    pub fn from_saved_bytes(saved: Option<&[u8]>) -> (s: Self)
        ensures
            s.wf(),
            store_views(s@) == saved_store(
                match saved {
                    Some(b) => Some(b@),
                    None => None,
                },
            ),
    {
        let empty = ConversationStore::new();
        proof {
            assert(store_views(empty@) =~= Map::empty());
        }
        let bytes = match saved {
            Some(b) => b,
            None => {
                return empty;
            },
        };
        let text = match utf8_decode(bytes) {
            Ok(t) => t,
            Err(_) => {
                return empty;
            },
        };
        let fs = match parse_json(text.as_str()) {
            Some(JsonValue::Object(fs)) => fs,
            _ => {
                return empty;
            },
        };
        let mut read: Vec<(String, Vec<StoredMessage>)> = Vec::new();
        let mut i: usize = 0;
        while i < fs.len()
            invariant
                empty.wf(),
                store_views(empty@) == Map::<Seq<char>, Seq<(Seq<char>, Seq<char>, Seq<char>, u64)>>::empty(),
                saved matches Some(b) && b@ == bytes@,
                vstd::utf8::valid_utf8(bytes@),
                json_parse_spec(vstd::utf8::decode_utf8(bytes@)) == Some(JsonValue::Object(fs)),
                i <= fs@.len(),
                read@.len() == i,
                forall|k: int| 0 <= k < i ==> #[trigger] messages_of(fs@[k].1) == Some(
                    read@[k].1@.map_values(|x: StoredMessage| msg_view(x)),
                ) && read@[k].0@ == fs@[k].0@,
            decreases fs@.len() - i,
        {
            match messages_from_value(&fs[i].1) {
                Some(ms) => {
                    read.push((fs[i].0.clone(), ms));
                },
                None => {
                    return empty;
                },
            }
            i = i + 1;
        }
        let ghost all = Seq::new(fs@.len(), |k: int| (fs@[k].0@, messages_of(fs@[k].1)->0));
        proof {
            assert forall|k: int| 0 <= k < fs@.len() implies #[trigger] messages_of(fs@[k].1) is Some by {
                assert(messages_of(fs@[k].1) == Some(read@[k].1@.map_values(|x: StoredMessage| msg_view(x))));
            }
            assert(saved_entries(bytes@) == Some(all));
        }
        let mut log: ChatLog<StoredMessage> = ChatLog::new();
        proof {
            assert(store_views(log@) =~= saved_groups(all.take(0)));
        }
        let mut read = read;
        let mut j: usize = 0;
        let ghost rv = read@;
        while read.len() > 0
            invariant
                log.wf(),
                j + read@.len() == rv.len(),
                rv.len() <= usize::MAX,
                read@ == rv.subrange(j as int, rv.len() as int),
                rv.len() == all.len(),
                forall|k: int| 0 <= k < rv.len() ==> #[trigger] all[k] == (rv[k].0@, rv[k].1@.map_values(|x: StoredMessage| msg_view(x))),
                store_views(log@) == saved_groups(all.take(j as int)),
            decreases read@.len(),
        {
            let ghost before = log@;
            let ghost rest = read@;
            let (key, ms) = read.remove(0);
            proof {
                assert(rest[0] == rv[j as int]);
                assert(read@ =~= rv.subrange(j + 1, rv.len() as int));
            }
            let ghost kv = key@;
            let ghost mv = ms@;
            log.put_group(key, ms);
            proof {
                assert(all.take(j + 1).drop_last() =~= all.take(j as int));
                assert(all.take(j + 1).last() == all[j as int]);
                assert(store_views(log@) =~= store_views(before).insert(kv, mv.map_values(|x: StoredMessage| msg_view(x))));
            }
            j = j + 1;
        }
        assert(all.take(j as int) =~= all);
        ConversationStore { log }
    }
}

} // verus!
