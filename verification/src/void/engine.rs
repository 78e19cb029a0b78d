use vstd::prelude::*;
use crate::chat_log::{append_spec, group_of};
use crate::clock::{new_uuid_v4, unix_now_secs};
use crate::json::{bool_field, flat_object, items_text, json_text, parse_json_result, reads_same, str_field, str_member, to_json_string, u64_field, u64_member, JsonValue};
use crate::json::{get_record_field, get_record_str, get_record_u64, record_field, record_str, record_u64};
use crate::text::{utf8_bytes, utf8_decode};
use crate::void::crypto::{Crypto, MAX_PLAINTEXT};
use crate::void::storage::Storage;
use crate::void::transport::Transport;
use crate::void::transport_log::TransportLog;
use crate::void::types::Message;

verus! {

/// `v` is the JSON of `m`: `id`, `chat_id`, `text`, `timestamp` and
/// `incoming`, in that order.
pub open spec fn message_doc(v: JsonValue, m: Message) -> bool {
    &&& v matches JsonValue::Object(fs)
    &&& fs@.len() == 5
    &&& fs@[0].0@ == "id"@ && (fs@[0].1 matches JsonValue::Str(s) && s@ == m.id@)
    &&& fs@[1].0@ == "chat_id"@ && (fs@[1].1 matches JsonValue::Str(s) && s@ == m.chat_id@)
    &&& fs@[2].0@ == "text"@ && (fs@[2].1 matches JsonValue::Str(s) && s@ == m.text@)
    &&& fs@[3].0@ == "timestamp"@ && fs@[3].1 == JsonValue::UInt(m.timestamp)
    &&& fs@[4].0@ == "incoming"@ && fs@[4].1 == JsonValue::Bool(m.incoming)
}

/// The fields of a message document.
pub open spec fn doc_message_fields(v: JsonValue) -> Option<(Seq<char>, Seq<char>, Seq<char>, u64, bool)> {
    match (
        record_str(v, "id"@, 0, 5),
        record_str(v, "chat_id"@, 1, 5),
        record_str(v, "text"@, 2, 5),
        record_u64(v, "timestamp"@, 3, 5),
        match record_field(v, "incoming"@, 4, 5) {
            Some(JsonValue::Bool(b)) => Some(b),
            _ => None,
        },
    ) {
        (Some(id), Some(c), Some(t), Some(ts), Some(inc)) => Some((id, c, t, ts, inc)),
        _ => None,
    }
}

/// The fields of `m`.
pub open spec fn fields_of(m: Message) -> (Seq<char>, Seq<char>, Seq<char>, u64, bool) {
    (m.id@, m.chat_id@, m.text@, m.timestamp, m.incoming)
}

/// What a message read from `bytes` holds: the fields of the JSON object
/// the UTF-8 text is, when it has them all.
pub open spec fn message_of_bytes(bytes: Seq<u8>) -> Option<(Seq<char>, Seq<char>, Seq<char>, u64, bool)> {
    if !vstd::utf8::valid_utf8(bytes) {
        None
    } else {
        match crate::json::json_parse_spec(vstd::utf8::decode_utf8(bytes)) {
            Some(v) => doc_message_fields(v),
            None => None,
        }
    }
}

/// The JSON document of a message.
pub fn message_value(m: &Message) -> (v: JsonValue)
    ensures
        message_doc(v, *m),
        flat_object(v),
{
    let mut fs: Vec<(String, JsonValue)> = Vec::new();
    fs.push(str_member("id", m.id.as_str()));
    fs.push(str_member("chat_id", m.chat_id.as_str()));
    fs.push(str_member("text", m.text.as_str()));
    fs.push(u64_member("timestamp", m.timestamp));
    fs.push((String::from_str("incoming"), JsonValue::Bool(m.incoming)));
    let v = JsonValue::Object(fs);
    proof {
        reveal_strlit("id");
        reveal_strlit("chat_id");
        reveal_strlit("text");
        reveal_strlit("timestamp");
        reveal_strlit("incoming");
        assert(message_doc(v, *m));
        let ms = v->Object_0@;
        assert forall|i: int, j: int| 0 <= i < j < ms.len() implies ms[i].0@ != ms[j].0@ by {
            assert(ms[i].0@ != ms[j].0@) by {
                if i == 0 { assert(ms[i].0@[0] == 'i'); }
                if i == 1 { assert(ms[i].0@[0] == 'c'); }
                if i == 2 { assert(ms[i].0@.len() == 4); }
                if i == 3 { assert(ms[i].0@.len() == 9); }
                if j == 1 { assert(ms[j].0@[0] == 'c'); }
                if j == 2 { assert(ms[j].0@.len() == 4 && ms[j].0@[0] == 't'); }
                if j == 3 { assert(ms[j].0@.len() == 9 && ms[j].0@[0] == 't'); }
                if j == 4 { assert(ms[j].0@.len() == 8 && ms[j].0@[0] == 'i'); }
            }
        }
        assert(flat_object(v));
    }
    v
}

/// The UTF-8 JSON of a message.
pub fn message_bytes(m: &Message) -> (b: Vec<u8>)
    ensures
        exists|v: JsonValue| #[trigger] message_doc(v, *m) && flat_object(v) && b@ == vstd::utf8::encode_utf8(json_text(v)),
{
    let v = message_value(m);
    let s = to_json_string(&v);
    utf8_bytes(s.as_str())
}

/// The UTF-8 JSON array of messages, in order.
pub fn history_json(msgs: &Vec<Message>) -> (b: Vec<u8>)
    ensures
        exists|items: Seq<JsonValue>| {
            &&& items.len() == msgs@.len()
            &&& forall|i: int| 0 <= i < items.len() ==> #[trigger] message_doc(items[i], msgs@[i])
            &&& b@ == vstd::utf8::encode_utf8(seq!['['] + items_text(items) + seq![']'])
        },
{
    let mut items: Vec<JsonValue> = Vec::new();
    let mut i: usize = 0;
    while i < msgs.len()
        invariant
            i <= msgs@.len(),
            items@.len() == i,
            forall|k: int| 0 <= k < i ==> #[trigger] message_doc(items@[k], msgs@[k]),
        decreases msgs@.len() - i,
    {
        items.push(message_value(&msgs[i]));
        i = i + 1;
    }
    let ghost its = items@;
    let s = to_json_string(&JsonValue::Array(items));
    assert(s@ =~= seq!['['] + items_text(its) + seq![']']);
    utf8_bytes(s.as_str())
}

/// Reads a message from bytes: `None` unless they are the UTF-8 JSON of an
/// object with all five fields.  The JSON of a message reads back as that
/// message.
pub fn message_from_bytes(b: &[u8]) -> (r: Option<Message>)
    ensures
        r is Some <==> message_of_bytes(b@) is Some,
        r matches Some(m) ==> message_of_bytes(b@) == Some(fields_of(m)),
        forall|v: JsonValue, m: Message| #[trigger] message_doc(v, m) && flat_object(v) && b@ == vstd::utf8::encode_utf8(
            json_text(v),
        ) ==> (r matches Some(x) && fields_of(x) == fields_of(m)),
{
    proof {
        assert forall|v: JsonValue| #[trigger] flat_object(v) && b@ == vstd::utf8::encode_utf8(json_text(v)) implies
            vstd::utf8::valid_utf8(b@) && vstd::utf8::decode_utf8(b@) == json_text(v) by {
            vstd::utf8::encode_utf8_valid_utf8(json_text(v));
            vstd::utf8::encode_utf8_decode_utf8(json_text(v));
        }
    }
    let text = match utf8_decode(b) {
        Ok(t) => t,
        Err(_) => {
            return None;
        },
    };
    let doc = match parse_json_result(text.as_str()) {
        Ok(v) => v,
        Err(_) => {
            return None;
        },
    };
    let id = get_record_str(&doc, "id", 0, 5);
    let chat_id = get_record_str(&doc, "chat_id", 1, 5);
    let t = get_record_str(&doc, "text", 2, 5);
    let ts = get_record_u64(&doc, "timestamp", 3, 5);
    let inc = match get_record_field(&doc, "incoming", 4, 5) {
        Some(JsonValue::Bool(x)) => Some(*x),
        _ => None,
    };
    proof {
        assert forall|v: JsonValue, m: Message| #[trigger] message_doc(v, m) && flat_object(v) && b@
            == vstd::utf8::encode_utf8(json_text(v)) implies doc_message_fields(doc) == Some(fields_of(m)) by {
            assert(json_text(v) == text@);
            assert(reads_same(doc, v));
            assert(str_field(doc, "id"@) == str_field(v, "id"@));
            assert(str_field(doc, "chat_id"@) == str_field(v, "chat_id"@));
            assert(str_field(doc, "text"@) == str_field(v, "text"@));
            assert(u64_field(doc, "timestamp"@) == u64_field(v, "timestamp"@));
            assert(bool_field(doc, "incoming"@) == bool_field(v, "incoming"@));
            lemma_message_doc_fields(v, m);
        }
    }
    match (id, chat_id, t, ts, inc) {
        (Some(id), Some(chat_id), Some(text), Some(timestamp), Some(incoming)) => Some(
            Message { id, chat_id, text, timestamp, incoming },
        ),
        _ => None,
    }
}

proof fn lemma_message_doc_fields(v: JsonValue, m: Message)
    requires
        message_doc(v, m),
    ensures
        doc_message_fields(v) == Some(fields_of(m)),
{
    reveal_strlit("id");
    reveal_strlit("chat_id");
    reveal_strlit("text");
    reveal_strlit("timestamp");
    reveal_strlit("incoming");
    let fs = v->Object_0@;
    assert("id"@.len() == 2 && "chat_id"@.len() == 7 && "text"@.len() == 4);
    assert("timestamp"@.len() == 9 && "incoming"@.len() == 8);
    assert(fs[1].0@ != "id"@);
    assert(fs[2].0@ != "id"@ && fs[2].0@ != "chat_id"@);
    assert(fs[3].0@ != "id"@ && fs[3].0@ != "chat_id"@ && fs[3].0@ != "text"@);
    assert(fs[4].0@ != "id"@ && fs[4].0@ != "chat_id"@ && fs[4].0@ != "text"@ && fs[4].0@ != "timestamp"@);
    assert(fs.drop_first()[0] == fs[1]);
    assert(fs.drop_first().drop_first()[0] == fs[2]);
    assert(fs.drop_first().drop_first().drop_first()[0] == fs[3]);
    assert(fs.drop_first().drop_first().drop_first().drop_first()[0] == fs[4]);
    reveal_with_fuel(crate::json::member, 6);
    assert(crate::json::member(fs, "id"@) == Some(fs[0].1));
    assert(crate::json::member(fs, "chat_id"@) == Some(fs[1].1));
    assert(crate::json::member(fs, "text"@) == Some(fs[2].1));
    assert(crate::json::member(fs, "timestamp"@) == Some(fs[3].1));
    assert(crate::json::member(fs, "incoming"@) == Some(fs[4].1));
}

/// The peer-to-peer messenger: where chats are kept, how messages are
/// sealed, and the ways to reach peers.
pub struct VoidEngine<S, C, T> {
    storage: S,
    crypto: C,
    transports: Vec<T>,
    log: TransportLog,
}

/// One call of a transport: `"send"` or `"recv"`, the transport's position,
/// the peer's address (empty for `"recv"`), and the bytes handed over or
/// received (`None` when `recv` had nothing).
pub type TransportCall = (Seq<char>, int, Seq<char>, Option<Seq<u8>>);

/// `b` is the UTF-8 JSON of `m`, as `message_bytes` writes it.
pub open spec fn is_message_bytes(b: Seq<u8>, m: Message) -> bool {
    exists|v: JsonValue| #[trigger] message_doc(v, m) && flat_object(v) && b == vstd::utf8::encode_utf8(json_text(v))
}

/// `sealed` handed to each of `n` transports in turn, for the peer at `addr`.
pub open spec fn sends_to(n: nat, addr: Seq<char>, sealed: Seq<u8>) -> Seq<TransportCall> {
    Seq::new(n, |i: int| ("send"@, i, addr, Some(sealed)))
}

/// Transports `0..` asked in turn, each giving what `polled` holds.
pub open spec fn recvs_of(polled: Seq<Option<Seq<u8>>>) -> Seq<TransportCall> {
    Seq::new(polled.len(), |i: int| ("recv"@, i, Seq::<char>::empty(), polled[i]))
}

impl<S: Storage, C: Crypto, T: Transport> VoidEngine<S, C, T> {
    pub closed spec fn wf(&self) -> bool {
        self.storage.inv()
    }

    /// The chats kept so far.
    pub closed spec fn chats_view(&self) -> Map<Seq<char>, Seq<Message>> {
        self.storage.contents()
    }

    /// The transport calls made so far, oldest first.
    pub closed spec fn transport_calls(&self) -> Seq<TransportCall> {
        self.log.records()
    }

    /// How many transports the engine has.
    pub closed spec fn transport_count(&self) -> nat {
        self.transports@.len()
    }

    /// What the engine's sealer opens `sealed` to.
    pub closed spec fn opens(&self, sealed: Seq<u8>) -> Option<Seq<u8>> {
        self.crypto.opens(sealed)
    }

    /// An engine over the given parts.
    pub fn new(storage: S, crypto: C, transports: Vec<T>) -> (e: Self)
        requires
            storage.inv(),
        ensures
            e.wf(),
            e.chats_view() == storage.contents(),
            forall|s: Seq<u8>| e.opens(s) == crypto.opens(s),
            e.transport_calls() == Seq::<TransportCall>::empty(),
            e.transport_count() == transports@.len(),
    {
        VoidEngine { storage, crypto, transports, log: TransportLog::new() }
    }

    /// The messages of one chat, oldest first.
    pub fn history(&self, chat_id: &str) -> (h: Vec<Message>)
        requires
            self.wf(),
        ensures
            h@ == group_of(self.chats_view(), chat_id@),
    {
        self.storage.history(chat_id)
    }

    /// Sends `text` in chat `chat_id` to the peer at `peer_addr`: the message
    /// (a fresh UUID as its id, the current time, outgoing) is kept, and its
    /// sealed JSON handed to every transport, as `send_msg_with` says.
    /// Returns the message kept.
    pub fn send_msg(&mut self, chat_id: &str, text: &str, peer_addr: &str) -> (m: Message)
        requires
            old(self).wf(),
        ensures
            final(self).wf(),
            m.chat_id@ == chat_id@,
            m.text@ == text@,
            !m.incoming,
            m.id@.len() == 36,
            final(self).chats_view() == append_spec(old(self).chats_view(), chat_id@, m),
            forall|s: Seq<u8>| final(self).opens(s) == old(self).opens(s),
            final(self).transport_count() == old(self).transport_count(),
            exists|b: Seq<u8>| #[trigger] is_message_bytes(b, m) && (b.len() <= MAX_PLAINTEXT ==> exists|sealed: Seq<u8>|
                #[trigger] old(self).opens(sealed) == Some(b) && final(self).transport_calls() == old(self).transport_calls()
                    + sends_to(old(self).transport_count(), peer_addr@, sealed)) && (b.len() > MAX_PLAINTEXT
                ==> final(self).transport_calls() == old(self).transport_calls()),
    {
        let id = new_uuid_v4();
        let ts = unix_now_secs();
        self.send_msg_with(chat_id, text, peer_addr, id, ts)
    }

    /// Sends `text` in chat `chat_id` to the peer at `peer_addr` as the
    /// outgoing message with id `id` and time `timestamp`: the message is
    /// kept, then its JSON is sealed and handed to every transport, in order,
    /// their outcomes ignored.  A message too long to seal is kept but not
    /// sent.  Returns the message kept.
    pub fn send_msg_with(&mut self, chat_id: &str, text: &str, peer_addr: &str, id: String, timestamp: u64) -> (m: Message)
        requires
            old(self).wf(),
        ensures
            final(self).wf(),
            m.chat_id@ == chat_id@,
            m.text@ == text@,
            !m.incoming,
            m.id@ == id@,
            m.timestamp == timestamp,
            final(self).chats_view() == append_spec(old(self).chats_view(), chat_id@, m),
            forall|s: Seq<u8>| final(self).opens(s) == old(self).opens(s),
            final(self).transport_count() == old(self).transport_count(),
            exists|b: Seq<u8>| #[trigger] is_message_bytes(b, m) && (b.len() <= MAX_PLAINTEXT ==> exists|sealed: Seq<u8>|
                #[trigger] old(self).opens(sealed) == Some(b) && final(self).transport_calls() == old(self).transport_calls()
                    + sends_to(old(self).transport_count(), peer_addr@, sealed)) && (b.len() > MAX_PLAINTEXT
                ==> final(self).transport_calls() == old(self).transport_calls()),
    {
        let msg = Message {
            id,
            chat_id: String::from_str(chat_id),
            text: String::from_str(text),
            timestamp,
            incoming: false,
        };
        self.storage.save(&msg);
        let bytes = message_bytes(&msg);
        assert(is_message_bytes(bytes@, msg));
        if bytes.len() as u64 <= MAX_PLAINTEXT {
            let sealed = self.crypto.encrypt(bytes.as_slice());
            let ghost start = self.log.records();
            let ghost st = self.storage;
            let mut i: usize = 0;
            while i < self.transports.len()
                invariant
                    self.storage == st,
                    self.crypto == old(self).crypto,
                    i <= self.transports@.len(),
                    self.transports@.len() == old(self).transports@.len(),
                    self.log.records() == start + sends_to(i as nat, peer_addr@, sealed@),
                decreases self.transports@.len() - i,
            {
                let _ = self.log.send(&self.transports[i], i, peer_addr, sealed.as_slice());
                assert(sends_to((i + 1) as nat, peer_addr@, sealed@) =~= sends_to(i as nat, peer_addr@, sealed@).push(
                    ("send"@, i as int, peer_addr@, Some(sealed@)),
                ));
                i = i + 1;
            }
            assert(old(self).opens(sealed@) == Some(bytes@));
            assert(self.log.records() == old(self).log.records() + sends_to(old(self).transports@.len(), peer_addr@, sealed@));
        } else {
            assert(self.log.records() == old(self).log.records());
        }
        msg
    }

    /// Takes in sealed bytes from a peer: they are opened and read, the
    /// message is marked incoming, kept, and returned.  `None`, changing
    /// nothing, when they do not open or the plaintext is no message.
    pub fn receive_sealed(&mut self, data: &[u8]) -> (r: Option<Message>)
        requires
            old(self).wf(),
        ensures
            final(self).wf(),
            forall|s: Seq<u8>| final(self).opens(s) == old(self).opens(s),
            r is Some <==> (old(self).opens(data@) matches Some(p) && message_of_bytes(p) is Some),
            final(self).transport_calls() == old(self).transport_calls(),
            final(self).transport_count() == old(self).transport_count(),
            r is None ==> final(self).chats_view() == old(self).chats_view(),
            r matches Some(m) ==> {
                &&& m.incoming
                &&& old(self).opens(data@) matches Some(p) && message_of_bytes(p) matches Some(f) && f.0 == m.id@
                    && f.1 == m.chat_id@ && f.2 == m.text@ && f.3 == m.timestamp
                &&& final(self).chats_view() == append_spec(old(self).chats_view(), m.chat_id@, m)
            },
    {
        let plain = match self.crypto.decrypt(data) {
            Some(p) => p,
            None => {
                return None;
            },
        };
        let mut msg = match message_from_bytes(plain.as_slice()) {
            Some(m) => m,
            None => {
                return None;
            },
        };
        let ghost read = msg;
        msg.incoming = true;
        proof {
            assert(message_of_bytes(plain@) == Some(fields_of(read)));
        }
        self.storage.save(&msg);
        Some(msg)
    }

    /// Takes the oldest message of the first transport that has one and
    /// hands it to `receive_sealed`.  `None` when no transport has a
    /// message, or when the message does not open or read.
    pub fn poll(&mut self) -> (r: Option<Message>)
        requires
            old(self).wf(),
        ensures
            final(self).wf(),
            forall|s: Seq<u8>| final(self).opens(s) == old(self).opens(s),
            r is None ==> final(self).chats_view() == old(self).chats_view(),
            r matches Some(m) ==> {
                &&& m.incoming
                &&& final(self).chats_view() == append_spec(old(self).chats_view(), m.chat_id@, m)
                &&& exists|data: Seq<u8>, plain: Seq<u8>| #![trigger old(self).opens(data), message_of_bytes(plain)]
                    old(self).opens(data) == Some(plain) && (message_of_bytes(plain) matches Some(f) && f.0 == m.id@
                    && f.1 == m.chat_id@ && f.2 == m.text@ && f.3 == m.timestamp)
            },
            final(self).transport_count() == old(self).transport_count(),
            exists|polled: Seq<Option<Seq<u8>>>| {
                &&& #[trigger] recvs_of(polled) == final(self).transport_calls().subrange(
                    old(self).transport_calls().len() as int,
                    final(self).transport_calls().len() as int,
                )
                &&& final(self).transport_calls().subrange(0, old(self).transport_calls().len() as int)
                    == old(self).transport_calls()
                &&& polled.len() <= old(self).transport_count()
                &&& forall|i: int| 0 <= i < polled.len() - 1 ==> polled[i] is None
                &&& (polled.len() == 0 || polled.last() is None) ==> polled.len() == old(self).transport_count() && r is None
                &&& polled.len() > 0 ==> (polled.last() matches Some(d) ==> (r is Some <==> (old(self).opens(d) matches Some(p)
                    && message_of_bytes(p) is Some)))
                &&& polled.len() > 0 ==> (polled.last() matches Some(d) ==> (r matches Some(m) ==> (old(self).opens(d) matches Some(p)
                    && message_of_bytes(p) matches Some(f) && f.0 == m.id@ && f.1 == m.chat_id@ && f.2 == m.text@
                    && f.3 == m.timestamp)))
            },
    {
        let ghost start = self.log.records();
        let ghost mut polled: Seq<Option<Seq<u8>>> = Seq::empty();
        let mut i: usize = 0;
        proof {
            assert(self.log.records() =~= start + recvs_of(polled));
        }
        while i < self.transports.len()
            invariant
                self.wf(),
                self.storage == old(self).storage,
                self.crypto == old(self).crypto,
                self.transports@.len() == old(self).transports@.len(),
                start == old(self).log.records(),
                i <= self.transports@.len(),
                polled.len() == i,
                forall|j: int| 0 <= j < polled.len() ==> polled[j] is None,
                self.log.records() == start + recvs_of(polled),
            decreases self.transports@.len() - i,
        {
            let got = self.log.recv(&mut self.transports[i], i);
            let ghost gv: Option<Seq<u8>> = if got is Some {
                Some(got->0@)
            } else {
                None
            };
            proof {
                assert(recvs_of(polled.push(gv)) =~= recvs_of(polled).push(("recv"@, i as int, Seq::<char>::empty(), gv)));
                polled = polled.push(gv);
                assert(self.log.records() =~= start + recvs_of(polled));
            }
            match got {
                Some(data) => {
                    let ghost mid = self.log.records();
                    let r = self.receive_sealed(data.as_slice());
                    proof {
                        if r is Some {
                            let p = old(self).opens(data@)->0;
                            assert(old(self).opens(data@) == Some(p));
                            assert(message_of_bytes(p) is Some);
                        }
                        assert(self.log.records().subrange(start.len() as int, self.log.records().len() as int) =~= recvs_of(polled));
                        assert(self.log.records().subrange(0, start.len() as int) =~= start);
                        assert(polled.last() == Some(data@));
                    }
                    return r;
                },
                None => {
                    proof {
                        assert(forall|j: int| 0 <= j < polled.len() ==> polled[j] is None);
                    }
                },
            }
            i = i + 1;
        }
        proof {
            assert(self.log.records().subrange(start.len() as int, self.log.records().len() as int) =~= recvs_of(polled));
            assert(self.log.records().subrange(0, start.len() as int) =~= start);
        }
        None
    }
}

} // verus!
