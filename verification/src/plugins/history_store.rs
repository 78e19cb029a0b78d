use vstd::prelude::*;
use crate::host::dlq::bytes_json;
use crate::json::{field, get_field, get_str, get_u64, items_text, json_parse_spec, members_text, parse_json, str_field, str_member, to_json_string, u64_field, u64_member, JsonValue};
use crate::text::{clone_bytes, str_eq, utf8_bytes, utf8_decode};

verus! {

broadcast use vstd::seq_lib::group_to_multiset_ensures;

/// A message kept by the history plugin, keyed by the event id.
pub struct StoredMessage {
    pub id: String,
    pub payload: Vec<u8>,
    pub ts: u64,
}

/// The contents of the store: event id to (payload, timestamp).
pub open spec fn entries_map(s: Seq<StoredMessage>) -> Map<Seq<char>, (Seq<u8>, u64)>
    decreases s.len(),
{
    if s.len() == 0 {
        Map::empty()
    } else {
        let e = s.last();
        entries_map(s.drop_last()).insert(e.id@, (e.payload@, e.ts))
    }
}

pub open spec fn unique_ids(s: Seq<StoredMessage>) -> bool {
    forall|i: int, j: int| 0 <= i < j < s.len() ==> s[i].id@ != s[j].id@
}

/// What storing `(id, ts, payload)` does to a store's contents: nothing when
/// the id is already there, else it adds the entry.
pub open spec fn store_spec(
    m: Map<Seq<char>, (Seq<u8>, u64)>,
    id: Seq<char>,
    ts: u64,
    payload: Seq<u8>,
) -> Map<Seq<char>, (Seq<u8>, u64)> {
    if m.contains_key(id) {
        m
    } else {
        m.insert(id, (payload, ts))
    }
}

/// The contents after storing each of `msgs` in turn into `m`.
pub open spec fn store_all(m: Map<Seq<char>, (Seq<u8>, u64)>, msgs: Seq<StoredMessage>) -> Map<Seq<char>, (Seq<u8>, u64)>
    decreases msgs.len(),
{
    if msgs.len() == 0 {
        m
    } else {
        store_all(store_spec(m, msgs[0].id@, msgs[0].ts, msgs[0].payload@), msgs.drop_first())
    }
}

proof fn lemma_entries_map_dom(s: Seq<StoredMessage>, k: Seq<char>)
    ensures
        entries_map(s).contains_key(k) <==> exists|i: int| 0 <= i < s.len() && s[i].id@ == k,
    decreases s.len(),
{
    if s.len() > 0 {
        lemma_entries_map_dom(s.drop_last(), k);
        if entries_map(s.drop_last()).contains_key(k) {
            let i = choose|i: int| 0 <= i < s.drop_last().len() && s.drop_last()[i].id@ == k;
            assert(s[i].id@ == k);
        }
        if exists|i: int| 0 <= i < s.len() && s[i].id@ == k {
            let i = choose|i: int| 0 <= i < s.len() && s[i].id@ == k;
            if i < s.len() - 1 {
                assert(s.drop_last()[i].id@ == k);
            }
        }
    }
}

proof fn lemma_entries_map_value(s: Seq<StoredMessage>, i: int)
    requires
        unique_ids(s),
        0 <= i < s.len(),
    ensures
        entries_map(s).contains_key(s[i].id@),
        entries_map(s)[s[i].id@] == (s[i].payload@, s[i].ts),
    decreases s.len(),
{
    if i < s.len() - 1 {
        assert(s.drop_last()[i] == s[i]);
        lemma_entries_map_value(s.drop_last(), i);
        assert(s.last().id@ != s[i].id@);
    }
}

proof fn lemma_entries_map_len(s: Seq<StoredMessage>)
    requires
        unique_ids(s),
    ensures
        entries_map(s).dom().finite(),
        entries_map(s).dom().len() == s.len(),
    decreases s.len(),
{
    if s.len() > 0 {
        lemma_entries_map_len(s.drop_last());
        lemma_entries_map_dom(s.drop_last(), s.last().id@);
        if entries_map(s.drop_last()).contains_key(s.last().id@) {
            let i = choose|i: int| 0 <= i < s.drop_last().len() && s.drop_last()[i].id@ == s.last().id@;
            assert(s[i].id@ == s[s.len() - 1].id@);
        }
    }
}

/// The history plugin's store: at most one message per event id.
pub struct MessageStore {
    entries: Vec<StoredMessage>,
}

impl View for MessageStore {
    type V = Map<Seq<char>, (Seq<u8>, u64)>;

    closed spec fn view(&self) -> Self::V {
        entries_map(self.entries@)
    }
}

impl MessageStore {
    pub closed spec fn wf(&self) -> bool {
        unique_ids(self.entries@)
    }

    /// An empty store.
    pub fn new() -> (s: Self)
        ensures
            s.wf(),
            s@ == Map::<Seq<char>, (Seq<u8>, u64)>::empty(),
    {
        MessageStore { entries: Vec::new() }
    }

    /// A store holding `msgs`; of several messages with one id the first stays.
    pub fn from_messages(msgs: Vec<StoredMessage>) -> (s: Self)
        ensures
            s.wf(),
            s@ == store_all(Map::empty(), msgs@),
    {
        let ghost all = msgs@;
        let mut s = MessageStore::new();
        let mut msgs = msgs;
        while msgs.len() > 0
            invariant
                s.wf(),
                store_all(s@, msgs@) == store_all(Map::empty(), all),
            decreases msgs.len(),
        {
            let ghost before = msgs@;
            let m = msgs.remove(0);
            proof {
                assert(before.drop_first() =~= msgs@);
            }
            if !s.contains(m.id.as_str()) {
                s.push_new(m);
            }
        }
        s
    }

    /// Number of stored messages.
    pub fn len(&self) -> (n: usize)
        requires
            self.wf(),
        ensures
            n == self@.dom().len(),
    {
        proof {
            lemma_entries_map_len(self.entries@);
        }
        self.entries.len()
    }

    /// Whether a message with this id is stored.
    pub fn contains(&self, id: &str) -> (res: bool)
        ensures
            res == self@.contains_key(id@),
    {
        let mut i: usize = 0;
        while i < self.entries.len()
            invariant
                i <= self.entries@.len(),
                forall|j: int| 0 <= j < i ==> self.entries@[j].id@ != id@,
            decreases self.entries@.len() - i,
        {
            if str_eq(self.entries[i].id.as_str(), id) {
                proof {
                    lemma_entries_map_dom(self.entries@, id@);
                }
                return true;
            }
            i = i + 1;
        }
        proof {
            lemma_entries_map_dom(self.entries@, id@);
        }
        false
    }

    fn push_new(&mut self, m: StoredMessage)
        requires
            old(self).wf(),
            !old(self)@.contains_key(m.id@),
        ensures
            final(self).wf(),
            final(self)@ == old(self)@.insert(m.id@, (m.payload@, m.ts)),
    {
        proof {
            lemma_entries_map_dom(self.entries@, m.id@);
        }
        let ghost old_entries = self.entries@;
        self.entries.push(m);
        proof {
            assert(self.entries@.drop_last() =~= old_entries);
            assert forall|i: int, j: int| 0 <= i < j < self.entries@.len() implies
                self.entries@[i].id@ != self.entries@[j].id@ by {
                if j == self.entries@.len() - 1 {
                    assert(old_entries[i].id@ != m.id@);
                }
            }
        }
    }

    /// Stores a message unless one with the same id is already there.
    /// Returns whether the store changed (and so must be written back).
    pub fn store_message(&mut self, id: &str, ts: u64, payload: &[u8]) -> (inserted: bool)
        requires
            old(self).wf(),
        ensures
            final(self).wf(),
            inserted == !old(self)@.contains_key(id@),
            final(self)@ == store_spec(old(self)@, id@, ts, payload@),
    {
        if self.contains(id) {
            return false;
        }
        let m = StoredMessage { id: String::from_str(id), payload: clone_bytes(payload), ts };
        self.push_new(m);
        true
    }

    /// All stored messages, oldest first.
    pub fn into_history(self) -> (res: Vec<StoredMessage>)
        requires
            self.wf(),
        ensures
            res@.len() == self@.dom().len(),
            unique_ids(res@),
            forall|i: int| 0 <= i < res@.len() ==> self@.contains_key(#[trigger] res@[i].id@)
                && self@[res@[i].id@] == (res@[i].payload@, res@[i].ts),
            forall|i: int, j: int| 0 <= i < j < res@.len() ==> res@[i].ts <= res@[j].ts,
    {
        let ghost orig = self.entries@;
        let ghost m = self@;
        let mut src = self.entries;
        let ghost rsrc = src@;
        let mut out: Vec<StoredMessage> = Vec::new();
        proof {
            lemma_entries_map_len(orig);
        }
        while src.len() > 0
            invariant
                rsrc == orig,
                src@ == rsrc.subrange(0, src@.len() as int),
                unique_ids(orig),
                out@.to_multiset() =~= rsrc.subrange(src@.len() as int, rsrc.len() as int).to_multiset(),
                out@.len() + src@.len() == rsrc.len(),
                forall|i: int, j: int| 0 <= i < j < out@.len() ==> out@[i].ts <= out@[j].ts,
            decreases src.len(),
        {
            let ghost before = src@;
            let e = src.pop().unwrap();
            proof {
                assert(before.drop_last() =~= src@);
                assert(src@ =~= rsrc.subrange(0, src@.len() as int));
                assert(rsrc.subrange(src@.len() as int, rsrc.len() as int) =~= rsrc.subrange(
                    (src@.len() + 1) as int,
                    rsrc.len() as int,
                ).insert(0, e));
            }
            let mut pos: usize = out.len();
            while pos > 0 && out[pos - 1].ts > e.ts
                invariant
                    pos <= out@.len(),
                    forall|k: int| pos <= k < out@.len() ==> out@[k].ts > e.ts,
                decreases pos,
            {
                pos = pos - 1;
            }
            let ghost out_before = out@;
            out.insert(pos, e);
            proof {
                vstd::seq_lib::to_multiset_insert(out_before, pos as int, e);
                vstd::seq_lib::to_multiset_insert(
                    rsrc.subrange((src@.len() + 1) as int, rsrc.len() as int),
                    0,
                    e,
                );
                assert forall|i: int, j: int| 0 <= i < j < out@.len() implies out@[i].ts
                    <= out@[j].ts by {
                    if i < pos && j == pos {
                        assert(out_before[pos - 1].ts <= e.ts);
                        if i < pos - 1 {
                            assert(out_before[i].ts <= out_before[pos - 1].ts);
                        }
                    } else if i < pos && j > pos {
                        assert(out@[j] == out_before[j - 1]);
                    } else if i == pos && j > pos {
                        assert(out@[j] == out_before[j - 1]);
                    } else if i > pos {
                        assert(out@[i] == out_before[i - 1]);
                        assert(out@[j] == out_before[j - 1]);
                    }
                }
            }
        }
        proof {
            assert(rsrc.subrange(0, rsrc.len() as int) =~= rsrc);
            assert forall|i: int| 0 <= i < out@.len() implies m.contains_key(#[trigger] out@[i].id@)
                && m[out@[i].id@] == (out@[i].payload@, out@[i].ts) by {
                assert(out@.to_multiset().contains(out@[i]));
                assert(orig.to_multiset().contains(out@[i]));
                let k = choose|k: int| 0 <= k < orig.len() && orig[k] == out@[i];
                lemma_entries_map_value(orig, k);
            }
            assert forall|i: int, j: int| 0 <= i < j < out@.len() implies out@[i].id@
                != out@[j].id@ by {
                lemma_out_distinct(out@, orig, i, j);
            }
        }
        out
    }
}

proof fn lemma_out_distinct(out: Seq<StoredMessage>, orig: Seq<StoredMessage>, i: int, j: int)
    requires
        out.to_multiset() =~= orig.to_multiset(),
        unique_ids(orig),
        0 <= i < j < out.len(),
    ensures
        out[i].id@ != out[j].id@,
{
    if out[i].id@ == out[j].id@ {
        lemma_out_distinct_contra(out, orig, i, j);
    }
}

proof fn lemma_out_distinct_contra(out: Seq<StoredMessage>, orig: Seq<StoredMessage>, i: int, j: int)
    requires
        out.to_multiset() =~= orig.to_multiset(),
        unique_ids(orig),
        0 <= i < j < out.len(),
        out[i].id@ == out[j].id@,
    ensures
        out[i].id@ != out[j].id@,
{
    broadcast use vstd::multiset::group_multiset_axioms;

    let x = out[i];
    vstd::seq_lib::to_multiset_contains(out, out[i]);
    vstd::seq_lib::to_multiset_contains(out, out[j]);
    vstd::seq_lib::to_multiset_contains(orig, out[i]);
    vstd::seq_lib::to_multiset_contains(orig, out[j]);
    assert(out.contains(out[i]));
    assert(out.contains(out[j]));
    if out[i] == out[j] {
        assert(orig.no_duplicates());
        orig.lemma_multiset_has_no_duplicates();
        let r = out.remove(j);
        vstd::seq_lib::to_multiset_remove(out, j);
        assert(r[i] == x);
        assert(r.contains(x));
        vstd::seq_lib::to_multiset_contains(r, x);
        assert(out.to_multiset().remove(x).count(x) > 0);
        assert(out.to_multiset().count(x) >= 2);
    } else {
        let k1 = choose|k: int| 0 <= k < orig.len() && orig[k] == out[i];
        let k2 = choose|k: int| 0 <= k < orig.len() && orig[k] == out[j];
        assert(k1 != k2);
        if k1 < k2 {
            assert(orig[k1].id@ != orig[k2].id@);
        } else {
            assert(orig[k2].id@ != orig[k1].id@);
        }
    }
}

} // verus!

verus! {

/// Storing is idempotent by event id: a second store of the same id, with
/// whatever timestamp and payload, leaves the store as the first one left it.
pub proof fn lemma_store_idempotent(
    m: Map<Seq<char>, (Seq<u8>, u64)>,
    id: Seq<char>,
    ts1: u64,
    p1: Seq<u8>,
    ts2: u64,
    p2: Seq<u8>,
)
    ensures
        store_spec(store_spec(m, id, ts1, p1), id, ts2, p2) == store_spec(m, id, ts1, p1),
{
}

/// A stored message is never replaced: the first payload under an id stays.
pub proof fn lemma_store_keeps_first(
    m: Map<Seq<char>, (Seq<u8>, u64)>,
    id: Seq<char>,
    ts: u64,
    p: Seq<u8>,
)
    ensures
        store_spec(m, id, ts, p).contains_key(id),
        m.contains_key(id) ==> store_spec(m, id, ts, p)[id] == m[id],
        !m.contains_key(id) ==> store_spec(m, id, ts, p)[id] == (p, ts),
{
}

/// What the history plugin does with an event's topic.
#[derive(Clone, Copy, Debug, PartialEq, Eq, Structural)]
pub enum StorageCommand {
    /// `UI_SEND_MSG` or `CRYPTO_DECRYPTED`: keep the payload.
    Store,
    /// `DB_READ_CMD`: emit the history as `DB_HISTORY_RESULT`.
    ReadHistory,
    /// Anything else.
    Ignore,
}

/// The command for an incoming topic.
pub fn classify_topic(topic: &str) -> (c: StorageCommand)
    ensures
        c == StorageCommand::Store <==> (topic@ == "UI_SEND_MSG"@ || topic@ == "CRYPTO_DECRYPTED"@),
        c == StorageCommand::ReadHistory <==> topic@ == "DB_READ_CMD"@,
{
    proof {
        reveal_strlit("DB_READ_CMD");
        reveal_strlit("UI_SEND_MSG");
        reveal_strlit("CRYPTO_DECRYPTED");
        assert("UI_SEND_MSG"@[0] != "DB_READ_CMD"@[0]);
        assert("CRYPTO_DECRYPTED"@.len() != "DB_READ_CMD"@.len());
    }
    if str_eq(topic, "UI_SEND_MSG") || str_eq(topic, "CRYPTO_DECRYPTED") {
        StorageCommand::Store
    } else if str_eq(topic, "DB_READ_CMD") {
        StorageCommand::ReadHistory
    } else {
        StorageCommand::Ignore
    }
}

} // verus!

verus! {

/// `v` is the JSON of the stored message `(id, payload, ts)`:
/// `{"id", "payload", "ts"}`, the payload as an array of byte values.
pub open spec fn stored_doc(v: JsonValue, id: Seq<char>, payload: Seq<u8>, ts: u64) -> bool {
    &&& v matches JsonValue::Object(fs)
    &&& fs@.len() == 3
    &&& fs@[0].0@ == "id"@ && (fs@[0].1 matches JsonValue::Str(s) && s@ == id)
    &&& fs@[1].0@ == "payload"@ && (fs@[1].1 matches JsonValue::Array(bs) && bytes_json(payload, bs@))
    &&& fs@[2].0@ == "ts"@ && fs@[2].1 == JsonValue::UInt(ts)
}

/// The JSON document of a stored message.
fn stored_value(id: &str, payload: &[u8], ts: u64) -> (v: JsonValue)
    ensures
        stored_doc(v, id@, payload@, ts),
{
    let mut items: Vec<JsonValue> = Vec::new();
    let mut i: usize = 0;
    while i < payload.len()
        invariant
            i <= payload@.len(),
            items@.len() == i,
            forall|j: int| 0 <= j < i ==> #[trigger] items@[j] == JsonValue::UInt(payload@[j] as u64),
        decreases payload@.len() - i,
    {
        items.push(JsonValue::UInt(payload[i] as u64));
        i = i + 1;
    }
    let mut fs: Vec<(String, JsonValue)> = Vec::new();
    fs.push(str_member("id", id));
    fs.push((String::from_str("payload"), JsonValue::Array(items)));
    fs.push(u64_member("ts", ts));
    JsonValue::Object(fs)
}

/// What `DB_HISTORY_RESULT` carries: the UTF-8 JSON array of the messages,
/// in order.
pub fn history_bytes(msgs: &Vec<StoredMessage>) -> (b: Vec<u8>)
    ensures
        exists|items: Seq<JsonValue>| {
            &&& items.len() == msgs@.len()
            &&& forall|i: int| 0 <= i < items.len() ==> #[trigger] stored_doc(items[i], msgs@[i].id@, msgs@[i].payload@, msgs@[i].ts)
            &&& b@ == vstd::utf8::encode_utf8(seq!['['] + items_text(items) + seq![']'])
        },
{
    let mut items: Vec<JsonValue> = Vec::new();
    let mut i: usize = 0;
    while i < msgs.len()
        invariant
            i <= msgs@.len(),
            items@.len() == i,
            forall|k: int| 0 <= k < i ==> #[trigger] stored_doc(items@[k], msgs@[k].id@, msgs@[k].payload@, msgs@[k].ts),
        decreases msgs@.len() - i,
    {
        items.push(stored_value(msgs[i].id.as_str(), msgs[i].payload.as_slice(), msgs[i].ts));
        i = i + 1;
    }
    let ghost its = items@;
    let s = to_json_string(&JsonValue::Array(items));
    assert(s@ =~= seq!['['] + items_text(its) + seq![']']);
    utf8_bytes(s.as_str())
}

impl MessageStore {
    /// The store file: the UTF-8 JSON object from each stored id to its
    /// message.
    pub fn file_bytes(&self) -> (b: Vec<u8>)
        requires
            self.wf(),
        ensures
            exists|fs: Seq<(String, JsonValue)>| {
                &&& fs.len() == self@.dom().len()
                &&& forall|i: int, j: int| 0 <= i < j < fs.len() ==> fs[i].0@ != fs[j].0@
                &&& forall|i: int| 0 <= i < fs.len() ==> self@.contains_key(#[trigger] fs[i].0@) && stored_doc(
                    fs[i].1,
                    fs[i].0@,
                    self@[fs[i].0@].0,
                    self@[fs[i].0@].1,
                )
                &&& b@ == vstd::utf8::encode_utf8(seq!['{'] + members_text(fs) + seq!['}'])
            },
    {
        proof {
            lemma_entries_map_len(self.entries@);
        }
        let mut fs: Vec<(String, JsonValue)> = Vec::new();
        let mut i: usize = 0;
        while i < self.entries.len()
            invariant
                self.wf(),
                i <= self.entries@.len(),
                fs@.len() == i,
                forall|k: int| 0 <= k < i ==> (#[trigger] fs@[k]).0@ == self.entries@[k].id@ && stored_doc(
                    fs@[k].1,
                    self.entries@[k].id@,
                    self.entries@[k].payload@,
                    self.entries@[k].ts,
                ),
            decreases self.entries@.len() - i,
        {
            let e = &self.entries[i];
            fs.push((e.id.clone(), stored_value(e.id.as_str(), e.payload.as_slice(), e.ts)));
            i = i + 1;
        }
        let ghost fsv = fs@;
        proof {
            assert forall|k: int| 0 <= k < fsv.len() implies self@.contains_key(#[trigger] fsv[k].0@) && stored_doc(
                fsv[k].1,
                fsv[k].0@,
                self@[fsv[k].0@].0,
                self@[fsv[k].0@].1,
            ) by {
                lemma_entries_map_value(self.entries@, k);
            }
            assert forall|a: int, c: int| 0 <= a < c < fsv.len() implies fsv[a].0@ != fsv[c].0@ by {
                assert(fsv[a].0@ == self.entries@[a].id@);
                assert(fsv[c].0@ == self.entries@[c].id@);
            }
        }
        let s = to_json_string(&JsonValue::Object(fs));
        assert(s@ =~= seq!['{'] + members_text(fsv) + seq!['}']);
        utf8_bytes(s.as_str())
    }
}

} // verus!

verus! {

/// The byte values of `items`, when each is a number below 256.
pub open spec fn bytes_of(items: Seq<JsonValue>) -> Option<Seq<u8>> {
    if forall|i: int| 0 <= i < items.len() ==> (#[trigger] items[i] matches JsonValue::UInt(n) && n <= 255) {
        Some(Seq::new(items.len(), |i: int| items[i]->UInt_0 as u8))
    } else {
        None
    }
}

/// The payload and time of a message document, which must also have a
/// string `id`; other members are ignored.
pub open spec fn stored_fields(v: JsonValue) -> Option<(Seq<u8>, u64)> {
    match (
        crate::json::record_str(v, "id"@, 0, 3),
        crate::json::record_field(v, "payload"@, 1, 3),
        crate::json::record_u64(v, "ts"@, 2, 3),
    ) {
        (Some(_), Some(JsonValue::Array(bs)), Some(ts)) => match bytes_of(bs@) {
            Some(p) => Some((p, ts)),
            None => None,
        },
        _ => None,
    }
}

/// The entry a member `name: v` of a store file gives.
pub open spec fn entry_of(name: Seq<char>, v: JsonValue) -> (Seq<char>, Seq<u8>, u64) {
    match stored_fields(v) {
        Some((p, ts)) => (name, p, ts),
        None => (name, seq![], 0),
    }
}

/// The entries of a store file, in member order: `None` unless it is the
/// UTF-8 JSON of an object each of whose members is a message document.
pub open spec fn file_entries(bytes: Seq<u8>) -> Option<Seq<(Seq<char>, Seq<u8>, u64)>> {
    if !vstd::utf8::valid_utf8(bytes) {
        None
    } else {
        match json_parse_spec(vstd::utf8::decode_utf8(bytes)) {
            Some(JsonValue::Object(fs)) => if forall|i: int| 0 <= i < fs@.len() ==> #[trigger] stored_fields(fs@[i].1) is Some {
                Some(Seq::new(fs@.len(), |i: int| entry_of(fs@[i].0@, fs@[i].1)))
            } else {
                None
            },
            _ => None,
        }
    }
}

/// The contents after putting each entry in turn, a later one under an id
/// replacing an earlier one.
pub open spec fn later_wins(es: Seq<(Seq<char>, Seq<u8>, u64)>) -> Map<Seq<char>, (Seq<u8>, u64)>
    decreases es.len(),
{
    if es.len() == 0 {
        Map::empty()
    } else {
        later_wins(es.drop_last()).insert(es.last().0, (es.last().1, es.last().2))
    }
}

/// The contents a store file gives: its entries, or nothing when it does
/// not read.
pub open spec fn file_store(bytes: Seq<u8>) -> Map<Seq<char>, (Seq<u8>, u64)> {
    match file_entries(bytes) {
        Some(es) => later_wins(es),
        None => Map::empty(),
    }
}

proof fn lemma_entries_map_update(s: Seq<StoredMessage>, k: int, m: StoredMessage)
    requires
        unique_ids(s),
        0 <= k < s.len(),
        s[k].id@ == m.id@,
    ensures
        unique_ids(s.update(k, m)),
        entries_map(s.update(k, m)) == entries_map(s).insert(m.id@, (m.payload@, m.ts)),
    decreases s.len(),
{
    let u = s.update(k, m);
    assert forall|i: int, j: int| 0 <= i < j < u.len() implies u[i].id@ != u[j].id@ by {
        assert(s[i].id@ != s[j].id@);
    }
    if k == s.len() - 1 {
        assert(u.drop_last() =~= s.drop_last());
        assert(entries_map(u) =~= entries_map(s).insert(m.id@, (m.payload@, m.ts)));
    } else {
        lemma_entries_map_update(s.drop_last(), k, m);
        assert(u.drop_last() =~= s.drop_last().update(k, m));
        assert(s.last().id@ != m.id@);
        assert(entries_map(u) =~= entries_map(s).insert(m.id@, (m.payload@, m.ts)));
    }
}

/// The byte values of a payload array.
fn bytes_from_items(items: &Vec<JsonValue>) -> (r: Option<Vec<u8>>)
    ensures
        r is Some <==> bytes_of(items@) is Some,
        r matches Some(b) ==> bytes_of(items@) == Some(b@),
{
    let mut out: Vec<u8> = Vec::new();
    let mut i: usize = 0;
    while i < items.len()
        invariant
            i <= items@.len(),
            out@.len() == i,
            forall|k: int| 0 <= k < i ==> (#[trigger] items@[k] matches JsonValue::UInt(n) && n <= 255 && out@[k] == n as u8),
        decreases items@.len() - i,
    {
        match &items[i] {
            JsonValue::UInt(n) => {
                if *n <= 255 {
                    out.push(*n as u8);
                } else {
                    return None;
                }
            },
            _ => {
                return None;
            },
        }
        i = i + 1;
    }
    assert(out@ =~= Seq::new(items@.len(), |k: int| items@[k]->UInt_0 as u8));
    Some(out)
}

/// The payload and time of a message document.
fn read_stored(v: &JsonValue) -> (r: Option<(Vec<u8>, u64)>)
    ensures
        r is Some <==> stored_fields(*v) is Some,
        r matches Some((p, ts)) ==> stored_fields(*v) == Some((p@, ts)),
{
    match crate::json::get_record_str(v, "id", 0, 3) {
        Some(_) => {},
        None => {
            return None;
        },
    }
    let ts = match crate::json::get_record_u64(v, "ts", 2, 3) {
        Some(ts) => ts,
        None => {
            return None;
        },
    };
    match crate::json::get_record_field(v, "payload", 1, 3) {
        Some(JsonValue::Array(bs)) => match bytes_from_items(bs) {
            Some(p) => Some((p, ts)),
            None => None,
        },
        _ => None,
    }
}

impl MessageStore {
    /// Puts a message, replacing the one under the same id.
    fn put(&mut self, m: StoredMessage)
        requires
            old(self).wf(),
        ensures
            final(self).wf(),
            final(self)@ == old(self)@.insert(m.id@, (m.payload@, m.ts)),
    {
        let mut i: usize = 0;
        while i < self.entries.len()
            invariant
                self.wf(),
                self.entries@ == old(self).entries@,
                i <= self.entries@.len(),
                forall|j: int| 0 <= j < i ==> self.entries@[j].id@ != m.id@,
            decreases self.entries@.len() - i,
        {
            if str_eq(self.entries[i].id.as_str(), m.id.as_str()) {
                proof {
                    lemma_entries_map_update(self.entries@, i as int, m);
                }
                self.entries.set(i, m);
                return;
            }
            i = i + 1;
        }
        proof {
            lemma_entries_map_dom(self.entries@, m.id@);
        }
        self.push_new(m);
    }

    /// The store a store file holds; an empty one when there is no file or
    /// it does not read.  The store is keyed by the file's member names.
    pub fn from_file_bytes(saved: Option<&[u8]>) -> (s: Self)
        ensures
            s.wf(),
            s@ == match saved {
                Some(b) => file_store(b@),
                None => Map::<Seq<char>, (Seq<u8>, u64)>::empty(),
            },
    {
        let mut s = MessageStore::new();
        let bytes = match saved {
            Some(b) => b,
            None => {
                return s;
            },
        };
        let text = match utf8_decode(bytes) {
            Ok(t) => t,
            Err(_) => {
                return s;
            },
        };
        let fs = match parse_json(text.as_str()) {
            Some(JsonValue::Object(fs)) => fs,
            _ => {
                return s;
            },
        };
        let ghost es = file_entries(bytes@);
        let mut read: Vec<StoredMessage> = Vec::new();
        let mut i: usize = 0;
        while i < fs.len()
            invariant
                s.wf(),
                s@ == Map::<Seq<char>, (Seq<u8>, u64)>::empty(),
                saved matches Some(b) && b@ == bytes@,
                vstd::utf8::valid_utf8(bytes@),
                json_parse_spec(vstd::utf8::decode_utf8(bytes@)) == Some(JsonValue::Object(fs)),
                i <= fs@.len(),
                read@.len() == i,
                forall|k: int| 0 <= k < i ==> #[trigger] stored_fields(fs@[k].1) == Some((read@[k].payload@, read@[k].ts))
                    && read@[k].id@ == fs@[k].0@,
            decreases fs@.len() - i,
        {
            match read_stored(&fs[i].1) {
                Some((payload, ts)) => {
                    read.push(StoredMessage { id: fs[i].0.clone(), payload, ts });
                },
                None => {
                    return s;
                },
            }
            i = i + 1;
        }
        let ghost all = Seq::new(fs@.len(), |k: int| entry_of(fs@[k].0@, fs@[k].1));
        proof {
            assert forall|k: int| 0 <= k < fs@.len() implies #[trigger] stored_fields(fs@[k].1) is Some by {
                assert(stored_fields(fs@[k].1) == Some((read@[k].payload@, read@[k].ts)));
            }
            assert(es == Some(all));
        }
        let mut j: usize = 0;
        while j < read.len()
            invariant
                j <= read@.len(),
                read@.len() == all.len(),
                forall|k: int| 0 <= k < read@.len() ==> #[trigger] all[k] == (read@[k].id@, read@[k].payload@, read@[k].ts),
                s.wf(),
                s@ == later_wins(all.take(j as int)),
            decreases read@.len() - j,
        {
            let e = &read[j];
            let m = StoredMessage { id: e.id.clone(), payload: clone_bytes(e.payload.as_slice()), ts: e.ts };
            s.put(m);
            proof {
                assert(all.take(j + 1).drop_last() =~= all.take(j as int));
                assert(all.take(j + 1).last() == all[j as int]);
            }
            j = j + 1;
        }
        assert(all.take(j as int) =~= all);
        s
    }
}

} // verus!
