use vstd::prelude::*;
use crate::host::event::Event;
use crate::json::{json_quote, json_text, items_text, lemma_members_push, str_member, to_json_string, u64_member, JsonValue};
use crate::text::{concat, utf8_bytes};

verus! {

/// Where dead letters are written.
pub struct DlqConfig {
    pub path: String,
}

impl Default for DlqConfig {
    fn default() -> (c: Self)
        ensures
            c.path@ == "./data/dlq.jsonl"@,
    {
        DlqConfig { path: String::from_str("./data/dlq.jsonl") }
    }
}

/// The JSON array of the bytes, each a number.
pub open spec fn bytes_json(b: Seq<u8>, items: Seq<JsonValue>) -> bool {
    &&& items.len() == b.len()
    &&& forall|i: int| 0 <= i < b.len() ==> #[trigger] items[i] == JsonValue::UInt(b[i] as u64)
}

/// The text of a dead letter: `{"id", "topic", "payload", "ts"}`, the
/// payload as an array of byte values.
pub open spec fn dlq_text(ev: Event, items: Seq<JsonValue>) -> Seq<char> {
    seq!['{'] + json_quote("id"@) + seq![':'] + json_quote(ev.meta.id@) + seq![','] + json_quote("topic"@) + seq![':']
        + json_quote(ev.meta.topic@) + seq![','] + json_quote("payload"@) + seq![':', '['] + items_text(items) + seq![
        ']',
        ',',
    ] + json_quote("ts"@) + seq![':'] + json_text(JsonValue::UInt(ev.meta.timestamp)) + seq!['}']
}

/// One line of the dead-letter file for `ev`: its JSON record and a newline.
pub fn dlq_line(ev: &Event) -> (line: Vec<u8>)
    ensures
        exists|items: Seq<JsonValue>| #[trigger] bytes_json(ev.payload@, items) && line@ == vstd::utf8::encode_utf8(
            dlq_text(*ev, items) + seq!['\n'],
        ),
{
    let mut items: Vec<JsonValue> = Vec::new();
    let mut i: usize = 0;
    while i < ev.payload.len()
        invariant
            i <= ev.payload@.len(),
            items@.len() == i,
            forall|j: int| 0 <= j < i ==> #[trigger] items@[j] == JsonValue::UInt(ev.payload@[j] as u64),
        decreases ev.payload@.len() - i,
    {
        items.push(JsonValue::UInt(ev.payload[i] as u64));
        i = i + 1;
    }
    let ghost its = items@;
    let mut fs: Vec<(String, JsonValue)> = Vec::new();
    let m0 = str_member("id", ev.meta.id.as_str());
    proof {
        lemma_members_push(fs@, m0);
    }
    fs.push(m0);
    let m1 = str_member("topic", ev.meta.topic.as_str());
    proof {
        lemma_members_push(fs@, m1);
    }
    fs.push(m1);
    let m2 = (String::from_str("payload"), JsonValue::Array(items));
    proof {
        lemma_members_push(fs@, m2);
    }
    fs.push(m2);
    let m3 = u64_member("ts", ev.meta.timestamp);
    proof {
        lemma_members_push(fs@, m3);
    }
    fs.push(m3);
    let s = to_json_string(&JsonValue::Object(fs));
    let text = concat(s.as_str(), "\n");
    proof {
        reveal_strlit("\n");
        assert(s@ =~= dlq_text(*ev, its));
        assert(text@ =~= dlq_text(*ev, its) + seq!['\n']);
        assert(bytes_json(ev.payload@, its));
    }
    utf8_bytes(text.as_str())
}

} // verus!
