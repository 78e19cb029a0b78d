use vstd::prelude::*;
use crate::json::{field, get_field, get_str, json_parse_spec, json_quote, num_pair, parse_json, quote_str, str_field, str_pair, JsonValue};
use crate::text::{concat, decimal_string};

verus! {

/// An event as a guest plugin reads it.
#[derive(Debug)]
pub struct GuestEvent {
    pub topic: String,
    pub data: String,
    /// The event's time; `0` when absent, and for plugins that do not read it.
    pub ts: u64,
}

/// What a plugin reads from its input, as its derived reader reads an
/// event: string `topic` and `data`, and for a plugin that reads `ts` a
/// number, `0` when absent.  The event is an object with these members, or
/// an array of them in that order (`ts` may be left out).
pub open spec fn guest_event_spec(input: Seq<char>, with_ts: bool) -> Option<(Seq<char>, Seq<char>, u64)> {
    match json_parse_spec(input) {
        Some(v) => event_fields(v, with_ts),
        None => None,
    }
}

/// The fields of an event document.
pub open spec fn event_fields(v: JsonValue, with_ts: bool) -> Option<(Seq<char>, Seq<char>, u64)> {
    match v {
        JsonValue::Object(_) => match (str_field(v, "topic"@), str_field(v, "data"@)) {
            (Some(t), Some(d)) => if !with_ts {
                Some((t, d, 0))
            } else {
                match field(v, "ts"@) {
                    None => Some((t, d, 0)),
                    Some(JsonValue::UInt(n)) => Some((t, d, n)),
                    _ => None,
                }
            },
            _ => None,
        },
        JsonValue::Array(items) => if items@.len() == 2 || (with_ts && items@.len() == 3) {
            match (items@[0], items@[1]) {
                (JsonValue::Str(t), JsonValue::Str(d)) => if items@.len() == 2 {
                    Some((t@, d@, 0))
                } else {
                    match items@[2] {
                        JsonValue::UInt(n) => Some((t@, d@, n)),
                        _ => None,
                    }
                },
                _ => None,
            }
        } else {
            None
        },
        _ => None,
    }
}

/// The error a plugin gives for an input that is not an event.
pub open spec fn bad_event_text() -> Seq<char> {
    "invalid event"@
}

/// Reads a plugin's input event.
pub fn read_event(input: &str, with_ts: bool) -> (r: Result<GuestEvent, String>)
    ensures
        r is Ok <==> guest_event_spec(input@, with_ts) is Some,
        r matches Ok(e) ==> guest_event_spec(input@, with_ts) == Some((e.topic@, e.data@, e.ts)),
        r matches Err(m) ==> m@ == bad_event_text(),
{
    let bad = String::from_str("invalid event");
    let v = match parse_json(input) {
        Some(v) => v,
        None => {
            return Err(bad);
        },
    };
    match &v {
        JsonValue::Object(_) => {},
        JsonValue::Array(items) => {
            if !(items.len() == 2 || (with_ts && items.len() == 3)) {
                return Err(bad);
            }
            let (topic, data) = match (&items[0], &items[1]) {
                (JsonValue::Str(t), JsonValue::Str(d)) => (t.clone(), d.clone()),
                _ => {
                    return Err(bad);
                },
            };
            if items.len() == 2 {
                return Ok(GuestEvent { topic, data, ts: 0 });
            }
            return match &items[2] {
                JsonValue::UInt(n) => Ok(GuestEvent { topic, data, ts: *n }),
                _ => Err(bad),
            };
        },
        _ => {
            return Err(bad);
        },
    }
    let (topic, data) = match (get_str(&v, "topic"), get_str(&v, "data")) {
        (Some(t), Some(d)) => (t, d),
        _ => {
            return Err(bad);
        },
    };
    if !with_ts {
        return Ok(GuestEvent { topic, data, ts: 0 });
    }
    match get_field(&v, "ts") {
        None => Ok(GuestEvent { topic, data, ts: 0 }),
        Some(JsonValue::UInt(n)) => Ok(GuestEvent { topic, data, ts: *n }),
        Some(_) => Err(bad),
    }
}

/// The JSON text of an emitted event (its `ts` is `0` for plugins whose
/// events carry one).
pub open spec fn emit_text(topic: Seq<char>, data: Seq<char>, with_ts: bool) -> Seq<char> {
    seq!['{'] + str_pair("topic"@, topic) + seq![','] + str_pair("data"@, data) + (if with_ts {
        seq![','] + num_pair("ts"@, 0)
    } else {
        seq![]
    }) + seq!['}']
}

/// The emitted events' texts, joined by commas.
pub open spec fn emits_text(es: Seq<(Seq<char>, Seq<char>)>, with_ts: bool) -> Seq<char>
    decreases es.len(),
{
    if es.len() == 0 {
        seq![]
    } else if es.len() == 1 {
        emit_text(es[0].0, es[0].1, with_ts)
    } else {
        emits_text(es.drop_last(), with_ts) + seq![','] + emit_text(es.last().0, es.last().1, with_ts)
    }
}

/// The views of emitted events.
pub open spec fn emit_views(es: Seq<(String, String)>) -> Seq<(Seq<char>, Seq<char>)> {
    es.map_values(|p: (String, String)| (p.0@, p.1@))
}

/// The text of a plugin's answer `{"log": .., "emit": [..]}`; no log is
/// written `null`.
pub open spec fn response_text(log: Option<Seq<char>>, es: Seq<(Seq<char>, Seq<char>)>, with_ts: bool) -> Seq<char> {
    seq!['{'] + json_quote("log"@) + seq![':'] + (match log {
        Some(l) => json_quote(l),
        None => seq!['n', 'u', 'l', 'l'],
    }) + seq![','] + json_quote("emit"@) + seq![':', '['] + emits_text(es, with_ts) + seq![']', '}']
}

fn emit_json(topic: &str, data: &str, with_ts: bool) -> (s: String)
    ensures
        s@ == emit_text(topic@, data@, with_ts),
{
    let a = concat("{", quote_str("topic").as_str());
    let b = concat(a.as_str(), ":");
    let c = concat(b.as_str(), quote_str(topic).as_str());
    let d = concat(c.as_str(), ",");
    let e = concat(d.as_str(), quote_str("data").as_str());
    let f = concat(e.as_str(), ":");
    let mut g = concat(f.as_str(), quote_str(data).as_str());
    proof {
        reveal_strlit("{");
        reveal_strlit(":");
        reveal_strlit(",");
        reveal_strlit("}");
        reveal_strlit("0");
    }
    if with_ts {
        let h = concat(g.as_str(), ",");
        let i = concat(h.as_str(), quote_str("ts").as_str());
        let j = concat(i.as_str(), ":");
        g = concat(j.as_str(), decimal_string(0).as_str());
    }
    let s = concat(g.as_str(), "}");
    assert(s@ =~= emit_text(topic@, data@, with_ts));
    s
}

/// A plugin's answer.
pub fn response_json(log: Option<&str>, emit: &Vec<(String, String)>, with_ts: bool) -> (s: String)
    ensures
        s@ == response_text(
            match log {
                Some(l) => Some(l@),
                None => None,
            },
            emit_views(emit@),
            with_ts,
        ),
{
    proof {
        reveal_strlit("{");
        reveal_strlit(":");
        reveal_strlit(",");
        reveal_strlit("null");
        reveal_strlit(":[");
        reveal_strlit("]}");
    }
    let a = concat("{", quote_str("log").as_str());
    let b = concat(a.as_str(), ":");
    let c = match log {
        Some(l) => concat(b.as_str(), quote_str(l).as_str()),
        None => concat(b.as_str(), "null"),
    };
    let d = concat(c.as_str(), ",");
    let e = concat(d.as_str(), quote_str("emit").as_str());
    let mut out = concat(e.as_str(), ":[");
    let ghost head = out@;
    let mut i: usize = 0;
    assert(emit_views(emit@.take(0)) =~= Seq::<(Seq<char>, Seq<char>)>::empty());
    while i < emit.len()
        invariant
            i <= emit@.len(),
            out@ == head + emits_text(emit_views(emit@.take(i as int)), with_ts),
        decreases emit@.len() - i,
    {
        if i > 0 {
            out = concat(out.as_str(), ",");
        }
        let t = emit_json(emit[i].0.as_str(), emit[i].1.as_str(), with_ts);
        out = concat(out.as_str(), t.as_str());
        proof {
            reveal_strlit(",");
            let next = emit_views(emit@.take(i + 1));
            assert(next.drop_last() =~= emit_views(emit@.take(i as int)));
            assert(next.last() == (emit@[i as int].0@, emit@[i as int].1@));
            assert(out@ =~= head + emits_text(next, with_ts));
        }
        i = i + 1;
    }
    assert(emit@.take(i as int) =~= emit@);
    assert(emit_views(emit@.take(i as int)) =~= emit_views(emit@));
    let s = concat(out.as_str(), "]}");
    assert(s@ =~= response_text(
        match log {
            Some(l) => Some(l@),
            None => None,
        },
        emit_views(emit@),
        with_ts,
    ));
    s
}

} // verus!
