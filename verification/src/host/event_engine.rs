use vstd::prelude::*;
use crate::clock::unix_now_millis;
use crate::host::call_log::HandlerLog;
use crate::host::plugin_manager::PluginCall;
use crate::json::{json_quote, lemma_quote_prefix, check_record, field, get_field, get_record_field, get_str, is_record, json_parse_spec, num_pair, parse_json, record_field, str_field, str_pair, JsonValue};
use crate::str_map::StrMap;
use crate::text::{concat, decimal, decimal_string, lemma_decimal_injective, str_eq};

verus! {

/// An event on the command-line bus.
#[derive(Debug)]
pub struct Event {
    pub topic: String,
    pub data: String,
    /// Milliseconds since the Unix epoch; `0` until the bus stamps it.
    pub ts: u64,
}

/// What a plugin answers to an event: a line to log, and events to emit.
#[derive(Debug)]
pub struct PluginResponse {
    pub log: Option<String>,
    pub emit: Vec<Event>,
}

/// The topic of the bus's heartbeat, whose traffic is not logged.
pub const SYS_TICK: &'static str = "SYS_TICK";

/// The JSON text of an event: `{"topic": .., "data": .., "ts": ..}`.
pub open spec fn event_text(e: Event) -> Seq<char> {
    event_fields_text(e.topic@, e.data@, e.ts)
}

/// `{"topic": topic, "data": data}`: the event as a bus without times
/// hands it on.
pub open spec fn plain_event_text(topic: Seq<char>, data: Seq<char>) -> Seq<char> {
    seq!['{'] + str_pair("topic"@, topic) + seq![','] + str_pair("data"@, data) + seq!['}']
}

/// The JSON text a plugin receives for `e`: with its `ts` on a bus that
/// keeps times, without it otherwise.
pub open spec fn event_input_text(e: Event, stamped: bool) -> Seq<char> {
    if stamped {
        event_text(e)
    } else {
        plain_event_text(e.topic@, e.data@)
    }
}

/// `{"topic": topic, "data": data, "ts": ts}`.
pub open spec fn event_fields_text(topic: Seq<char>, data: Seq<char>, ts: u64) -> Seq<char> {
    seq!['{'] + str_pair("topic"@, topic) + seq![','] + str_pair("data"@, data) + seq![','] + num_pair("ts"@, ts)
        + seq!['}']
}

/// A plugin can tell events apart by the input a dispatch hands it on a
/// bus that keeps times: two events give the same JSON only when their
/// topics, data and times are the same.
#[verifier::rlimit(60)]
pub proof fn lemma_event_json_identifies(
    t1: Seq<char>,
    d1: Seq<char>,
    ts1: u64,
    t2: Seq<char>,
    d2: Seq<char>,
    ts2: u64,
)
    requires
        event_fields_text(t1, d1, ts1) == event_fields_text(t2, d2, ts2),
    ensures
        t1 == t2,
        d1 == d2,
        ts1 == ts2,
{
    let x1 = event_fields_text(t1, d1, ts1);
    let x2 = event_fields_text(t2, d2, ts2);
    let p = seq!['{'] + json_quote("topic"@) + seq![':'];
    let q = seq![','] + json_quote("data"@) + seq![':'];
    let u = seq![','] + json_quote("ts"@) + seq![':'];
    let s1 = u + decimal(ts1 as nat) + seq!['}'];
    let s2 = u + decimal(ts2 as nat) + seq!['}'];
    let r1 = q + json_quote(d1) + s1;
    let r2 = q + json_quote(d2) + s2;
    assert(x1 =~= p + (json_quote(t1) + r1));
    assert(x2 =~= p + (json_quote(t2) + r2));
    assert(json_quote(t1) + r1 =~= x1.subrange(p.len() as int, x1.len() as int));
    assert(json_quote(t2) + r2 =~= x2.subrange(p.len() as int, x2.len() as int));
    lemma_quote_prefix(t1, t2, r1, r2);
    assert(json_quote(d1) + s1 =~= r1.subrange(q.len() as int, r1.len() as int));
    assert(json_quote(d2) + s2 =~= r2.subrange(q.len() as int, r2.len() as int));
    lemma_quote_prefix(d1, d2, s1, s2);
    assert(decimal(ts1 as nat) =~= s1.subrange(u.len() as int, s1.len() - 1));
    assert(decimal(ts2 as nat) =~= s2.subrange(u.len() as int, s2.len() - 1));
    lemma_decimal_injective(ts1 as nat, ts2 as nat);
}

/// The same on a bus that hands on only topic and data: two events give the
/// same JSON only when their topics and data are the same.
#[verifier::rlimit(60)]
pub proof fn lemma_plain_event_json_identifies(t1: Seq<char>, d1: Seq<char>, t2: Seq<char>, d2: Seq<char>)
    requires
        plain_event_text(t1, d1) == plain_event_text(t2, d2),
    ensures
        t1 == t2,
        d1 == d2,
{
    let x1 = plain_event_text(t1, d1);
    let x2 = plain_event_text(t2, d2);
    let p = seq!['{'] + json_quote("topic"@) + seq![':'];
    let q = seq![','] + json_quote("data"@) + seq![':'];
    let r1 = q + json_quote(d1) + seq!['}'];
    let r2 = q + json_quote(d2) + seq!['}'];
    assert(x1 =~= p + (json_quote(t1) + r1));
    assert(x2 =~= p + (json_quote(t2) + r2));
    assert(json_quote(t1) + r1 =~= x1.subrange(p.len() as int, x1.len() as int));
    assert(json_quote(t2) + r2 =~= x2.subrange(p.len() as int, x2.len() as int));
    lemma_quote_prefix(t1, t2, r1, r2);
    assert(json_quote(d1) + seq!['}'] =~= r1.subrange(q.len() as int, r1.len() as int));
    assert(json_quote(d2) + seq!['}'] =~= r2.subrange(q.len() as int, r2.len() as int));
    lemma_quote_prefix(d1, d2, seq!['}'], seq!['}']);
}

/// The JSON text a plugin receives for `e`: `{"topic", "data", "ts"}` on a
/// bus that keeps times, `{"topic", "data"}` otherwise.
pub fn event_json(e: &Event, stamped: bool) -> (s: String)
    ensures
        s@ == event_input_text(*e, stamped),
{
    let q = concat("{", crate::json::quote_str("topic").as_str());
    let a = concat(q.as_str(), ":");
    let b = concat(a.as_str(), crate::json::quote_str(e.topic.as_str()).as_str());
    let c = concat(b.as_str(), ",");
    let d = concat(c.as_str(), crate::json::quote_str("data").as_str());
    let f = concat(d.as_str(), ":");
    let g = concat(f.as_str(), crate::json::quote_str(e.data.as_str()).as_str());
    if !stamped {
        let s = concat(g.as_str(), "}");
        proof {
            reveal_strlit("{");
            reveal_strlit(":");
            reveal_strlit(",");
            reveal_strlit("}");
        }
        assert(s@ =~= plain_event_text(e.topic@, e.data@));
        return s;
    }
    let h = concat(g.as_str(), ",");
    let i = concat(h.as_str(), crate::json::quote_str("ts").as_str());
    let j = concat(i.as_str(), ":");
    let k = concat(j.as_str(), decimal_string(e.ts).as_str());
    let s = concat(k.as_str(), "}");
    proof {
        reveal_strlit("{");
        reveal_strlit(":");
        reveal_strlit(",");
        reveal_strlit("}");
    }
    assert(s@ =~= event_text(*e));
    s
}

/// The fields of an emitted event: string `topic` and `data`, as an object
/// or an array of two items; on a bus that keeps times also `ts` (`0` when
/// absent), which an array then may hold as a third item.
pub open spec fn event_fields(v: JsonValue, stamped: bool) -> Option<(Seq<char>, Seq<char>, u64)> {
    crate::plugins::guest::event_fields(v, stamped)
}

/// The `log` of a response: absent or `null` is none, a string is a line,
/// anything else makes the response unreadable.
pub open spec fn log_field(v: JsonValue) -> Option<Option<Seq<char>>> {
    match record_field(v, "log"@, 0, 2) {
        None => Some(None),
        Some(JsonValue::Null) => Some(None),
        Some(JsonValue::Str(s)) => Some(Some(s@)),
        _ => None,
    }
}

/// The emitted events of a response, when `emit` is an array of events.
pub open spec fn emit_field(v: JsonValue, stamped: bool) -> Option<Seq<(Seq<char>, Seq<char>, u64)>> {
    match record_field(v, "emit"@, 1, 2) {
        Some(JsonValue::Array(items)) => if forall|i: int| 0 <= i < items@.len() ==> #[trigger] event_fields(items@[i], stamped) is Some {
            Some(Seq::new(items@.len(), |i: int| event_fields(items@[i], stamped)->0))
        } else {
            None
        },
        _ => None,
    }
}

/// What a plugin's answer `raw` says: its log line and emitted events, or
/// `None` when it is not such a response.
pub open spec fn response_spec(raw: Seq<char>, stamped: bool) -> Option<(Option<Seq<char>>, Seq<(Seq<char>, Seq<char>, u64)>)> {
    match json_parse_spec(raw) {
        Some(v) => match (log_field(v), emit_field(v, stamped)) {
            (Some(l), Some(es)) => if is_record(v, 2) { Some((l, es)) } else { None },
            _ => None,
        },
        None => None,
    }
}

/// The fields of an event.
pub open spec fn event_view(e: Event) -> (Seq<char>, Seq<char>, u64) {
    (e.topic@, e.data@, e.ts)
}

fn event_from_json(v: &JsonValue, stamped: bool) -> (r: Option<Event>)
    ensures
        r is Some <==> event_fields(*v, stamped) is Some,
        r matches Some(e) ==> event_fields(*v, stamped) == Some(event_view(e)),
{
    match v {
        JsonValue::Object(_) => {},
        JsonValue::Array(items) => {
            if !(items.len() == 2 || (stamped && items.len() == 3)) {
                return None;
            }
            let (topic, data) = match (&items[0], &items[1]) {
                (JsonValue::Str(t), JsonValue::Str(d)) => (t.clone(), d.clone()),
                _ => {
                    return None;
                },
            };
            if items.len() == 2 {
                return Some(Event { topic, data, ts: 0 });
            }
            return match &items[2] {
                JsonValue::UInt(n) => Some(Event { topic, data, ts: *n }),
                _ => None,
            };
        },
        _ => {
            return None;
        },
    }
    match (get_str(v, "topic"), get_str(v, "data")) {
        (Some(topic), Some(data)) => if !stamped {
            Some(Event { topic, data, ts: 0 })
        } else {
            match get_field(v, "ts") {
            None => Some(Event { topic, data, ts: 0 }),
                Some(JsonValue::UInt(n)) => Some(Event { topic, data, ts: *n }),
                Some(_) => None,
            }
        },
        _ => None,
    }
}

/// Reads a plugin's answer.
pub fn parse_response(raw: &str, stamped: bool) -> (r: Option<PluginResponse>)
    ensures
        r is Some <==> response_spec(raw@, stamped) is Some,
        r matches Some(resp) ==> response_spec(raw@, stamped) == Some(
            (
                match resp.log {
                    Some(s) => Some(s@),
                    None => None,
                },
                resp.emit@.map_values(|e: Event| event_view(e)),
            ),
        ),
{
    let v = match parse_json(raw) {
        Some(v) => v,
        None => {
            return None;
        },
    };
    if !check_record(&v, 2) {
        return None;
    }
    let log: Option<String> = match get_record_field(&v, "log", 0, 2) {
        None => None,
        Some(JsonValue::Null) => None,
        Some(JsonValue::Str(s)) => Some(s.clone()),
        Some(_) => {
            return None;
        },
    };
    let emit = match get_record_field(&v, "emit", 1, 2) {
        Some(JsonValue::Array(items)) => match events_from_items(items, stamped) {
            Some(es) => es,
            None => {
                return None;
            },
        },
        _ => {
            return None;
        },
    };
    Some(PluginResponse { log, emit })
}

/// The events of an `emit` array, `None` unless every item is an event.
fn events_from_items(items: &Vec<JsonValue>, stamped: bool) -> (r: Option<Vec<Event>>)
    ensures
        r is Some <==> forall|i: int| 0 <= i < items@.len() ==> #[trigger] event_fields(items@[i], stamped) is Some,
        r matches Some(es) ==> es@.map_values(|e: Event| event_view(e)) == Seq::new(
            items@.len(),
            |i: int| event_fields(items@[i], stamped)->0,
        ),
{
    let mut emit: Vec<Event> = Vec::new();
    let mut i: usize = 0;
    while i < items.len()
        invariant
            i <= items@.len(),
            emit@.len() == i,
            forall|j: int| 0 <= j < i ==> event_fields(items@[j], stamped) == Some(event_view(#[trigger] emit@[j])),
        decreases items@.len() - i,
    {
        match event_from_json(&items[i], stamped) {
            Some(e) => emit.push(e),
            None => {
                return None;
            },
        }
        i = i + 1;
    }
    proof {
        assert(emit@.map_values(|e: Event| event_view(e)) =~= Seq::new(items@.len(), |i: int| event_fields(items@[i], stamped)->0));
        assert forall|k: int| 0 <= k < items@.len() implies #[trigger] event_fields(items@[k], stamped) is Some by {
            assert(event_fields(items@[k], stamped) == Some(event_view(emit@[k])));
        }
    }
    Some(emit)
}

/// What a dispatch tells the console.
#[derive(Debug)]
pub enum Note {
    /// A plugin's log line.
    Log { plugin: String, line: String },
    /// A plugin's handler failed.
    Failure { plugin: String, error: String },
}

/// The outcome of handing an event to its subscribers: what they emitted,
/// in order, and what to tell the console.
pub struct Dispatch {
    pub emitted: Vec<Event>,
    pub notes: Vec<Note>,
}

/// A plugin's answer by its views.
pub open spec fn result_view(a: Result<String, String>) -> Result<Seq<char>, Seq<char>> {
    match a {
        Ok(s) => Ok(s@),
        Err(e) => Err(e@),
    }
}

/// A console note by its views: whether it reports a failure, the plugin,
/// and the line or error.
pub open spec fn note_view(n: Note) -> (bool, Seq<char>, Seq<char>) {
    match n {
        Note::Log { plugin, line } => (false, plugin@, line@),
        Note::Failure { plugin, error } => (true, plugin@, error@),
    }
}

/// The events an answer emits: those of a readable response, else none.
pub open spec fn answer_emits(answer: Result<Seq<char>, Seq<char>>, stamped: bool) -> Seq<(Seq<char>, Seq<char>, u64)> {
    match answer {
        Ok(raw) => match response_spec(raw, stamped) {
            Some((_, es)) => es,
            None => seq![],
        },
        Err(_) => seq![],
    }
}

/// What to tell the console of `plugin`'s answer: its log line, or its
/// failure; nothing when `quiet`.
pub open spec fn answer_note(quiet: bool, plugin: Seq<char>, answer: Result<Seq<char>, Seq<char>>, stamped: bool) -> Option<
    (bool, Seq<char>, Seq<char>),
> {
    if quiet {
        None
    } else {
        match answer {
            Ok(raw) => match response_spec(raw, stamped) {
                Some((Some(line), _)) => Some((false, plugin, line)),
                _ => None,
            },
            Err(e) => Some((true, plugin, e)),
        }
    }
}

/// The events that the answers emit, in order.
pub open spec fn emits_of(answers: Seq<(Seq<char>, Result<Seq<char>, Seq<char>>)>, stamped: bool) -> Seq<(Seq<char>, Seq<char>, u64)>
    decreases answers.len(),
{
    if answers.len() == 0 {
        seq![]
    } else {
        emits_of(answers.drop_last(), stamped) + answer_emits(answers.last().1, stamped)
    }
}

/// The console notes of the answers, in order.
pub open spec fn notes_of(quiet: bool, answers: Seq<(Seq<char>, Result<Seq<char>, Seq<char>>)>, stamped: bool) -> Seq<
    (bool, Seq<char>, Seq<char>),
>
    decreases answers.len(),
{
    if answers.len() == 0 {
        seq![]
    } else {
        let rest = notes_of(quiet, answers.drop_last(), stamped);
        match answer_note(quiet, answers.last().0, answers.last().1, stamped) {
            Some(n) => rest.push(n),
            None => rest,
        }
    }
}

/// `answers` holds one answer from each plugin that listens to `topic`,
/// and from no other.
pub open spec fn answers_cover(
    subs: Map<Seq<char>, Set<Seq<char>>>,
    topic: Seq<char>,
    answers: Seq<(Seq<char>, Result<Seq<char>, Seq<char>>)>,
) -> bool {
    &&& forall|j: int| 0 <= j < answers.len() ==> subs.contains_key(#[trigger] answers[j].0) && subs[answers[j].0].contains(topic)
    &&& forall|j: int, l: int| 0 <= j < l < answers.len() ==> answers[j].0 != answers[l].0
    &&& forall|name: Seq<char>| #[trigger] subs.contains_key(name) && subs[name].contains(topic) ==> exists|j: int| 0 <= j < answers.len() && answers[j].0 == name
}

/// What `plugin`'s answer adds to a dispatch: the events it emits, and
/// what to tell the console (nothing when `quiet`).
pub fn answer_effect(plugin: &str, quiet: bool, answer: Result<String, String>, stamped: bool) -> (r: (Vec<Event>, Option<Note>))
    ensures
        r.0@.map_values(|e: Event| event_view(e)) == answer_emits(result_view(answer), stamped),
        r.1 is Some <==> answer_note(quiet, plugin@, result_view(answer), stamped) is Some,
        r.1 matches Some(n) ==> answer_note(quiet, plugin@, result_view(answer), stamped) == Some(note_view(n)),
{
    let none: Vec<Event> = Vec::new();
    proof {
        assert(none@.map_values(|e: Event| event_view(e)) =~= seq![]);
    }
    match answer {
        Ok(raw) => match parse_response(raw.as_str(), stamped) {
            Some(resp) => {
                let PluginResponse { log, emit } = resp;
                let note = if quiet {
                    None
                } else {
                    match log {
                        Some(line) => Some(Note::Log { plugin: String::from_str(plugin), line }),
                        None => None,
                    }
                };
                (emit, note)
            },
            None => (none, None),
        },
        Err(error) => {
            let note = if quiet {
                None
            } else {
                Some(Note::Failure { plugin: String::from_str(plugin), error })
            };
            (none, note)
        },
    }
}

struct Subscriber<P> {
    plugin: P,
    topics: Vec<String>,
}

/// The topics are distinct.
pub open spec fn distinct_strings(v: Seq<String>) -> bool {
    forall|i: int, j: int| 0 <= i < j < v.len() ==> v[i]@ != v[j]@
}

fn contains_str(v: &Vec<String>, s: &str) -> (r: bool)
    ensures
        r <==> exists|i: int| 0 <= i < v@.len() && #[trigger] v@[i]@ == s@,
{
    let mut i: usize = 0;
    while i < v.len()
        invariant
            i <= v@.len(),
            forall|j: int| 0 <= j < i ==> #[trigger] v@[j]@ != s@,
        decreases v@.len() - i,
    {
        if str_eq(v[i].as_str(), s) {
            return true;
        }
        i = i + 1;
    }
    false
}

/// `t` is one of `v`.
pub open spec fn has_str(v: Seq<String>, t: Seq<char>) -> bool {
    exists|i: int| 0 <= i < v.len() && #[trigger] v[i]@ == t
}

/// The topics, each once, in first-seen order.
pub fn distinct_topics(topics: Vec<String>) -> (r: Vec<String>)
    ensures
        distinct_strings(r@),
        forall|t: Seq<char>| #[trigger] has_str(r@, t) <==> has_str(topics@, t),
{
    let mut out: Vec<String> = Vec::new();
    let mut i: usize = 0;
    while i < topics.len()
        invariant
            i <= topics@.len(),
            distinct_strings(out@),
            forall|t: Seq<char>| #[trigger] has_str(out@, t) <==> has_str(topics@.take(i as int), t),
        decreases topics@.len() - i,
    {
        let t = topics[i].clone();
        let ghost before = out@;
        let ghost prev = topics@.take(i as int);
        let ghost next = topics@.take(i + 1);
        assert(next =~= prev.push(topics@[i as int]));
        if !contains_str(&out, t.as_str()) {
            out.push(t);
            proof {
                assert forall|a: int, b: int| 0 <= a < b < out@.len() implies out@[a]@ != out@[b]@ by {
                    if b == out@.len() - 1 {
                        assert(before[a]@ != topics@[i as int]@);
                    }
                }
                assert forall|t2: Seq<char>| #[trigger] has_str(out@, t2) <==> has_str(next, t2) by {
                    if has_str(out@, t2) {
                        let k = choose|k: int| 0 <= k < out@.len() && #[trigger] out@[k]@ == t2;
                        if k < before.len() {
                            assert(before[k]@ == t2);
                            assert(has_str(before, t2));
                            let j = choose|j: int| 0 <= j < prev.len() && #[trigger] prev[j]@ == t2;
                            assert(next[j]@ == t2);
                        } else {
                            assert(next[i as int]@ == t2);
                        }
                    }
                    if has_str(next, t2) {
                        let j = choose|j: int| 0 <= j < next.len() && #[trigger] next[j]@ == t2;
                        if j < i {
                            assert(prev[j]@ == t2);
                            assert(has_str(prev, t2));
                            assert(has_str(before, t2));
                            let k = choose|k: int| 0 <= k < before.len() && #[trigger] before[k]@ == t2;
                            assert(out@[k]@ == t2);
                        } else {
                            assert(out@[out@.len() - 1]@ == t2);
                        }
                    }
                }
            }
        } else {
            proof {
                assert forall|t2: Seq<char>| #[trigger] has_str(out@, t2) <==> has_str(next, t2) by {
                    if has_str(out@, t2) {
                        let j = choose|j: int| 0 <= j < prev.len() && #[trigger] prev[j]@ == t2;
                        assert(next[j]@ == t2);
                    }
                    if has_str(next, t2) {
                        let j = choose|j: int| 0 <= j < next.len() && #[trigger] next[j]@ == t2;
                        if j < i {
                            assert(prev[j]@ == t2);
                        } else {
                            let k = choose|k: int| 0 <= k < out@.len() && #[trigger] out@[k]@ == t@;
                            assert(out@[k]@ == t2);
                        }
                    }
                }
            }
        }
        i = i + 1;
    }
    assert(topics@.take(i as int) =~= topics@);
    out
}

/// The command-line event engine: plugins by name, with the topics each
/// listens to.
pub struct Engine<P> {
    plugins: StrMap<Subscriber<P>>,
    stamped: bool,
    handlers: HandlerLog,
}

/// The `handle_event` calls the answers come from: each plugin handed
/// `json`.
pub open spec fn calls_of(answers: Seq<(Seq<char>, Result<Seq<char>, Seq<char>>)>, json: Seq<char>) -> Seq<(Seq<char>, Seq<char>)> {
    answers.map_values(|a: (Seq<char>, Result<Seq<char>, Seq<char>>)| (a.0, json))
}

impl<P> Engine<P> {
    pub closed spec fn wf(&self) -> bool {
        self.plugins.wf()
    }

    /// The topics of each loaded plugin, by name.
    pub closed spec fn subscriptions(&self) -> Map<Seq<char>, Set<Seq<char>>> {
        Map::new(
            |k: Seq<char>| self.plugins@.contains_key(k),
            |k: Seq<char>| Set::new(|t: Seq<char>| has_str(self.plugins@[k].topics@, t)),
        )
    }

    /// The plugins' `handle_event` calls so far, oldest first: each plugin's
    /// name and the input handed to it.
    pub closed spec fn calls(&self) -> Seq<(Seq<char>, Seq<char>)> {
        self.handlers.records()
    }

    /// Whether the bus keeps times: events carry `ts`, stamped on dispatch
    /// when `0`, and `SYS_TICK` traffic is not noted.
    pub closed spec fn stamped(&self) -> bool {
        self.stamped
    }

    /// No plugins, on a bus that keeps times (the command-line host).
    pub fn new() -> (e: Self)
        ensures
            e.wf(),
            e.subscriptions() == Map::<Seq<char>, Set<Seq<char>>>::empty(),
            e.stamped(),
            e.calls() == Seq::<(Seq<char>, Seq<char>)>::empty(),
    {
        let e = Engine { plugins: StrMap::new(), stamped: true, handlers: HandlerLog::new() };
        assert(e.subscriptions() =~= Map::<Seq<char>, Set<Seq<char>>>::empty());
        e
    }

    /// No plugins, on a bus that hands on only topic and data (the router).
    pub fn new_plain() -> (e: Self)
        ensures
            e.wf(),
            e.subscriptions() == Map::<Seq<char>, Set<Seq<char>>>::empty(),
            !e.stamped(),
            e.calls() == Seq::<(Seq<char>, Seq<char>)>::empty(),
    {
        let e = Engine { plugins: StrMap::new(), stamped: false, handlers: HandlerLog::new() };
        assert(e.subscriptions() =~= Map::<Seq<char>, Set<Seq<char>>>::empty());
        e
    }

    /// Adds (or replaces) the plugin `name`, listening to `topics`.
    pub fn load(&mut self, name: String, plugin: P, topics: Vec<String>)
        requires
            old(self).wf(),
        ensures
            final(self).wf(),
            final(self).subscriptions() == old(self).subscriptions().insert(
                name@,
                Set::new(|t: Seq<char>| has_str(topics@, t)),
            ),
            final(self).stamped() == old(self).stamped(),
            final(self).calls() == old(self).calls(),
    {
        let ghost given = topics@;
        let ts = distinct_topics(topics);
        let ghost name_v = name@;
        let _ = self.plugins.insert(name, Subscriber { plugin, topics: ts });
        proof {
            let a = Set::new(|t: Seq<char>| has_str(ts@, t));
            let b = Set::new(|t: Seq<char>| has_str(given, t));
            assert(a =~= b);
            assert(self.subscriptions() =~= old(self).subscriptions().insert(name_v, b));
        }
    }
}

impl<P: PluginCall> Engine<P> {
    /// Hands `event` to `handle_event` of every plugin that listens to its
    /// topic: each readable answer's events are emitted in order and its log
    /// line noted; a failing handler is noted.  On a bus that keeps times
    /// the event is first stamped with the current time in milliseconds when
    /// its `ts` is `0`, and nothing is noted for `SYS_TICK`; otherwise the
    /// plugins get only its topic and data.
    pub fn dispatch(&mut self, event: Event) -> (d: Dispatch)
        requires
            old(self).wf(),
        ensures
            final(self).wf(),
            final(self).subscriptions() == old(self).subscriptions(),
            final(self).stamped() == old(self).stamped(),
            old(self).stamped() && event.topic@ == SYS_TICK@ ==> d.notes@.len() == 0,
            exists|answers: Seq<(Seq<char>, Result<Seq<char>, Seq<char>>)>| {
                &&& answers_cover(old(self).subscriptions(), event.topic@, answers)
                &&& #[trigger] emits_of(answers, old(self).stamped()) == d.emitted@.map_values(|e: Event| event_view(e))
                &&& notes_of(old(self).stamped() && event.topic@ == SYS_TICK@, answers, old(self).stamped())
                    == d.notes@.map_values(|n: Note| note_view(n))
                &&& old(self).stamped() ==> exists|ts: u64| #![trigger event_fields_text(event.topic@, event.data@, ts)]
                    (event.ts != 0 ==> ts == event.ts) && final(self).calls() == old(self).calls() + calls_of(
                        answers,
                        event_fields_text(event.topic@, event.data@, ts),
                    )
                &&& !old(self).stamped() ==> final(self).calls() == old(self).calls() + calls_of(
                    answers,
                    plain_event_text(event.topic@, event.data@),
                )
            },
    {
        let stamped = self.stamped;
        let ghost orig_ts = event.ts;
        let mut event = event;
        if stamped && event.ts == 0 {
            event.ts = unix_now_millis();
        }
        let json = event_json(&event, stamped);
        let ghost stamp = event.ts;
        assert(stamped ==> json@ == event_fields_text(event.topic@, event.data@, stamp));
        assert(!stamped ==> json@ == plain_event_text(event.topic@, event.data@));
        let quiet = stamped && str_eq(event.topic.as_str(), SYS_TICK);
        let mut emitted: Vec<Event> = Vec::new();
        let mut notes: Vec<Note> = Vec::new();
        let keys = self.plugins.keys();
        let ghost subs = old(self).subscriptions();
        let ghost topic = event.topic@;
        let ghost mut answers: Seq<(Seq<char>, Result<Seq<char>, Seq<char>>)> = Seq::empty();
        let ghost mut idx: Seq<int> = Seq::empty();
        proof {
            assert(emitted@.map_values(|e: Event| event_view(e)) =~= seq![]);
            assert(notes@.map_values(|n: Note| note_view(n)) =~= seq![]);
            assert(self.calls() =~= old(self).calls() + calls_of(answers, json@));
        }
        let mut i: usize = 0;
        while i < keys.len()
            invariant
                self.wf(),
                self.subscriptions() == subs,
                self.plugins@.dom() == old(self).plugins@.dom(),
                subs == old(self).subscriptions(),
                topic == event.topic@,
                quiet == (stamped && event.topic@ == SYS_TICK@),
                stamped == old(self).stamped,
                self.stamped == stamped,
                quiet ==> notes@.len() == 0,
                i <= keys@.len(),
                keys@.len() == old(self).plugins@.dom().len(),
                forall|a: int, b: int| 0 <= a < b < keys@.len() ==> keys@[a]@ != keys@[b]@,
                forall|a: int| 0 <= a < keys@.len() ==> old(self).plugins@.contains_key(#[trigger] keys@[a]@),
                forall|k: Seq<char>| old(self).plugins@.contains_key(k) ==> exists|a: int| 0 <= a < keys@.len() && #[trigger] keys@[a]@ == k,
                idx.len() == answers.len(),
                forall|j: int| 0 <= j < idx.len() ==> 0 <= #[trigger] idx[j] < i && answers[j].0 == keys@[idx[j]]@,
                forall|j: int, l: int| 0 <= j < l < idx.len() ==> idx[j] < idx[l],
                forall|j: int| 0 <= j < answers.len() ==> subs.contains_key(#[trigger] answers[j].0) && subs[answers[j].0].contains(topic),
                forall|a: int| 0 <= a < i && subs.contains_key(#[trigger] keys@[a]@) && subs[keys@[a]@].contains(topic) ==> exists|j: int| 0 <= j < idx.len() && idx[j] == a,
                emitted@.map_values(|e: Event| event_view(e)) == emits_of(answers, stamped),
                notes@.map_values(|n: Note| note_view(n)) == notes_of(quiet, answers, stamped),
                self.calls() == old(self).calls() + calls_of(answers, json@),
            decreases keys@.len() - i,
        {
            let name = keys[i].as_str();
            let ghost before = self.plugins@;
            match self.plugins.remove(name) {
                Some(mut sub) => {
                    if contains_str(&sub.topics, event.topic.as_str()) {
                        let answer = self.handlers.handle_event(&mut sub.plugin, name, json.as_str());
                        let ghost av = result_view(answer);
                        let ghost em_before = emitted@;
                        let ghost notes_before = notes@;
                        let ghost ans_before = answers;
                        let ghost idx_before = idx;
                        let (mut es, note) = answer_effect(name, quiet, answer, stamped);
                        let ghost es_v = es@;
                        let ghost note_g = note;
                        emitted.append(&mut es);
                        match note {
                            Some(n) => notes.push(n),
                            None => {},
                        }
                        proof {
                            answers = answers.push((name@, av));
                            idx = idx.push(i as int);
                            assert(answers.drop_last() =~= ans_before);
                            assert(calls_of(answers, json@) =~= calls_of(ans_before, json@).push((name@, json@)));
                            assert(self.calls() =~= old(self).calls() + calls_of(answers, json@));
                            assert(emitted@ =~= em_before + es_v);
                            assert(emitted@.map_values(|e: Event| event_view(e)) =~= em_before.map_values(
                                |e: Event| event_view(e),
                            ) + es_v.map_values(|e: Event| event_view(e)));
                            assert(subs[name@] =~= Set::new(|t: Seq<char>| has_str(sub.topics@, t)));
                            assert(has_str(sub.topics@, topic));
                            assert(subs.contains_key(name@));
                            assert(answers[answers.len() - 1].0 == name@);
                            match note_g {
                                Some(n) => {
                                    assert(notes@ =~= notes_before.push(n));
                                    assert(notes@.map_values(|n: Note| note_view(n)) =~= notes_before.map_values(
                                        |n: Note| note_view(n),
                                    ).push(note_view(n)));
                                },
                                None => {
                                    assert(notes@ =~= notes_before);
                                },
                            }
                            assert forall|a: int| 0 <= a < i + 1 && subs.contains_key(#[trigger] keys@[a]@) && subs[keys@[a]@].contains(topic)
                                implies exists|j: int| 0 <= j < idx.len() && idx[j] == a by {
                                if a == i {
                                    assert(idx[idx.len() - 1] == a);
                                } else {
                                    let j = choose|j: int| 0 <= j < idx_before.len() && idx_before[j] == a;
                                    assert(idx[j] == a);
                                }
                            }
                        }
                    } else {
                        proof {
                            assert(subs[name@] =~= Set::new(|t: Seq<char>| has_str(sub.topics@, t)));
                            assert(!subs[name@].contains(topic));
                            assert forall|a: int| 0 <= a < i + 1 && subs.contains_key(#[trigger] keys@[a]@) && subs[keys@[a]@].contains(topic)
                                implies exists|j: int| 0 <= j < idx.len() && idx[j] == a by {
                                if a < i {
                                } else {
                                    assert(keys@[a]@ == name@);
                                }
                            }
                        }
                    }
                    let ghost sv = sub;
                    let _ = self.plugins.insert(keys[i].clone(), sub);
                    proof {
                        assert(self.plugins@ =~= before.remove(name@).insert(name@, sv));
                        assert(before.contains_key(name@));
                        assert(self.plugins@.dom() =~= old(self).plugins@.dom());
                        assert(self.subscriptions() =~= old(self).subscriptions());
                    }
                },
                None => {
                    assert(self.plugins@ =~= before);
                    assert(false);
                },
            }
            i = i + 1;
        }
        proof {
            assert forall|name: Seq<char>| #[trigger] subs.contains_key(name) && subs[name].contains(topic) implies exists|j: int|
                0 <= j < answers.len() && answers[j].0 == name by {
                let a = choose|a: int| 0 <= a < keys@.len() && #[trigger] keys@[a]@ == name;
                let j = choose|j: int| 0 <= j < idx.len() && idx[j] == a;
                assert(answers[j].0 == name);
            }
            assert forall|j: int, l: int| 0 <= j < l < answers.len() implies answers[j].0 != answers[l].0 by {
                assert(idx[j] < idx[l]);
            }
            assert(answers_cover(subs, topic, answers));
            assert(emits_of(answers, old(self).stamped()) == emitted@.map_values(|e: Event| event_view(e)));
            if stamped {
                assert(orig_ts != 0 ==> stamp == orig_ts);
                assert(self.calls() == old(self).calls() + calls_of(answers, event_fields_text(event.topic@, event.data@, stamp)));
            }
        }
        Dispatch { emitted, notes }
    }
}

} // verus!
