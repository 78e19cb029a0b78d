use vstd::prelude::*;
use crate::codec::hex_digit;
use crate::text::{decimal, decimal_string, str_eq, string_push};

verus! {

/// A JSON document as the library reads and writes it.
#[derive(Debug)]
pub enum JsonValue {
    Null,
    Bool(bool),
    /// A non-negative integer that fits in 64 bits.
    UInt(u64),
    /// A negative integer that fits in 64 bits.
    NegInt(i64),
    /// Any other number; its value is not kept.
    OtherNumber,
    Str(String),
    Array(Vec<JsonValue>),
    /// Members in document order.
    Object(Vec<(String, JsonValue)>),
}

#[verifier::external_type_specification]
#[verifier::external_body]
pub struct ExSerdeValue(serde_json::Value);

/// What `serde_json::from_str::<serde_json::Value>` makes of `text`: the
/// document, or the text of its error.
pub uninterp spec fn serde_parse(text: Seq<char>) -> Result<JsonValue, Seq<char>>;

/// How `serde_json` writes one character inside a string literal: a quote
/// or a backslash behind a backslash; backspace, form feed, line feed,
/// carriage return and tab as `\b`, `\f`, `\n`, `\r`, `\t`; any other
/// character below U+0020 as `\u00` and two lower-case hex digits; every
/// other character as itself.
pub open spec fn escape_char(c: char) -> Seq<char> {
    let n = c as u32;
    if c == '"' {
        seq!['\\', '"']
    } else if c == '\\' {
        seq!['\\', '\\']
    } else if n == 8 {
        seq!['\\', 'b']
    } else if n == 12 {
        seq!['\\', 'f']
    } else if n == 10 {
        seq!['\\', 'n']
    } else if n == 13 {
        seq!['\\', 'r']
    } else if n == 9 {
        seq!['\\', 't']
    } else if n < 32 {
        seq!['\\', 'u', '0', '0', hex_digit((n / 16) as nat), hex_digit((n % 16) as nat)]
    } else {
        seq![c]
    }
}

/// The characters of `s`, each escaped as `escape_char` says.
pub open spec fn escaped(s: Seq<char>) -> Seq<char>
    decreases s.len(),
{
    if s.len() == 0 {
        seq![]
    } else {
        escaped(s.drop_last()) + escape_char(s.last())
    }
}

/// The JSON string literal that `serde_json` writes for `s`: its escaped
/// characters between double quotes.
pub open spec fn json_quote(s: Seq<char>) -> Seq<char> {
    seq!['"'] + escaped(s) + seq!['"']
}

/// What `serde_json` reads from `text`, or `None` when it is not JSON.
pub open spec fn json_parse_spec(text: Seq<char>) -> Option<JsonValue> {
    match serde_parse(text) {
        Ok(v) => Some(v),
        Err(_) => None,
    }
}

/// Turns `serde_json`'s value into a document, variant by variant; a number
/// that is neither a `u64` nor an `i64` becomes `OtherNumber`.
#[verifier::external_body]
fn from_serde_value(v: &serde_json::Value) -> JsonValue {
    match v {
        serde_json::Value::Null => JsonValue::Null,
        serde_json::Value::Bool(b) => JsonValue::Bool(*b),
        serde_json::Value::Number(n) => match (n.as_u64(), n.as_i64()) {
            (Some(u), _) => JsonValue::UInt(u),
            (None, Some(i)) => JsonValue::NegInt(i),
            (None, None) => JsonValue::OtherNumber,
        },
        serde_json::Value::String(s) => JsonValue::Str(s.clone()),
        serde_json::Value::Array(a) => JsonValue::Array(a.iter().map(from_serde_value).collect()),
        serde_json::Value::Object(m) => JsonValue::Object(
            m.iter().map(|(k, x)| (k.clone(), from_serde_value(x))).collect(),
        ),
    }
}

/// `v[key].as_bool()`.
pub open spec fn bool_field(v: JsonValue, key: Seq<char>) -> Option<bool> {
    match field(v, key) {
        Some(JsonValue::Bool(b)) => Some(b),
        _ => None,
    }
}

/// An object whose keys are distinct and whose values are strings, `u64`
/// numbers or booleans.
pub open spec fn flat_object(v: JsonValue) -> bool {
    match v {
        JsonValue::Object(fs) => {
            &&& forall|i: int, j: int| 0 <= i < j < fs@.len() ==> fs@[i].0@ != fs@[j].0@
            &&& forall|i: int| 0 <= i < fs@.len() ==> (#[trigger] fs@[i].1 is Str || fs@[i].1 is UInt || fs@[i].1 is Bool)
        },
        _ => false,
    }
}

/// `w` and `v` give the same strings, numbers and booleans for every key.
pub open spec fn reads_same(w: JsonValue, v: JsonValue) -> bool {
    &&& w is Object
    &&& forall|k: Seq<char>| #[trigger] str_field(w, k) == str_field(v, k)
    &&& forall|k: Seq<char>| #[trigger] u64_field(w, k) == u64_field(v, k)
    &&& forall|k: Seq<char>| #[trigger] bool_field(w, k) == bool_field(v, k)
}

/// `serde_json::from_str::<serde_json::Value>`: the document that `text`
/// holds (object members in key order, the last of repeated keys kept), or
/// the text of the error.  The contract names the outcome, and states one
/// fact of the grammar: the text `serde_json` writes for a flat object
/// reads back with the same members.
#[verifier::external_body]
pub fn parse_json_result(text: &str) -> (r: Result<JsonValue, String>)
    ensures
        r matches Ok(v) ==> (serde_parse(text@) matches Ok(w) && w == v),
        r matches Err(e) ==> (serde_parse(text@) matches Err(m) && m == e@),
        r is Err ==> forall|v: JsonValue| #[trigger] flat_object(v) ==> json_text(v) != text@,
        r matches Ok(w) ==> forall|v: JsonValue| #[trigger] flat_object(v) && json_text(v) == text@ ==> reads_same(w, v),
{
    match serde_json::from_str::<serde_json::Value>(text) {
        Ok(v) => Ok(from_serde_value(&v)),
        Err(e) => Err(e.to_string()),
    }
}

/// The document that `text` holds, or `None` when it is not JSON.
pub fn parse_json(text: &str) -> (r: Option<JsonValue>)
    ensures
        r == json_parse_spec(text@),
        r is None ==> forall|v: JsonValue| #[trigger] flat_object(v) ==> json_text(v) != text@,
        r matches Some(w) ==> forall|v: JsonValue| #[trigger] flat_object(v) && json_text(v) == text@ ==> reads_same(w, v),
{
    match parse_json_result(text) {
        Ok(v) => Some(v),
        Err(_) => None,
    }
}

/// `serde_json::to_string` on a string: its JSON literal, escaped as
/// `serde_json`'s `format_escaped_str` does.
#[verifier::external_body]
pub(crate) fn quote_str(s: &str) -> (q: String)
    ensures
        q@ == json_quote(s@),
{
    serde_json::Value::String(s.to_string()).to_string()
}

/// The compact JSON text of `v`, as `serde_json` writes it: members and
/// items in document order, no white space.  `OtherNumber`, which holds no
/// value, is written `null`.
pub open spec fn json_text(v: JsonValue) -> Seq<char>
    decreases v,
{
    match v {
        JsonValue::Null => seq!['n', 'u', 'l', 'l'],
        JsonValue::OtherNumber => seq!['n', 'u', 'l', 'l'],
        JsonValue::Bool(b) => if b {
            seq!['t', 'r', 'u', 'e']
        } else {
            seq!['f', 'a', 'l', 's', 'e']
        },
        JsonValue::UInt(n) => decimal(n as nat),
        JsonValue::NegInt(n) => if n < 0 {
            seq!['-'] + decimal((0 - n) as nat)
        } else {
            decimal(n as nat)
        },
        JsonValue::Str(s) => json_quote(s@),
        JsonValue::Array(items) => seq!['['] + items_text(items@) + seq![']'],
        JsonValue::Object(fs) => seq!['{'] + members_text(fs@) + seq!['}'],
    }
}

/// The texts of `items`, joined by commas.
pub open spec fn items_text(items: Seq<JsonValue>) -> Seq<char>
    decreases items,
{
    if items.len() == 0 {
        seq![]
    } else if items.len() == 1 {
        json_text(items[0])
    } else {
        items_text(items.drop_last()) + seq![','] + json_text(items.last())
    }
}

/// The texts of the members `"key":value`, joined by commas.
pub open spec fn members_text(fs: Seq<(String, JsonValue)>) -> Seq<char>
    decreases fs,
{
    if fs.len() == 0 {
        seq![]
    } else if fs.len() == 1 {
        json_quote(fs[0].0@) + seq![':'] + json_text(fs[0].1)
    } else {
        members_text(fs.drop_last()) + seq![','] + json_quote(fs.last().0@) + seq![':'] + json_text(fs.last().1)
    }
}

/// The members' text after one more member.
pub proof fn lemma_members_push(fs: Seq<(String, JsonValue)>, m: (String, JsonValue))
    ensures
        members_text(fs.push(m)) == if fs.len() == 0 {
            json_quote(m.0@) + seq![':'] + json_text(m.1)
        } else {
            members_text(fs) + seq![','] + json_quote(m.0@) + seq![':'] + json_text(m.1)
        },
{
    assert(fs.push(m).drop_last() =~= fs);
}

/// The member text `"key":"value"`.
pub open spec fn str_pair(key: Seq<char>, value: Seq<char>) -> Seq<char> {
    json_quote(key) + seq![':'] + json_quote(value)
}

/// The member text `"key":n`.
pub open spec fn num_pair(key: Seq<char>, n: u64) -> Seq<char> {
    json_quote(key) + seq![':'] + decimal(n as nat)
}

/// Appends `t` to `out`.
fn push_str(out: &mut String, t: &str)
    ensures
        final(out)@ == old(out)@ + t@,
{
    out.append(t);
}

fn one_char(c: char) -> (s: String)
    ensures
        s@ == seq![c],
{
    let mut s = String::new();
    string_push(&mut s, c);
    assert(s@ =~= seq![c]);
    s
}

/// The compact JSON text of `v`.
pub fn to_json_string(v: &JsonValue) -> (s: String)
    ensures
        s@ == json_text(*v),
    decreases v,
{
    match v {
        JsonValue::Null | JsonValue::OtherNumber => {
            let mut s = String::new();
            string_push(&mut s, 'n');
            string_push(&mut s, 'u');
            string_push(&mut s, 'l');
            string_push(&mut s, 'l');
            assert(s@ =~= seq!['n', 'u', 'l', 'l']);
            s
        },
        JsonValue::Bool(b) => {
            let mut s = String::new();
            if *b {
                string_push(&mut s, 't');
                string_push(&mut s, 'r');
                string_push(&mut s, 'u');
                string_push(&mut s, 'e');
                assert(s@ =~= seq!['t', 'r', 'u', 'e']);
            } else {
                string_push(&mut s, 'f');
                string_push(&mut s, 'a');
                string_push(&mut s, 'l');
                string_push(&mut s, 's');
                string_push(&mut s, 'e');
                assert(s@ =~= seq!['f', 'a', 'l', 's', 'e']);
            }
            s
        },
        JsonValue::UInt(n) => decimal_string(*n),
        JsonValue::NegInt(n) => {
            if *n < 0 {
                let m: u64 = (0i128 - (*n as i128)) as u64;
                let mut s = one_char('-');
                let d = decimal_string(m);
                push_str(&mut s, d.as_str());
                s
            } else {
                decimal_string(*n as u64)
            }
        },
        JsonValue::Str(x) => quote_str(x.as_str()),
        JsonValue::Array(items) => {
            let mut out = one_char('[');
            let mut i: usize = 0;
            assert(items@.take(0) =~= Seq::<JsonValue>::empty());
            while i < items.len()
                invariant
                    i <= items@.len(),
                    *v == JsonValue::Array(*items),
                    out@ == seq!['['] + items_text(items@.take(i as int)),
                decreases items@.len() - i,
            {
                proof {
                    let ghost it = *items;
                    assert(decreases_to!(*v => (*v)->Array_0));
                    assert(decreases_to!(it => it@));
                    assert(decreases_to!(it@ => it@[i as int]));
                    assert(decreases_to!(*v => items@[i as int]));
                }
                let t = to_json_string(&items[i]);
                if i > 0 {
                    push_str(&mut out, ",");
                    proof {
                        reveal_strlit(",");
                    }
                }
                push_str(&mut out, t.as_str());
                proof {
                    let next = items@.take(i + 1);
                    assert(next.drop_last() =~= items@.take(i as int));
                    assert(next.last() == items@[i as int]);
                    assert(out@ =~= seq!['['] + items_text(next));
                }
                i = i + 1;
            }
            assert(items@.take(i as int) =~= items@);
            let ghost before = out@;
            push_str(&mut out, "]");
            proof {
                reveal_strlit("]");
                assert(out@ =~= before + seq![']']);
            }
            out
        },
        JsonValue::Object(fs) => {
            let mut out = one_char('{');
            let mut i: usize = 0;
            assert(fs@.take(0) =~= Seq::<(String, JsonValue)>::empty());
            while i < fs.len()
                invariant
                    i <= fs@.len(),
                    *v == JsonValue::Object(*fs),
                    out@ == seq!['{'] + members_text(fs@.take(i as int)),
                decreases fs@.len() - i,
            {
                proof {
                    let ghost ms = *fs;
                    assert(decreases_to!(*v => (*v)->Object_0));
                    assert(decreases_to!(ms => ms@));
                    assert(decreases_to!(ms@ => ms@[i as int]));
                    assert(decreases_to!(ms@[i as int] => ms@[i as int].1));
                    assert(decreases_to!(*v => fs@[i as int].1));
                }
                let k = quote_str(fs[i].0.as_str());
                let t = to_json_string(&fs[i].1);
                if i > 0 {
                    push_str(&mut out, ",");
                    proof {
                        reveal_strlit(",");
                    }
                }
                push_str(&mut out, k.as_str());
                push_str(&mut out, ":");
                proof {
                    reveal_strlit(":");
                }
                push_str(&mut out, t.as_str());
                proof {
                    let next = fs@.take(i + 1);
                    assert(next.drop_last() =~= fs@.take(i as int));
                    assert(next.last() == fs@[i as int]);
                    assert(out@ =~= seq!['{'] + members_text(next));
                }
                i = i + 1;
            }
            assert(fs@.take(i as int) =~= fs@);
            let ghost before = out@;
            push_str(&mut out, "}");
            proof {
                reveal_strlit("}");
                assert(out@ =~= before + seq!['}']);
            }
            out
        },
    }
}

/// The member `key` of an object (the first, should there be several).
pub open spec fn member(fields: Seq<(String, JsonValue)>, key: Seq<char>) -> Option<JsonValue>
    decreases fields.len(),
{
    if fields.len() == 0 {
        None
    } else if fields[0].0@ == key {
        Some(fields[0].1)
    } else {
        member(fields.drop_first(), key)
    }
}

/// `v[key]`: the member of an object, `None` for a missing key or a non-object.
pub open spec fn field(v: JsonValue, key: Seq<char>) -> Option<JsonValue> {
    match v {
        JsonValue::Object(fields) => member(fields@, key),
        _ => None,
    }
}

/// `v[key].as_str()`.
pub open spec fn str_field(v: JsonValue, key: Seq<char>) -> Option<Seq<char>> {
    match field(v, key) {
        Some(JsonValue::Str(s)) => Some(s@),
        _ => None,
    }
}

/// The string member `key` of a parsed document.
pub open spec fn doc_str(doc: Option<JsonValue>, key: Seq<char>) -> Option<Seq<char>> {
    match doc {
        Some(v) => str_field(v, key),
        None => None,
    }
}

/// `v[key].as_u64()`.
pub open spec fn u64_field(v: JsonValue, key: Seq<char>) -> Option<u64> {
    match field(v, key) {
        Some(JsonValue::UInt(n)) => Some(n),
        _ => None,
    }
}

/// `v[key] == true`.
pub open spec fn true_field(v: JsonValue, key: Seq<char>) -> bool {
    field(v, key) == Some(JsonValue::Bool(true))
}

fn find_member<'a>(fields: &'a Vec<(String, JsonValue)>, key: &str) -> (r: Option<&'a JsonValue>)
    ensures
        r matches Some(x) ==> member(fields@, key@) == Some(*x),
        r is None ==> member(fields@, key@) is None,
{
    let mut i: usize = 0;
    assert(fields@.subrange(0, fields@.len() as int) =~= fields@);
    while i < fields.len()
        invariant
            i <= fields@.len(),
            member(fields@, key@) == member(fields@.subrange(i as int, fields@.len() as int), key@),
        decreases fields@.len() - i,
    {
        let ghost rest = fields@.subrange(i as int, fields@.len() as int);
        assert(rest[0] == fields@[i as int]);
        if str_eq(fields[i].0.as_str(), key) {
            return Some(&fields[i].1);
        }
        assert(rest.drop_first() =~= fields@.subrange(i + 1, fields@.len() as int));
        i = i + 1;
    }
    assert(fields@.subrange(i as int, fields@.len() as int).len() == 0);
    None
}

/// `v[key]`.
pub fn get_field<'a>(v: &'a JsonValue, key: &str) -> (r: Option<&'a JsonValue>)
    ensures
        r matches Some(x) ==> field(*v, key@) == Some(*x),
        r is None ==> field(*v, key@) is None,
{
    match v {
        JsonValue::Object(fields) => find_member(fields, key),
        _ => None,
    }
}

/// Field number `idx`, named `key`, of a struct of `n` fields, read as
/// serde's derived readers read one: the member `key` of an object, or item
/// `idx` of an array of exactly `n` items.
pub open spec fn record_field(v: JsonValue, key: Seq<char>, idx: int, n: int) -> Option<JsonValue> {
    match v {
        JsonValue::Object(fields) => member(fields@, key),
        JsonValue::Array(items) => if items@.len() == n && 0 <= idx < n {
            Some(items@[idx])
        } else {
            None
        },
        _ => None,
    }
}

/// `v` has the shape of a struct of `n` fields: an object, or an array of
/// exactly `n` items.
pub open spec fn is_record(v: JsonValue, n: int) -> bool {
    match v {
        JsonValue::Object(_) => true,
        JsonValue::Array(items) => items@.len() == n,
        _ => false,
    }
}

/// The string field number `idx`, named `key`, of a struct of `n` fields.
pub open spec fn record_str(v: JsonValue, key: Seq<char>, idx: int, n: int) -> Option<Seq<char>> {
    match record_field(v, key, idx, n) {
        Some(JsonValue::Str(s)) => Some(s@),
        _ => None,
    }
}

/// The number field number `idx`, named `key`, of a struct of `n` fields.
pub open spec fn record_u64(v: JsonValue, key: Seq<char>, idx: int, n: int) -> Option<u64> {
    match record_field(v, key, idx, n) {
        Some(JsonValue::UInt(x)) => Some(x),
        _ => None,
    }
}

/// The string field `key` (number `idx` of `n`) of a parsed document.
pub open spec fn doc_record_str(doc: Option<JsonValue>, key: Seq<char>, idx: int, n: int) -> Option<Seq<char>> {
    match doc {
        Some(v) => record_str(v, key, idx, n),
        None => None,
    }
}

/// Field number `idx`, named `key`, of a struct of `n` fields.
pub fn get_record_field<'a>(v: &'a JsonValue, key: &str, idx: usize, n: usize) -> (r: Option<&'a JsonValue>)
    ensures
        r matches Some(x) ==> record_field(*v, key@, idx as int, n as int) == Some(*x),
        r is None ==> record_field(*v, key@, idx as int, n as int) is None,
{
    match v {
        JsonValue::Object(fields) => find_member(fields, key),
        JsonValue::Array(items) => if items.len() == n && idx < n {
            Some(&items[idx])
        } else {
            None
        },
        _ => None,
    }
}

/// The number field number `idx`, named `key`, of a struct of `n` fields.
pub fn get_record_u64(v: &JsonValue, key: &str, idx: usize, n: usize) -> (r: Option<u64>)
    ensures
        r == record_u64(*v, key@, idx as int, n as int),
{
    match get_record_field(v, key, idx, n) {
        Some(JsonValue::UInt(x)) => Some(*x),
        _ => None,
    }
}

/// Whether `v` has the shape of a struct of `n` fields.
pub fn check_record(v: &JsonValue, n: usize) -> (r: bool)
    ensures
        r == is_record(*v, n as int),
{
    match v {
        JsonValue::Object(_) => true,
        JsonValue::Array(items) => items.len() == n,
        _ => false,
    }
}

/// The string field number `idx`, named `key`, of a struct of `n` fields.
pub fn get_record_str(v: &JsonValue, key: &str, idx: usize, n: usize) -> (r: Option<String>)
    ensures
        r matches Some(s) ==> record_str(*v, key@, idx as int, n as int) == Some(s@),
        r is None ==> record_str(*v, key@, idx as int, n as int) is None,
{
    match get_record_field(v, key, idx, n) {
        Some(JsonValue::Str(s)) => Some(s.clone()),
        _ => None,
    }
}

/// `v[key]`, taken out of `v`.
pub fn take_field(v: JsonValue, key: &str) -> (r: Option<JsonValue>)
    ensures
        r == field(v, key@),
{
    match v {
        JsonValue::Object(fields) => {
            let ghost all = fields@;
            assert(field(v, key@) == member(all, key@));
            let mut fields = fields;
            let mut i: usize = 0;
            assert(fields@.subrange(0, fields@.len() as int) =~= fields@);
            while i < fields.len()
                invariant
                    fields@ == all,
                    field(v, key@) == member(all, key@),
                    i <= fields@.len(),
                    member(all, key@) == member(fields@.subrange(i as int, fields@.len() as int), key@),
                decreases fields@.len() - i,
            {
                let ghost rest = fields@.subrange(i as int, fields@.len() as int);
                assert(rest[0] == fields@[i as int]);
                if str_eq(fields[i].0.as_str(), key) {
                    let ghost target = fields@[i as int];
                    let (_, x) = fields.remove(i);
                    assert(x == target.1);
                    return Some(x);
                }
                assert(rest.drop_first() =~= fields@.subrange(i + 1, fields@.len() as int));
                i = i + 1;
            }
            assert(fields@.subrange(i as int, fields@.len() as int).len() == 0);
            None
        },
        _ => None,
    }
}

/// `v[key].as_str()`.
pub fn get_str(v: &JsonValue, key: &str) -> (r: Option<String>)
    ensures
        r matches Some(s) ==> str_field(*v, key@) == Some(s@),
        r is None ==> str_field(*v, key@) is None,
{
    match get_field(v, key) {
        Some(JsonValue::Str(s)) => Some(s.clone()),
        _ => None,
    }
}

/// `v[key].as_u64()`.
pub fn get_u64(v: &JsonValue, key: &str) -> (r: Option<u64>)
    ensures
        r == u64_field(*v, key@),
{
    match get_field(v, key) {
        Some(JsonValue::UInt(n)) => Some(*n),
        _ => None,
    }
}

/// `v[key] == true`.
pub fn is_true(v: &JsonValue, key: &str) -> (r: bool)
    ensures
        r == true_field(*v, key@),
{
    match get_field(v, key) {
        Some(JsonValue::Bool(b)) => *b,
        _ => false,
    }
}

/// A string member.
pub fn str_member(key: &str, value: &str) -> (m: (String, JsonValue))
    ensures
        m.0@ == key@,
        m.1 matches JsonValue::Str(s) && s@ == value@,
{
    (String::from_str(key), JsonValue::Str(String::from_str(value)))
}

/// A number member.
pub fn u64_member(key: &str, value: u64) -> (m: (String, JsonValue))
    ensures
        m.0@ == key@,
        m.1 == JsonValue::UInt(value),
{
    (String::from_str(key), JsonValue::UInt(value))
}

} // verus!

verus! {

proof fn lemma_escaped_first(s: Seq<char>)
    requires
        s.len() > 0,
    ensures
        escaped(s) == escape_char(s[0]) + escaped(s.drop_first()),
    decreases s.len(),
{
    if s.len() == 1 {
        assert(s.drop_last() =~= Seq::<char>::empty());
        assert(s.drop_first() =~= Seq::<char>::empty());
        assert(escaped(Seq::<char>::empty()) =~= Seq::<char>::empty());
        assert(s.last() == s[0]);
        assert(escaped(s) =~= escape_char(s[0]));
    } else {
        lemma_escaped_first(s.drop_last());
        assert(s.drop_last().drop_first() =~= s.drop_first().drop_last());
        assert(s.drop_last()[0] == s[0]);
        assert(s.drop_first().last() == s.last());
        assert(escaped(s.drop_first()) == escaped(s.drop_first().drop_last()) + escape_char(s.drop_first().last()));
        assert(escaped(s) =~= escape_char(s[0]) + escaped(s.drop_first()));
    }
}

proof fn lemma_escape_char_shape(c: char)
    ensures
        ({
            let e = escape_char(c);
            let n = c as u32;
            ||| e.len() == 1 && e[0] == c
            ||| e.len() == 2 && e[0] == '\\' && (e[1] == '"' ==> c == '"') && (e[1] == '\\' ==> c == '\\')
                && (e[1] == 'b' ==> n == 8) && (e[1] == 'f' ==> n == 12) && (e[1] == 'n' ==> n == 10) && (e[1] == 'r'
                ==> n == 13) && (e[1] == 't' ==> n == 9) && (e[1] == '"' || e[1] == '\\' || e[1] == 'b' || e[1] == 'f'
                || e[1] == 'n' || e[1] == 'r' || e[1] == 't')
            ||| e.len() == 6 && e[0] == '\\' && e[1] == 'u' && n < 32 && e[4] == hex_digit((n / 16) as nat) && e[5]
                == hex_digit((n % 16) as nat)
        }),
{
}

proof fn lemma_escape_char_injective(c1: char, c2: char)
    requires
        escape_char(c1) == escape_char(c2),
    ensures
        c1 == c2,
{
    lemma_escape_char_shape(c1);
    lemma_escape_char_shape(c2);
    let e = escape_char(c1);
    let n1 = c1 as u32;
    let n2 = c2 as u32;
    if e.len() == 6 {
        assert(hex_digit((n1 / 16) as nat) == hex_digit((n2 / 16) as nat));
        assert(hex_digit((n1 % 16) as nat) == hex_digit((n2 % 16) as nat));
        lemma_hex_digit_injective((n1 / 16) as nat, (n2 / 16) as nat);
        lemma_hex_digit_injective((n1 % 16) as nat, (n2 % 16) as nat);
        assert(n1 == n2);
    } else if e.len() == 2 {
        assert(n1 == n2);
    }
}

proof fn lemma_hex_digit_injective(a: nat, b: nat)
    requires
        a < 16,
        b < 16,
        hex_digit(a) == hex_digit(b),
    ensures
        a == b,
{
}

proof fn lemma_escape_char_prefix(c1: char, c2: char, r1: Seq<char>, r2: Seq<char>)
    requires
        escape_char(c1) + r1 == escape_char(c2) + r2,
    ensures
        c1 == c2,
        r1 == r2,
{
    let e1 = escape_char(c1);
    let e2 = escape_char(c2);
    let t = e1 + r1;
    assert(t[0] == e1[0] && t[0] == e2[0]);
    if e1.len() > 1 {
        assert(t[1] == e1[1]);
    }
    if e2.len() > 1 {
        assert(t[1] == e2[1]);
    }
    assert(e1.len() == e2.len());
    assert(e1 =~= t.subrange(0, e1.len() as int));
    assert(e2 =~= (e2 + r2).subrange(0, e2.len() as int));
    assert(r1 =~= t.subrange(e1.len() as int, t.len() as int));
    assert(r2 =~= (e2 + r2).subrange(e2.len() as int, (e2 + r2).len() as int));
    lemma_escape_char_injective(c1, c2);
}

proof fn lemma_escaped_close(a: Seq<char>, b: Seq<char>, r1: Seq<char>, r2: Seq<char>)
    requires
        escaped(a) + seq!['"'] + r1 == escaped(b) + seq!['"'] + r2,
    ensures
        a == b,
        r1 == r2,
    decreases a.len() + b.len(),
{
    let lhs = escaped(a) + seq!['"'] + r1;
    if a.len() == 0 && b.len() == 0 {
        assert(r1 =~= lhs.drop_first());
        assert(r2 =~= (escaped(b) + seq!['"'] + r2).drop_first());
    } else if a.len() == 0 {
        lemma_escaped_first(b);
        assert(lhs[0] == '"');
        assert((escaped(b) + seq!['"'] + r2)[0] == escape_char(b[0])[0]);
    } else if b.len() == 0 {
        lemma_escaped_first(a);
        assert((escaped(b) + seq!['"'] + r2)[0] == '"');
        assert(lhs[0] == escape_char(a[0])[0]);
    } else {
        lemma_escaped_first(a);
        lemma_escaped_first(b);
        let ra = escaped(a.drop_first()) + seq!['"'] + r1;
        let rb = escaped(b.drop_first()) + seq!['"'] + r2;
        assert(lhs =~= escape_char(a[0]) + ra);
        assert(escaped(b) + seq!['"'] + r2 =~= escape_char(b[0]) + rb);
        lemma_escape_char_prefix(a[0], b[0], ra, rb);
        lemma_escaped_close(a.drop_first(), b.drop_first(), r1, r2);
        assert(a =~= seq![a[0]] + a.drop_first());
        assert(b =~= seq![b[0]] + b.drop_first());
    }
}

/// A JSON string literal ends where it was written to end: when the
/// literals of `a` and `b`, each followed by more text, give the same text,
/// the strings are the same and so is what follows.
pub proof fn lemma_quote_prefix(a: Seq<char>, b: Seq<char>, r1: Seq<char>, r2: Seq<char>)
    requires
        json_quote(a) + r1 == json_quote(b) + r2,
    ensures
        a == b,
        r1 == r2,
{
    let l = json_quote(a) + r1;
    let r = json_quote(b) + r2;
    assert(l.drop_first() =~= escaped(a) + seq!['"'] + r1);
    assert(r.drop_first() =~= escaped(b) + seq!['"'] + r2);
    lemma_escaped_close(a, b, r1, r2);
}

} // verus!
