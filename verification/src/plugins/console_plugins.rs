use vstd::prelude::*;
use crate::plugins::guest::{bad_event_text, guest_event_spec, read_event};
use crate::text::{concat, decimal, decimal_string, str_eq, trim_chars, trim_spec, chars_of, string_of};

verus! {

/// The system log line the omnilogger appends: `[TS: ts] topic -> data`.
pub fn omni_log_line(ts: u64, topic: &str, data: &str) -> (s: String)
    ensures
        s@ == "[TS: "@ + decimal(ts as nat) + "] "@ + topic@ + " -> "@ + data@ + "\n"@,
{
    let a = concat("[TS: ", decimal_string(ts).as_str());
    let b = concat(a.as_str(), "] ");
    let c = concat(b.as_str(), topic);
    let d = concat(c.as_str(), " -> ");
    let e = concat(d.as_str(), data);
    concat(e.as_str(), "\n")
}

/// At most the first `n` characters.
pub open spec fn first_chars(s: Seq<char>, n: nat) -> Seq<char> {
    if s.len() <= n {
        s
    } else {
        s.take(n as int)
    }
}

/// What the omnilogger shows on the console: the topic and the data's first
/// 30 characters; nothing for `SYS_TICK`.
pub fn omni_console(topic: &str, data: &str) -> (r: Option<String>)
    ensures
        topic@ == "SYS_TICK"@ ==> r is None,
        topic@ != "SYS_TICK"@ ==> (r matches Some(s) && s@ == "ОМНИЛОГ: "@ + topic@ + " | "@ + first_chars(data@, 30)),
{
    if str_eq(topic, "SYS_TICK") {
        return None;
    }
    let cs = chars_of(data);
    let mut short: Vec<char> = Vec::new();
    let mut i: usize = 0;
    while i < cs.len() && i < 30
        invariant
            i <= cs@.len(),
            i <= 30,
            short@ == cs@.take(i as int),
        decreases cs@.len() - i,
    {
        short.push(cs[i]);
        i = i + 1;
        assert(short@ =~= cs@.take(i as int));
    }
    assert(short@ =~= first_chars(data@, 30));
    let a = concat("ОМНИЛОГ: ", topic);
    let b = concat(a.as_str(), " | ");
    Some(concat(b.as_str(), string_of(short.as_slice()).as_str()))
}

/// The history line the storage plugin keeps for a sent or received
/// message: `Вы: data` for what the user sent, `Собеседник: data` for what
/// came; nothing for other topics.
pub fn history_entry(topic: &str, data: &str) -> (r: Option<String>)
    ensures
        topic@ == "UI_SEND_MSG"@ ==> (r matches Some(s) && s@ == "Вы: "@ + data@ + "\n"@),
        topic@ == "CRYPTO_DECRYPTED"@ ==> (r matches Some(s) && s@ == "Собеседник: "@ + data@ + "\n"@),
        topic@ != "UI_SEND_MSG"@ && topic@ != "CRYPTO_DECRYPTED"@ ==> r is None,
{
    proof {
        reveal_strlit("UI_SEND_MSG");
        reveal_strlit("CRYPTO_DECRYPTED");
        assert("UI_SEND_MSG"@.len() != "CRYPTO_DECRYPTED"@.len());
    }
    let sent = str_eq(topic, "UI_SEND_MSG");
    if !sent && !str_eq(topic, "CRYPTO_DECRYPTED") {
        return None;
    }
    let prefix = if sent { "Вы" } else { "Собеседник" };
    let a = concat(prefix, ": ");
    let b = concat(a.as_str(), data);
    let s = concat(b.as_str(), "\n");
    proof {
        reveal_strlit("Вы");
        reveal_strlit(": ");
        reveal_strlit("Вы: ");
        reveal_strlit("Собеседник");
        reveal_strlit("Собеседник: ");
        assert("Вы"@ + ": "@ =~= "Вы: "@);
        assert("Собеседник"@ + ": "@ =~= "Собеседник: "@);
    }
    Some(s)
}

/// The note after a history line was saved: the line without surrounding
/// white space.
pub fn saved_note(entry: &str) -> (s: String)
    ensures
        s@ == "💾 Сохранено: "@ + trim_spec(entry@),
{
    let cs = chars_of(entry);
    let t = trim_chars(cs.as_slice());
    concat("💾 Сохранено: ", string_of(t.as_slice()).as_str())
}

/// The demo crypto plugin's answer: `Base64: enc(data)` for `user_input`,
/// `ignore` otherwise.
pub fn demo_crypto_reply(topic: &str, data: &str) -> (s: String)
    ensures
        topic@ == "user_input"@ ==> s@ == "Base64: enc("@ + data@ + ")"@,
        topic@ != "user_input"@ ==> s@ == "ignore"@,
{
    if str_eq(topic, "user_input") {
        let a = concat("Base64: enc(", data);
        concat(a.as_str(), ")")
    } else {
        String::from_str("ignore")
    }
}

/// The counting logger's answer for its `count`-th message.
pub fn count_reply(count: u32) -> (s: String)
    ensures
        s@ == "Сообщение #"@ + decimal(count as nat) + " принято"@,
{
    let a = concat("Сообщение #", decimal_string(count as u64).as_str());
    concat(a.as_str(), " принято")
}

/// The count after one more message.
pub fn next_count(count: u32) -> (n: u32)
    requires
        count < u32::MAX,
    ensures
        n == count + 1,
{
    count + 1
}

/// One message through the counting logger, which had counted `count`
/// messages before it: an event that does not read is refused with the
/// event error and counts nothing; any other is counted, and the answer
/// names its number.
pub fn logger_step(input: &str, count: u32) -> (r: Result<(String, u32), String>)
    requires
        count < u32::MAX,
    ensures
        r is Ok <==> guest_event_spec(input@, false) is Some,
        r matches Ok((s, n)) ==> n == count + 1 && s@ == "Сообщение #"@ + decimal(n as nat) + " принято"@,
        r matches Err(e) ==> e@ == bad_event_text(),
{
    match read_event(input, false) {
        Ok(_) => {
            let n = next_count(count);
            Ok((count_reply(n), n))
        },
        Err(e) => Err(e),
    }
}

/// The ntfy sender's log line: the HTTP status of the post, or the network
/// error; empty for events it does not send.
pub fn ntfy_post_log(outcome: Option<Result<u16, String>>) -> (s: String)
    ensures
        outcome is None ==> s@.len() == 0,
        outcome matches Some(Ok(status)) ==> s@ == "Отправлено в ntfy! HTTP: "@ + decimal(status as nat),
        outcome matches Some(Err(e)) ==> s@ == "Ошибка сети: "@ + e@,
{
    match outcome {
        None => String::new(),
        Some(Ok(status)) => concat("Отправлено в ntfy! HTTP: ", decimal_string(status as u64).as_str()),
        Some(Err(e)) => concat("Ошибка сети: ", e.as_str()),
    }
}

/// The greeting of the first demo plugin.
pub fn greet(name: &str) -> (s: String)
    ensures
        s@ == "Привет, "@ + name@ + "! Я работаю изнутри Wasm, и я не сломал память!"@,
{
    let a = concat("Привет, ", name);
    concat(a.as_str(), "! Я работаю изнутри Wasm, и я не сломал память!")
}

} // verus!
