use void_core::host::network::SseDecoder;
use void_core::host::plugin_manager::{PluginCall, PluginTable};
use void_core::json::{parse_json, get_str, get_u64, JsonValue};
use void_core::messenger::api::{
    decrypt_bytes, encrypt_text, event_json, infos_json, load_reply, prepare_outgoing, receive_message, send_reply,
    stored_messages,
};
use void_core::messenger::bus::{Event, EventQueue};
use void_core::messenger::state::{get_my_addr, init, state, DEFAULT_PORT};
use void_core::host::errors::CoreError;
use void_core::host::models::{PluginInfo, PluginPermissions};

struct Never;

impl PluginCall for Never {
    fn call(&mut self, _f: &str, _i: &str) -> Result<String, String> {
        Err("unused".into())
    }
}

#[test]
fn sse_blocks_across_chunks() {
    let mut d = SseDecoder::new();
    assert!(d.feed(b"data: one\n").is_empty());
    let out = d.feed(b"\ndata: {}\n\ndata:   \n\nevent: x\ndata: two\r\ndata: three\n\ntail");
    assert_eq!(out, vec![b"one".to_vec(), b"two".to_vec(), b"three".to_vec()]);
    assert!(d.feed(&[0xff, 0xfe]).is_empty());
    assert_eq!(d.feed(b"\n\n"), Vec::<Vec<u8>>::new());
}

#[test]
fn sse_chunking_does_not_matter() {
    let whole = "data: a\n\ndata: b\n\nda";
    let mut one = SseDecoder::new();
    let all = one.feed_text(whole);
    let mut two = SseDecoder::new();
    let mut parts = two.feed_text(&whole[..9]);
    parts.extend(two.feed_text(&whole[9..]));
    assert_eq!(all, parts);
    assert_eq!(all, vec!["a".to_string(), "b".to_string()]);
}

#[test]
fn bus_is_first_in_first_out() {
    let mut q = EventQueue::new();
    assert!(q.poll_event().is_none());
    q.push_event(Event { kind: "a".into(), payload: JsonValue::Null });
    q.push_event(Event { kind: "b".into(), payload: JsonValue::UInt(1) });
    assert_eq!(q.poll_event().unwrap().kind, "a");
    assert_eq!(q.poll_event().unwrap().kind, "b");
    assert!(q.poll_event().is_none());
}

#[test]
fn core_state_address() {
    let mut s = state();
    assert_eq!(s.listen_port, DEFAULT_PORT);
    assert_eq!(get_my_addr(&s), "127.0.0.1:7777");
    init(&mut s, 9000);
    assert_eq!(s.listen_port, 9000);
    assert_eq!(get_my_addr(&s), "127.0.0.1:9000");
}

#[test]
fn without_plugins_text_goes_as_bytes() {
    let mut t: PluginTable<Never> = PluginTable::new();
    assert_eq!(encrypt_text(&mut t, "héllo"), "héllo".as_bytes().to_vec());
    assert_eq!(decrypt_bytes(&mut t, b"ok"), "ok");
    assert_eq!(decrypt_bytes(&mut t, &[0x61, 0xff]), "a\u{fffd}");
    assert_eq!(prepare_outgoing(&mut t, "bob", "x"), b"x".to_vec());
    assert_eq!(stored_messages(&mut t, "bob"), "[]");
}

#[test]
fn receive_queues_event() {
    let mut t: PluginTable<Never> = PluginTable::new();
    let mut q = EventQueue::new();
    receive_message(&mut t, &mut q, "10.0.0.2:5000", b"hi there");
    let e = q.poll_event().unwrap();
    assert_eq!(e.kind, "message_received");
    assert_eq!(get_str(&e.payload, "from"), Some("10.0.0.2:5000".to_string()));
    assert_eq!(get_str(&e.payload, "text"), Some("hi there".to_string()));
    assert!(get_u64(&e.payload, "timestamp").is_some());
    let text = event_json(&e);
    assert!(text.starts_with(r#"{"kind":"message_received","payload":{"from":"10.0.0.2:5000","text":"hi there","timestamp":"#));
    assert!(parse_json(&text).is_some());
}

#[test]
fn reply_texts() {
    assert_eq!(send_reply(&Ok(())), r#"{"ok":true}"#);
    assert_eq!(send_reply(&Err("refused".into())), r#"{"error":"refused","ok":false}"#);
    let info = PluginInfo {
        id: "c".into(),
        name: "Crypto".into(),
        version: "1".into(),
        category: "crypto".into(),
        description: "aes".into(),
        active: true,
        permissions: PluginPermissions { network: false, filesystem: true, contacts: false, clipboard: false, notifications: true },
    };
    let expected_info = r#"{"id":"c","name":"Crypto","version":"1","category":"crypto","description":"aes","active":true,"permissions":{"network":false,"filesystem":true,"contacts":false,"clipboard":false,"notifications":true}}"#;
    assert_eq!(load_reply(&Ok(info.duplicate())), format!(r#"{{"ok":true,"plugin":{}}}"#, expected_info));
    assert_eq!(load_reply(&Err(CoreError::PluginNotFound("z".into()))), r#"{"error":"plugin not found: z","ok":false}"#);
    assert_eq!(infos_json(&vec![info]), format!("[{}]", expected_info));
    assert_eq!(infos_json(&vec![]), "[]");
}
