use void_core::plugins::aes_plugin::{decrypt, encrypt, open_b64, seal_b64, seal_with_nonce};
use void_core::plugins::cli_crypto::{dec, enc, handle_event as crypto_handle, remove_all_exec};
use void_core::plugins::cli_ntfy::{plan as ntfy_plan, poll_url as ntfy_poll_url, scan_ntfy_body, NtfyPlan};
use void_core::plugins::console_plugins::{
    count_reply, demo_crypto_reply, greet, history_entry, next_count, ntfy_post_log, omni_console, omni_log_line, saved_note,
};
use void_core::plugins::dweet::{is_after, new_dweets, plan as dweet_plan, poll_url, send_url, sent_log, url_encode, DweetPlan};
use void_core::plugins::fs_transport::{client_id_for, outgoing_path, parse_u64, plan as fs_plan, select_incoming, FsPlan};
use void_core::plugins::guest::{read_event, response_json};
use void_core::plugins::history_store::{classify_topic, history_bytes, MessageStore, StorageCommand, StoredMessage};
use void_core::plugins::memory_store::{clear, get_messages, store_message, ConversationStore};
use void_core::plugins::ntfy_transport::{
    configure, get_pending, load_config, pending_from_response, pending_reply, plan_pending, plan_send, PendingPlan, save_config, send_result_reply, NtfyConfig, SendPlan,
};
use void_core::plugins::raw_ntfy::{forward_to_bus, handle_event as raw_handle, route_topic, GuestHost, HostLink, RawAction};

#[test]
fn demo_crypto_roundtrip() {
    assert_eq!(enc("hello"), "enc(hello)");
    assert_eq!(dec(&enc("hello world")), "hello world");
    assert_eq!(dec("enc(a)enc(b)"), "ab");
    assert_eq!(dec("x)y"), "xy");
    assert_eq!(remove_all_exec("aaa", "aa"), "a");
    assert_eq!(remove_all_exec("abc", ""), "abc");
    let out = crypto_handle(r#"{"topic":"UI_SEND_MSG","data":"hi","ts":5}"#).unwrap();
    assert_eq!(out, r#"{"log":null,"emit":[{"topic":"CRYPTO_ENCRYPTED","data":"enc(hi)","ts":0}]}"#);
    let back = crypto_handle(r#"{"topic":"NET_RECEIVED","data":"enc(hi)"}"#).unwrap();
    assert_eq!(back, r#"{"log":null,"emit":[{"topic":"CRYPTO_DECRYPTED","data":"hi","ts":0}]}"#);
    assert_eq!(crypto_handle(r#"{"topic":"X","data":""}"#).unwrap(), r#"{"log":null,"emit":[]}"#);
    assert_eq!(crypto_handle(r#"{"topic":"X"}"#), Err("invalid event".to_string()));
    assert_eq!(crypto_handle(r#"{"topic":"X","data":"","ts":-1}"#), Err("invalid event".to_string()));
}

#[test]
fn guest_event_and_response() {
    let e = read_event(r#"{"topic":"T","data":"d","ts":3}"#, false).unwrap();
    assert_eq!((e.topic.as_str(), e.data.as_str(), e.ts), ("T", "d", 0));
    let e = read_event(r#"{"topic":"T","data":"d","ts":3}"#, true).unwrap();
    assert_eq!(e.ts, 3);
    assert!(read_event("[]", false).is_err());
    assert_eq!(
        response_json(Some("l"), &vec![("A".to_string(), "b".to_string())], false),
        r#"{"log":"l","emit":[{"topic":"A","data":"b"}]}"#
    );
}

#[test]
fn dweet_urls_and_scan() {
    assert_eq!(url_encode("a b~é/"), "a%20b~%C3%A9%2F");
    assert_eq!(send_url("x y"), "https://dweetr.io/dweet/quietly/for/void_messenger_test?message=x%20y");
    assert_eq!(poll_url(), "https://dweetr.io/get/dweets/for/void_messenger_test");
    assert_eq!(sent_log(200), "Отправлено в dweetr! Статус: 200");
    assert!(is_after("b", "a") && is_after("ab", "a") && !is_after("a", "a") && !is_after("", ""));
    let body = br#"{"with":[{"created":"2024-03","content":{"message":"new"}},{"created":"2024-02","content":{"message":"mid"}},{"created":"2024-01","content":{"message":"old"}}]}"#;
    let (msgs, last) = new_dweets(body, "2024-01");
    assert_eq!(msgs, vec!["mid".to_string(), "new".to_string()]);
    assert_eq!(last, Some("2024-03".to_string()));
    let (none, nl) = new_dweets(b"garbage", "");
    assert!(none.is_empty() && nl.is_none());
    assert!(matches!(dweet_plan(r#"{"topic":"CRYPTO_ENCRYPTED","data":"q"}"#), Ok(DweetPlan::Send { ref url }) if url.ends_with("message=q")));
    assert!(matches!(dweet_plan(r#"{"topic":"SYS_TICK","data":""}"#), Ok(DweetPlan::Poll { .. })));
    assert!(matches!(dweet_plan(r#"{"topic":"X","data":""}"#), Ok(DweetPlan::Idle)));
}

#[test]
fn fs_transport_names() {
    assert_eq!(client_id_for(42), "C_42");
    assert_eq!(outgoing_path(7, "C_1"), "/net/7_C_1.msg");
    assert_eq!(parse_u64("123"), Some(123));
    assert_eq!(parse_u64("+5"), Some(5));
    assert_eq!(parse_u64(""), None);
    assert_eq!(parse_u64("+"), None);
    assert_eq!(parse_u64("1a"), None);
    assert_eq!(parse_u64("18446744073709551615"), Some(u64::MAX));
    assert_eq!(parse_u64("18446744073709551616"), None);
    let names: Vec<String> = vec!["5_C_9.msg", "3_C_1.msg", "9_C_1.msg", "x_C_2.msg", "8_C_2.txt", "12_C_3.msg"]
        .into_iter()
        .map(String::from)
        .collect();
    let (picks, max) = select_incoming(&names, "C_1", 4);
    assert_eq!(picks, vec![0, 5]);
    assert_eq!(max, 12);
    let (none, same) = select_incoming(&names, "C_1", 100);
    assert!(none.is_empty());
    assert_eq!(same, 100);
    assert!(matches!(fs_plan("CRYPTO_ENCRYPTED", "d", 3, "C_1"), FsPlan::Write { ref path, ref data } if path == "/net/3_C_1.msg" && data == "d"));
    assert!(matches!(fs_plan("SYS_TICK", "", 0, "C_1"), FsPlan::Scan));
    assert!(matches!(fs_plan("OTHER", "", 0, "C_1"), FsPlan::Idle));
}

#[test]
fn cli_ntfy_scan() {
    assert_eq!(ntfy_poll_url("all"), "https://ntfy.sh/void_messenger_test_channel/json?poll=1&since=all");
    let body = b"{\"id\":\"a1\",\"event\":\"open\"}\n{\"id\":\"b2\",\"event\":\"message\",\"message\":\"hey\"}\nnot json\n{\"event\":\"message\"}";
    let (msgs, last) = scan_ntfy_body(body);
    assert_eq!(msgs, vec!["hey".to_string()]);
    assert_eq!(last, Some("b2".to_string()));
    assert!(matches!(ntfy_plan("CRYPTO_ENCRYPTED", "x"), NtfyPlan::Post { ref body, .. } if body == "x"));
    assert!(matches!(ntfy_plan("SYS_TICK", ""), NtfyPlan::Poll));
    assert!(matches!(ntfy_plan("Z", ""), NtfyPlan::Idle));
}

#[test]
fn console_plugin_lines() {
    assert_eq!(omni_log_line(3, "T", "d"), "[TS: 3] T -> d\n");
    assert_eq!(omni_console("SYS_TICK", "x"), None);
    let long = "0123456789012345678901234567890123456789";
    assert_eq!(omni_console("T", long), Some("ОМНИЛОГ: T | 012345678901234567890123456789".to_string()));
    assert_eq!(history_entry("UI_SEND_MSG", "hi"), Some("Вы: hi\n".to_string()));
    assert_eq!(history_entry("CRYPTO_DECRYPTED", "yo"), Some("Собеседник: yo\n".to_string()));
    assert_eq!(history_entry("NET_RECEIVED", "yo"), None);
    assert_eq!(saved_note("Вы: hi\n"), "💾 Сохранено: Вы: hi");
    assert_eq!(demo_crypto_reply("user_input", "a"), "Base64: enc(a)");
    assert_eq!(demo_crypto_reply("other", "a"), "ignore");
    assert_eq!(count_reply(next_count(0)), "Сообщение #1 принято");
    assert_eq!(ntfy_post_log(Some(Ok(200))), "Отправлено в ntfy! HTTP: 200");
    assert_eq!(ntfy_post_log(Some(Err("dns".into()))), "Ошибка сети: dns");
    assert_eq!(ntfy_post_log(None), "");
    assert_eq!(greet("Мир"), "Привет, Мир! Я работаю изнутри Wasm, и я не сломал память!");
}

#[derive(Default)]
struct Host {
    emitted: Vec<(String, Vec<u8>)>,
    posts: Vec<String>,
    streams: Vec<String>,
}

impl GuestHost for Host {
    fn emit_event(&mut self, topic: &str, payload: &[u8]) {
        self.emitted.push((topic.to_string(), payload.to_vec()));
    }
    fn http_post(&mut self, url: &str, _body: &[u8]) -> i32 {
        self.posts.push(url.to_string());
        7
    }
    fn sse_start(&mut self, url: &str) -> i32 {
        self.streams.push(url.to_string());
        3
    }
}

#[test]
fn raw_ntfy_dispatch() {
    assert_eq!(route_topic(br#"{"topic":"SYS_STARTUP"}"#), RawAction::StartListening);
    assert_eq!(route_topic(b"\xff"), RawAction::Invalid);
    assert_eq!(route_topic(br#"["NET_RECEIVED"]"#), RawAction::Forward);
    assert_eq!(route_topic(br#"["NET_RECEIVED", 1]"#), RawAction::Invalid);
    assert_eq!(route_topic(br#"{"id":"x"}"#), RawAction::Invalid);
    let mut h = HostLink::new(Host::default());
    assert_eq!(raw_handle(&mut h, br#"{"topic":"SYS_STARTUP"}"#, b""), 3);
    assert_eq!(raw_handle(&mut h, br#"{"topic":"CRYPTO_ENCRYPTED"}"#, b"p"), 7);
    assert_eq!(raw_handle(&mut h, br#"{"topic":"NET_RECEIVED","id":"1"}"#, b"m"), 0);
    assert_eq!(raw_handle(&mut h, br#"{"topic":"OTHER"}"#, b""), 0);
    assert_eq!(raw_handle(&mut h, b"nope", b""), 1);
    assert_eq!(h.host.streams, vec!["https://ntfy.sh/wasm-messenger/sse".to_string()]);
    assert_eq!(h.host.posts, vec!["https://ntfy.sh/wasm-messenger".to_string()]);
    assert_eq!(h.host.emitted, vec![("NET_FORWARDED".to_string(), b"m".to_vec())]);
    assert_eq!(forward_to_bus(&mut h, b"z"), 0);
}

#[test]
fn ntfy_transport_config_roundtrip() {
    let cfg = NtfyConfig { base_url: "https://example.org/".into(), my_topic: "me\"x".into() };
    let saved = save_config(&cfg);
    assert_eq!(String::from_utf8(saved.clone()).unwrap(), r#"{"base_url":"https://example.org/","my_topic":"me\"x"}"#);
    let back = load_config(Some(&saved));
    assert_eq!((back.base_url.as_str(), back.my_topic.as_str()), ("https://example.org/", "me\"x"));
    let d = load_config(None);
    assert_eq!((d.base_url.as_str(), d.my_topic.as_str()), ("https://ntfy.sh", ""));
    let bad = load_config(Some(b"{}"));
    assert_eq!(bad.base_url, "https://ntfy.sh");
}

#[test]
fn ntfy_transport_flow() {
    let mut cfg = NtfyConfig::default();
    assert!(matches!(plan_send(&cfg, r#"{"to_topic":"bob","payload_b64":"QQ=="}"#), Ok(SendPlan::Reply(_))));
    assert!(configure(&mut cfg, r#"{"address":"alice"}"#).is_ok());
    assert_eq!(cfg.my_topic, "alice");
    match plan_send(&cfg, r#"{"to_topic":"bob","payload_b64":"QQ=="}"#) {
        Ok(SendPlan::Post { url, headers, body }) => {
            assert_eq!(headers, vec![("Content-Type".to_string(), "application/json".to_string()), ("X-Title".to_string(), "msg".to_string())]);
            assert_eq!(url, "https://ntfy.sh/bob");
            assert_eq!(body, r#"{"from_topic":"alice","payload_b64":"QQ=="}"#);
        },
        _ => panic!("post expected"),
    }
    assert_eq!(send_result_reply(Ok(200)), r#"{"ok":true}"#);
    let line = "{\"event\":\"message\",\"time\":9,\"message\":\"{\\\"from_topic\\\":\\\"bob\\\",\\\"payload_b64\\\":\\\"QQ==\\\"}\"}\n";
    let got = pending_from_response("alice", 200, line.as_bytes());
    assert_eq!(got.len(), 1);
    assert_eq!((got[0].from_topic.as_str(), got[0].payload_b64.as_str(), got[0].timestamp), ("bob", "QQ==", 9));
    assert!(pending_from_response("bob", 200, line.as_bytes()).is_empty());
    assert!(pending_from_response("alice", 500, line.as_bytes()).is_empty());
    assert_eq!(pending_reply(&got), r#"{"messages":[{"from_topic":"bob","payload_b64":"QQ==","timestamp":9}]}"#);
}

#[test]
fn ntfy_transport_get_pending_reply() {
    let mut cfg = NtfyConfig::default();
    let line = "{\"event\":\"message\",\"time\":4,\"message\":\"{\\\"from_topic\\\":\\\"bob\\\",\\\"payload_b64\\\":\\\"QQ==\\\"}\"}\n{\"event\":\"keepalive\"}\n";
    assert_eq!(get_pending(&cfg, Ok((200, line.as_bytes().to_vec()))), r#"{"messages":[]}"#);
    cfg.my_topic = "alice".into();
    assert_eq!(
        get_pending(&cfg, Ok((200, line.as_bytes().to_vec()))),
        r#"{"messages":[{"from_topic":"bob","payload_b64":"QQ==","timestamp":4}]}"#
    );
    assert_eq!(get_pending(&cfg, Ok((404, line.as_bytes().to_vec()))), r#"{"messages":[]}"#);
    assert_eq!(get_pending(&cfg, Err("offline".into())), r#"{"messages":[]}"#);
}

#[test]
fn ntfy_transport_pending_plan() {
    let mut cfg = NtfyConfig::default();
    match plan_pending(&cfg, "{}") {
        PendingPlan::Reply(s) => assert_eq!(s, r#"{"messages":[]}"#),
        _ => panic!("reply expected"),
    }
    cfg.my_topic = "alice".into();
    match plan_pending(&cfg, "not json") {
        PendingPlan::Get { url, .. } => assert_eq!(url, "https://ntfy.sh/alice/json?poll=1&since=1h&limit=50"),
        _ => panic!("get expected"),
    }
    match plan_pending(&cfg, r#"{"since":12,"limit":5}"#) {
        PendingPlan::Get { url, headers } => {
            assert_eq!(url, "https://ntfy.sh/alice/json?poll=1&since=12&limit=5");
            assert_eq!(headers, vec![("Accept".to_string(), "application/x-ndjson".to_string())]);
        },
        _ => panic!("get expected"),
    }
    match plan_pending(&cfg, r#"{"since":0}"#) {
        PendingPlan::Get { url, .. } => assert_eq!(url, "https://ntfy.sh/alice/json?poll=1&since=1h&limit=50"),
        _ => panic!("get expected"),
    }
}

#[test]
fn memory_store_handlers() {
    let mut s = ConversationStore::new();
    assert_eq!(store_message(&mut s, r#"{"from":"me","to":"bob","text":"hi","timestamp":1}"#), Ok(r#"{"ok":true}"#.to_string()));
    assert!(store_message(&mut s, r#"{"from":"bob","to":"me","text":"yo","timestamp":2}"#).is_ok());
    assert_eq!(
        get_messages(&s, r#"{"contact":"bob"}"#).unwrap(),
        r#"[{"from":"me","to":"bob","text":"hi","timestamp":1},{"from":"bob","to":"me","text":"yo","timestamp":2}]"#
    );
    assert_eq!(get_messages(&s, r#"{"contact":"eve"}"#).unwrap(), "[]");
    assert!(get_messages(&s, "{}").is_err());
    assert_eq!(clear(&mut s), r#"{"ok":true}"#);
    assert_eq!(get_messages(&s, r#"{"contact":"bob"}"#).unwrap(), "[]");
}

#[test]
fn memory_store_saved_form() {
    let mut s = ConversationStore::new();
    assert!(store_message(&mut s, r#"{"from":"me","to":"bob","text":"hi","timestamp":1}"#).is_ok());
    let saved = s.saved_bytes();
    assert_eq!(String::from_utf8(saved.clone()).unwrap(), r#"{"bob":[{"from":"me","to":"bob","text":"hi","timestamp":1}]}"#);
    let back = ConversationStore::from_saved_bytes(Some(&saved));
    assert_eq!(get_messages(&back, r#"{"contact":"bob"}"#).unwrap(), r#"[{"from":"me","to":"bob","text":"hi","timestamp":1}]"#);
    let bad = ConversationStore::from_saved_bytes(Some(br#"{"bob":[{"from":"me"}]}"#));
    assert_eq!(get_messages(&bad, r#"{"contact":"bob"}"#).unwrap(), "[]");
    let none = ConversationStore::from_saved_bytes(None);
    assert_eq!(get_messages(&none, r#"{"contact":"bob"}"#).unwrap(), "[]");
    assert_eq!(String::from_utf8(ConversationStore::new().saved_bytes()).unwrap(), "{}");
}

#[test]
fn history_store_is_idempotent_and_sorted() {
    let mut s = MessageStore::new();
    assert!(s.store_message("e2", 20, b"second"));
    assert!(s.store_message("e1", 10, b"first"));
    assert!(!s.store_message("e1", 99, b"dup"));
    assert_eq!(s.len(), 2);
    let h = s.into_history();
    assert_eq!(h.iter().map(|m| m.id.as_str()).collect::<Vec<_>>(), vec!["e1", "e2"]);
    assert_eq!(h[0].payload, b"first".to_vec());
    assert_eq!(classify_topic("UI_SEND_MSG"), StorageCommand::Store);
    assert_eq!(classify_topic("DB_READ_CMD"), StorageCommand::ReadHistory);
    assert_eq!(classify_topic("X"), StorageCommand::Ignore);
}

#[test]
fn history_store_file_and_result() {
    let mut s = MessageStore::new();
    assert!(s.store_message("e1", 10, b"hi"));
    let file = String::from_utf8(s.file_bytes()).unwrap();
    assert_eq!(file, r#"{"e1":{"id":"e1","payload":[104,105],"ts":10}}"#);
    let back = MessageStore::from_file_bytes(Some(file.as_bytes()));
    assert_eq!(back.len(), 1);
    assert!(back.contains("e1"));
    let later = MessageStore::from_file_bytes(Some(br#"{"a":{"id":"a","payload":[1],"ts":5},"b":{"id":"b","payload":[],"ts":1,"x":0}}"#));
    let h = later.into_history();
    assert_eq!(h.iter().map(|m| (m.id.as_str(), m.ts)).collect::<Vec<_>>(), vec![("b", 1), ("a", 5)]);
    assert_eq!(MessageStore::from_file_bytes(Some(br#"{"a":{"id":"a","payload":[256],"ts":5}}"#)).len(), 0);
    assert_eq!(MessageStore::from_file_bytes(Some(br#"{"a":{"payload":[1],"ts":5}}"#)).len(), 0);
    assert_eq!(MessageStore::from_file_bytes(Some(b"[]")).len(), 0);
    assert_eq!(MessageStore::from_file_bytes(None).len(), 0);
    let msgs = vec![StoredMessage { id: "x".into(), payload: vec![0, 255], ts: 3 }];
    assert_eq!(String::from_utf8(history_bytes(&msgs)).unwrap(), r#"[{"id":"x","payload":[0,255],"ts":3}]"#);
    assert_eq!(history_bytes(&vec![]), b"[]".to_vec());
    let d = MessageStore::from_messages(vec![
        StoredMessage { id: "k".into(), payload: vec![1], ts: 1 },
        StoredMessage { id: "k".into(), payload: vec![2], ts: 2 },
    ]);
    assert_eq!(d.into_history()[0].payload, vec![1]);
}

#[test]
fn aes_plugin_errors_pass_on_their_text() {
    let key = <aes_gcm::Aes256Gcm as aes_gcm::aead::KeyInit>::new(b"messenger_mvp_key_32_bytes_long!".into());
    let nonce = [7u8; 12];
    let ct = aes_gcm::aead::Aead::encrypt(&key, aes_gcm::Nonce::from_slice(&nonce), &[0xffu8][..]).unwrap();
    let mut combined = nonce.to_vec();
    combined.extend_from_slice(&ct);
    let b64 = base64::Engine::encode(&base64::engine::general_purpose::STANDARD, &combined);
    let utf8_err = String::from_utf8(vec![0xff]).unwrap_err().to_string();
    assert_eq!(open_b64(&b64), Err(utf8_err.clone()));
    assert_eq!(decrypt(&format!(r#"{{"ciphertext":"{}"}}"#, b64)), Err(utf8_err));
    assert_eq!(seal_with_nonce("x", Err("no entropy".to_string())), Err("no entropy".to_string()));
    let sealed = seal_with_nonce("hi", Ok([1u8; 12])).unwrap();
    assert_eq!(open_b64(&sealed), Ok("hi".to_string()));
    assert_eq!(sealed, seal_with_nonce("hi", Ok([1u8; 12])).unwrap());
}

#[test]
fn aes_plugin_roundtrip() {
    let sealed = seal_b64("secret ✓").unwrap();
    assert_eq!(open_b64(&sealed), Ok("secret ✓".to_string()));
    let b64_err = base64::Engine::decode(&base64::engine::general_purpose::STANDARD, "***").unwrap_err().to_string();
    assert_eq!(open_b64("***"), Err(b64_err));
    assert_eq!(open_b64("AAAA"), Err("payload too short".to_string()));
    assert_eq!(open_b64("AAAAAAAAAAAAAAAAAAAAAAAAAAAA"), Err("aead::Error".to_string()));
    assert_eq!(encrypt("{}"), Err("invalid encrypt request".to_string()));
    let reply = encrypt(r#"{"plaintext":"hi"}"#).unwrap();
    let v: serde_json::Value = serde_json::from_str(&reply).unwrap();
    let ct = v["ciphertext"].as_str().unwrap();
    let out = decrypt(&format!(r#"{{"ciphertext":"{}"}}"#, ct)).unwrap();
    assert_eq!(out, r#"{"plaintext":"hi"}"#);
}
