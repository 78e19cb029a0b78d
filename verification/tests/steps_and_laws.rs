use void_core::plugins::fs_transport::tick;
use void_core::host::plugin_manager::allowed_hosts;
use void_core::host::event::Event;
use void_core::host::manifest::{EventsConfig, PermissionsConfig, PluginInfo, PluginManifest, RestartPolicy, SupervisorConfig};
use void_core::host::network::{sse_next, SseAction, SseDecoder, SseSignal};
use void_core::host::supervisor::{ReloadError, Supervisor};
use void_core::plugins::console_plugins::logger_step;
use void_core::plugins::guest::read_event;
use void_core::plugins::memory_store::{get_messages, store_message, ConversationStore};
use void_core::plugins::ntfy_transport::{configure, parse_pending_input, plan_pending, plan_send, read_poll_line, NtfyConfig, PendingPlan, SendPlan};
use void_core::void::storage::{MemStorage, Storage};
use void_core::void::types::Message;

fn manifest(id: &str) -> PluginManifest {
    PluginManifest {
        plugin: PluginInfo {
            id: id.to_string(),
            version: "2.0.0".to_string(),
            sha256: String::new(),
            signature: String::new(),
            wasm_path: format!("./{}.wasm", id),
        },
        events: EventsConfig { subscriptions: vec!["T".to_string()], max_queue_size: 4 },
        supervisor: SupervisorConfig { restart_policy: RestartPolicy::Always, max_retries: 2 },
        permissions: PermissionsConfig { network: false, filesystem: false, allowed_dirs: vec![] },
    }
}

fn message(id: &str, chat: &str, text: &str) -> Message {
    Message { id: id.to_string(), chat_id: chat.to_string(), text: text.to_string(), timestamp: 1, incoming: false }
}

#[test]
fn logger_counts_each_message() {
    assert_eq!(logger_step(r#"{"topic":"a","data":"b"}"#, 0), Ok(("Сообщение #1 принято".to_string(), 1)));
    assert_eq!(logger_step(r#"["a","b"]"#, 41), Ok(("Сообщение #42 принято".to_string(), 42)));
    assert_eq!(logger_step("not json", 7), Err("invalid event".to_string()));
    assert_eq!(logger_step(r#"{"topic":"a"}"#, 7), Err("invalid event".to_string()));
}

#[test]
fn events_read_in_array_form() {
    let e = read_event(r#"["T","d"]"#, false).unwrap();
    assert_eq!((e.topic.as_str(), e.data.as_str(), e.ts), ("T", "d", 0));
    let e = read_event(r#"["T","d",9]"#, true).unwrap();
    assert_eq!(e.ts, 9);
    assert!(read_event(r#"["T","d",9]"#, false).is_err());
    assert!(read_event(r#"["T"]"#, false).is_err());
}

#[test]
fn ntfy_requests_read_in_array_form() {
    let mut cfg = NtfyConfig::default();
    assert_eq!(configure(&mut cfg, r#"["bob"]"#), Ok(r#"{"ok":true}"#.to_string()));
    assert_eq!(cfg.my_topic, "bob");
    assert!(configure(&mut cfg, r#"["bob","x"]"#).is_err());
    match plan_send(&cfg, r#"["eve","QQ=="]"#) {
        Ok(SendPlan::Post { url, headers, body }) => {
            assert_eq!(headers, vec![("Content-Type".to_string(), "application/json".to_string()), ("X-Title".to_string(), "msg".to_string())]);
            assert_eq!(url, "https://ntfy.sh/eve");
            assert_eq!(body, r#"{"from_topic":"bob","payload_b64":"QQ=="}"#);
        },
        _ => panic!("post expected"),
    }
    assert_eq!(parse_pending_input("[12,5]"), (Some(12), Some(5)));
    assert_eq!(parse_pending_input("[null,null]"), (None, None));
    match plan_pending(&cfg, "[12,5]") {
        PendingPlan::Get { url, .. } => assert_eq!(url, "https://ntfy.sh/bob/json?poll=1&since=12&limit=5"),
        _ => panic!("get expected"),
    }
}

#[test]
fn stream_reader_steps() {
    let mut d = SseDecoder::new();
    assert!(matches!(sse_next(&mut d, SseSignal::Connected), SseAction::Read));
    match sse_next(&mut d, SseSignal::Chunk(b"data: hi\n\ndata: th".to_vec())) {
        SseAction::Deliver(out) => {
            assert_eq!(out.len(), 1);
            assert_eq!(out[0].meta.topic, "NET_RECEIVED");
            assert_eq!(out[0].meta.version, 1);
            assert_eq!(out[0].payload, b"hi".to_vec());
        },
        _ => panic!("deliver expected"),
    }
    match sse_next(&mut d, SseSignal::Chunk(b"ere\n\n".to_vec())) {
        SseAction::Deliver(out) => assert_eq!(out.iter().map(|e| e.payload.clone()).collect::<Vec<_>>(), vec![b"there".to_vec()]),
        _ => panic!("deliver expected"),
    }
    match sse_next(&mut d, SseSignal::Chunk(vec![0xff])) {
        SseAction::Deliver(out) => assert!(out.is_empty()),
        _ => panic!("deliver expected"),
    }
    assert!(matches!(sse_next(&mut d, SseSignal::ConnectFailed), SseAction::RetryAfter(5)));
    assert!(matches!(sse_next(&mut d, SseSignal::ChunkFailed), SseAction::RetryAfter(3)));
    assert!(matches!(sse_next(&mut d, SseSignal::Ended), SseAction::RetryAfter(3)));
    assert!(matches!(sse_next(&mut d, SseSignal::BusClosed), SseAction::Stop));
    assert!(matches!(sse_next(&mut d, SseSignal::ClientFailed), SseAction::Stop));
}

#[test]
fn stream_reader_starts_fresh_on_reconnect() {
    let mut d = SseDecoder::new();
    let _ = sse_next(&mut d, SseSignal::Chunk(b"data: half".to_vec()));
    assert!(matches!(sse_next(&mut d, SseSignal::Connected), SseAction::Read));
    match sse_next(&mut d, SseSignal::Chunk(b"\n\ndata: x\n\n".to_vec())) {
        SseAction::Deliver(out) => assert_eq!(out.iter().map(|e| e.payload.clone()).collect::<Vec<_>>(), vec![b"x".to_vec()]),
        _ => panic!("deliver expected"),
    }
}

#[test]
fn store_then_read_appends_to_its_conversation_only() {
    let mut s = ConversationStore::new();
    assert!(store_message(&mut s, r#"{"from":"me","to":"bob","text":"a","timestamp":1}"#).is_ok());
    assert!(store_message(&mut s, r#"{"from":"eve","to":"me","text":"b","timestamp":2}"#).is_ok());
    assert!(store_message(&mut s, r#"["bob","me","c",3]"#).is_ok());
    assert_eq!(
        get_messages(&s, r#"{"contact":"bob"}"#).unwrap(),
        r#"[{"from":"me","to":"bob","text":"a","timestamp":1},{"from":"bob","to":"me","text":"c","timestamp":3}]"#
    );
    assert_eq!(get_messages(&s, r#"["eve"]"#).unwrap(), r#"[{"from":"eve","to":"me","text":"b","timestamp":2}]"#);
}

#[test]
fn saves_keep_order_per_chat() {
    let mut st = MemStorage::new();
    st.save(&message("1", "a", "x"));
    st.save(&message("2", "b", "y"));
    st.save(&message("3", "a", "z"));
    let texts: Vec<String> = st.history("a").into_iter().map(|m| m.text).collect();
    assert_eq!(texts, vec!["x".to_string(), "z".to_string()]);
    let texts: Vec<String> = st.history("b").into_iter().map(|m| m.text).collect();
    assert_eq!(texts, vec!["y".to_string()]);
    assert!(st.history("c").is_empty());
}

#[test]
fn reload_takes_a_new_module_for_a_running_plugin() {
    let mut s = Supervisor::new(None);
    let (tx, _rx) = tokio::sync::mpsc::channel::<Event>(4);
    assert!(s.load_plugin(manifest("p"), vec![1, 2], tx).is_ok());
    match s.reload_module("p", vec![3]) {
        Ok(m) => {
            assert_eq!(m.plugin.id, "p");
            assert_eq!(m.plugin.version, "2.0.0");
            assert_eq!(m.events.subscriptions, vec!["T".to_string()]);
            assert_eq!(m.events.max_queue_size, 4);
        },
        Err(_) => panic!("reload expected"),
    }
    match s.reload_module("q", vec![3]) {
        Err(e) => {
            assert!(matches!(e, ReloadError::UnknownPlugin));
            assert_eq!(e.message(), "unknown plugin");
        },
        Ok(_) => panic!("unknown plugin expected"),
    }
}

#[test]
fn posted_wire_message_reads_back_from_a_poll_line() {
    let mut alice = NtfyConfig::default();
    assert!(configure(&mut alice, r#"{"address":"alice"}"#).is_ok());
    let body = match plan_send(&alice, r#"{"to_topic":"bob","payload_b64":"QUJD"}"#) {
        Ok(SendPlan::Post { body, .. }) => body,
        _ => panic!("post expected"),
    };
    let quoted = serde_json::to_string(&body).unwrap();
    let line = format!("{{\"id\":\"x1\",\"time\":77,\"event\":\"message\",\"topic\":\"bob\",\"message\":{}}}", quoted);
    let chars: Vec<char> = line.chars().collect();
    let m = read_poll_line(&chars, "bob").unwrap();
    assert_eq!((m.from_topic.as_str(), m.payload_b64.as_str(), m.timestamp), ("alice", "QUJD", 77));
    assert!(read_poll_line(&chars, "alice").is_none());
    let keepalive: Vec<char> = r#"{"event":"keepalive","time":5}"#.chars().collect();
    assert!(read_poll_line(&keepalive, "bob").is_none());
    let blank: Vec<char> = "   ".chars().collect();
    assert!(read_poll_line(&blank, "bob").is_none());
}

#[test]
fn stream_two_chunks_give_two_events() {
    let mut d = SseDecoder::new();
    let _ = sse_next(&mut d, SseSignal::Connected);
    let mut got: Vec<Event> = Vec::new();
    for chunk in [b"data: hi\n\nda".to_vec(), b"ta: {}\n\nevent: x\ndata: yo\n\n".to_vec()] {
        if let SseAction::Deliver(evs) = sse_next(&mut d, SseSignal::Chunk(chunk)) {
            got.extend(evs);
        }
    }
    assert!(matches!(sse_next(&mut d, SseSignal::Ended), SseAction::RetryAfter(3)));
    assert_eq!(got.len(), 2);
    assert!(got.iter().all(|e| e.meta.topic == "NET_RECEIVED" && e.meta.version == 1));
    assert_eq!(got[0].payload, b"hi".to_vec());
    assert_eq!(got[1].payload, b"yo".to_vec());
}

#[test]
fn file_transport_tick_skips_own_and_old_files() {
    let names: Vec<String> = vec!["5_C_1.msg".into(), "7_C_2.msg".into(), "9_C_2.msg".into(), "3_C_2.msg".into(), "8_C_2.txt".into()];
    let reads: Vec<Option<String>> = vec![Some("mine".into()), Some("a".into()), None, Some("old".into()), Some("x".into())];
    let (emitted, last) = tick(&names, &reads, "C_1", 4);
    assert_eq!(emitted, vec!["a".to_string()]);
    assert_eq!(last, 9);
    let (again, last2) = tick(&names, &reads, "C_1", last);
    assert!(again.is_empty());
    assert_eq!(last2, 9);
}

#[test]
fn network_permission_allows_every_host() {
    assert_eq!(allowed_hosts(true), Some(vec!["*".to_string()]));
    assert_eq!(allowed_hosts(false), None);
}
