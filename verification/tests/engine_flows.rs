use std::cell::RefCell;
use std::collections::HashMap;
use std::rc::Rc;
use void_core::host::engine::{
    configure_input, decrypt_fallback, encrypt_fallback, messages_from_reply, now_secs, pending_input, reply_status,
    send_input, single_input, store_input, Engine,
};
use void_core::host::event_engine::{answer_effect, distinct_topics, event_json, parse_response, Engine as BusEngine, Event as BusEvent, Note};
use void_core::host::plugin_manager::{
    call_plugin_fn, check_load, find_plugin_by_category, list_plugins, load_plugin, memory_pages, on_load_config,
    unload_plugin, PluginCall, PluginTable,
};
use void_core::host::errors::CoreError;
use void_core::messenger::manifest::{
    CapabilitiesSection, LimitsSection, PermissionsSection, PluginManifest, PluginSection,
};

type Log = Rc<RefCell<Vec<(String, String)>>>;

struct Fake {
    replies: HashMap<String, Result<String, String>>,
    log: Log,
}

impl PluginCall for Fake {
    fn call(&mut self, func: &str, input: &str) -> Result<String, String> {
        self.log.borrow_mut().push((func.to_string(), input.to_string()));
        self.replies.get(func).cloned().unwrap_or_else(|| Err(format!("no {}", func)))
    }
}

fn fake(replies: &[(&str, Result<&str, &str>)], log: &Log) -> Fake {
    Fake {
        replies: replies
            .iter()
            .map(|(k, v)| (k.to_string(), v.map(|s| s.to_string()).map_err(|e| e.to_string())))
            .collect(),
        log: log.clone(),
    }
}

fn manifest(id: &str, category: &str, hooks: &[&str]) -> PluginManifest {
    PluginManifest {
        plugin: PluginSection {
            id: id.into(),
            name: format!("{} plugin", id),
            version: "0.1.0".into(),
            category: category.into(),
            description: "d".into(),
        },
        capabilities: CapabilitiesSection {
            provides: vec![],
            subscribes_to: vec![],
            emits: vec![],
            lifecycle: hooks.iter().map(|s| s.to_string()).collect(),
        },
        permissions: PermissionsSection { network: true, filesystem: false, contacts: false, clipboard: false, notifications: false },
        limits: LimitsSection { max_memory_mb: 1, timeout_ms: 1000 },
    }
}

#[test]
fn request_texts() {
    assert_eq!(configure_input("alice"), r#"{"address":"alice"}"#);
    assert_eq!(pending_input(12), r#"{"limit":50,"since":12}"#);
    assert_eq!(send_input("bob", "QUJD"), r#"{"payload_b64":"QUJD","to_topic":"bob"}"#);
    assert_eq!(single_input("contact", "bob"), r#"{"contact":"bob"}"#);
    assert_eq!(store_input("me", "bob", "hi", 3), r#"{"from":"me","text":"hi","timestamp":3,"to":"bob"}"#);
}

#[test]
fn status_replies() {
    assert_eq!(reply_status(r#"{"ok":true}"#, "x"), Ok(()));
    assert_eq!(reply_status(r#"{"ok":false,"error":"nope"}"#, "x"), Err("nope".to_string()));
    assert_eq!(reply_status(r#"{"ok":false}"#, "configure failed"), Err("configure failed".to_string()));
    assert!(reply_status("not json", "x").is_err());
}

#[test]
fn fallbacks() {
    assert_eq!(encrypt_fallback("hi"), "aGk=");
    assert_eq!(decrypt_fallback("aGk="), "hi");
    assert_eq!(decrypt_fallback("not base64!"), "not base64!");
    assert_eq!(decrypt_fallback("/w=="), "/w==");
    assert!(now_secs() > 1_600_000_000);
}

#[test]
fn message_list_reply() {
    let ms = messages_from_reply(r#"[{"from":"a","to":"b","text":"t","timestamp":4,"extra":1}]"#);
    assert_eq!(ms.len(), 1);
    assert_eq!((ms[0].from.as_str(), ms[0].to.as_str(), ms[0].text.as_str(), ms[0].timestamp), ("a", "b", "t", 4));
    assert!(messages_from_reply(r#"[{"from":"a"}]"#).is_empty());
    assert!(messages_from_reply("{}").is_empty());
}

#[test]
fn engine_load_and_duplicate() {
    let log: Log = Rc::new(RefCell::new(vec![]));
    let mut e: Engine<Fake> = Engine::new();
    let info = e.load_plugin(manifest("t", "transport", &["on_unload"]), Ok(fake(&[], &log))).unwrap();
    assert_eq!(info.id, "t");
    assert!(info.active && info.network && !info.filesystem);
    assert_eq!(
        e.load_plugin(manifest("t", "transport", &[]), Ok(fake(&[], &log))).err(),
        Some("plugin 't' already loaded".to_string())
    );
    assert_eq!(
        e.load_plugin(manifest("u", "storage", &[]), Err("bad module".into())).err(),
        Some("wasm init failed: bad module".to_string())
    );
    assert_eq!(e.list_plugins().len(), 1);
    e.unload_plugin("t");
    assert!(e.list_plugins().is_empty());
    assert_eq!(log.borrow().as_slice(), &[("on_unload".to_string(), "{}".to_string())]);
}

#[test]
fn engine_offline_is_no_error() {
    let mut e: Engine<Fake> = Engine::new();
    assert_eq!(e.configure_transport("me"), Ok(()));
    assert_eq!(e.send_message("bob", "hi"), Ok(()));
    assert!(e.get_messages("bob").is_empty());
    assert_eq!(e.poll_incoming(0), 0);
    assert!(e.poll_events().is_empty());
}

#[test]
fn engine_with_transport() {
    let log: Log = Rc::new(RefCell::new(vec![]));
    let pending = r#"{"messages":[{"from_topic":"bob","payload_b64":"aGk=","timestamp":77},{"payload_b64":"x"}]}"#;
    let transport = fake(
        &[("configure", Ok(r#"{"ok":true}"#)), ("send", Ok(r#"{"ok":false,"error":"down"}"#)), ("get_pending", Ok(pending))],
        &log,
    );
    let mut e: Engine<Fake> = Engine::new();
    e.load_plugin(manifest("net", "transport", &[]), Ok(transport)).unwrap();
    assert_eq!(e.configure_transport("alice"), Ok(()));
    assert_eq!(e.send_message("bob", "hi"), Err("down".to_string()));
    assert_eq!(e.poll_incoming(5), 2);
    let evs = e.poll_events();
    assert_eq!(evs.len(), 2);
    assert_eq!((evs[0].kind.as_str(), evs[0].from.as_str(), evs[0].text.as_str(), evs[0].timestamp), ("message_received", "bob", "hi", 77));
    assert_eq!((evs[1].from.as_str(), evs[1].text.as_str()), ("unknown", "x"));
    assert!(e.poll_events().is_empty());
    let calls = log.borrow();
    assert_eq!(calls[0], ("configure".to_string(), r#"{"address":"alice"}"#.to_string()));
    assert_eq!(calls[1], ("send".to_string(), r#"{"payload_b64":"aGk=","to_topic":"bob"}"#.to_string()));
    assert_eq!(calls[2], ("get_pending".to_string(), r#"{"limit":50,"since":5}"#.to_string()));
}

#[test]
fn engine_call_failure_text() {
    let log: Log = Rc::new(RefCell::new(vec![]));
    let mut e: Engine<Fake> = Engine::new();
    e.load_plugin(manifest("net", "transport", &[]), Ok(fake(&[("configure", Err("trap"))], &log))).unwrap();
    assert_eq!(e.configure_transport("a"), Err("configure failed: trap".to_string()));
}

#[test]
fn plugin_manager_flow() {
    let log: Log = Rc::new(RefCell::new(vec![]));
    let mut t: PluginTable<Fake> = PluginTable::new();
    assert_eq!(memory_pages(0), 1);
    assert_eq!(memory_pages(2), 32);
    let m = manifest("s", "storage", &["on_load", "on_unload"]);
    let (info, hook) = load_plugin(&mut t, m, 10, Ok(fake(&[("on_load", Ok("ok"))], &log))).ok().unwrap();
    assert_eq!(info.id, "s");
    assert!(matches!(hook, Some(Ok(ref s)) if s == "ok"));
    assert_eq!(log.borrow()[0].1, r#"{"plugin_id":"s","version":"0.1.0"}"#);
    assert!(matches!(check_load(&t, &manifest("s", "x", &[]), 1), Err(CoreError::PluginAlreadyLoaded(_))));
    assert!(matches!(
        check_load(&t, &manifest("big", "x", &[]), 1048577),
        Err(CoreError::WasmSizeExceeded { size: 1048577, limit: 1048576 })
    ));
    assert_eq!(find_plugin_by_category(&t, "storage"), Some("s".to_string()));
    assert_eq!(find_plugin_by_category(&t, "crypto"), None);
    assert!(matches!(call_plugin_fn(&mut t, "zz", "f", ""), Err(CoreError::PluginNotFound(_))));
    assert!(matches!(call_plugin_fn(&mut t, "s", "missing", ""), Err(CoreError::PluginCallFailed { .. })));
    assert_eq!(list_plugins(&t).len(), 1);
    unload_plugin(&mut t, "s");
    assert!(list_plugins(&t).is_empty());
    assert_eq!(log.borrow().last().unwrap().0, "on_unload");
    let info2 = void_core::host::models::PluginInfo {
        id: "a".into(),
        name: "n".into(),
        version: "v\"".into(),
        category: "c".into(),
        description: "d".into(),
        active: true,
        permissions: void_core::host::models::PluginPermissions {
            network: false,
            filesystem: false,
            contacts: false,
            clipboard: false,
            notifications: false,
        },
    };
    assert_eq!(on_load_config(&info2), r#"{"plugin_id":"a","version":"v\""}"#);
}

struct Echo {
    answer: Result<String, String>,
}

impl PluginCall for Echo {
    fn call(&mut self, _f: &str, _i: &str) -> Result<String, String> {
        self.answer.clone()
    }
}

#[test]
fn bus_engine_dispatch() {
    let mut e: BusEngine<Echo> = BusEngine::new();
    e.load(
        "crypto".into(),
        Echo { answer: Ok(r#"{"log":"done","emit":[{"topic":"CRYPTO_ENCRYPTED","data":"enc(x)"}]}"#.into()) },
        vec!["UI_SEND_MSG".into(), "UI_SEND_MSG".into()],
    );
    e.load("broken".into(), Echo { answer: Err("trap".into()) }, vec!["UI_SEND_MSG".into(), "SYS_TICK".into()]);
    let d = e.dispatch(BusEvent { topic: "UI_SEND_MSG".into(), data: "x".into(), ts: 0 });
    assert_eq!(d.emitted.len(), 1);
    assert_eq!((d.emitted[0].topic.as_str(), d.emitted[0].data.as_str(), d.emitted[0].ts), ("CRYPTO_ENCRYPTED", "enc(x)", 0));
    assert_eq!(d.notes.len(), 2);
    assert!(matches!(&d.notes[0], Note::Log { plugin, line } if plugin == "crypto" && line == "done"));
    assert!(matches!(&d.notes[1], Note::Failure { plugin, error } if plugin == "broken" && error == "trap"));
    let quiet = e.dispatch(BusEvent { topic: "SYS_TICK".into(), data: String::new(), ts: 1 });
    assert!(quiet.notes.is_empty());
    assert_eq!(distinct_topics(vec!["a".into(), "b".into(), "a".into()]), vec!["a".to_string(), "b".to_string()]);
}

#[test]
fn bus_answer_effects() {
    let (es, note) = answer_effect("p", false, Ok(r#"{"log":"l","emit":[{"topic":"A","data":"b"}]}"#.into()), true);
    assert_eq!((es.len(), es[0].topic.as_str(), es[0].ts), (1, "A", 0));
    assert!(matches!(note, Some(Note::Log { plugin, line }) if plugin == "p" && line == "l"));
    let (es, note) = answer_effect("p", true, Ok(r#"{"log":"l","emit":[]}"#.into()), true);
    assert!(es.is_empty() && note.is_none());
    let (es, note) = answer_effect("p", false, Ok("not json".into()), true);
    assert!(es.is_empty() && note.is_none());
    let (es, note) = answer_effect("q", false, Err("boom".into()), true);
    assert!(es.is_empty());
    assert!(matches!(note, Some(Note::Failure { plugin, error }) if plugin == "q" && error == "boom"));
    assert!(answer_effect("q", true, Err("boom".into()), true).1.is_none());
}

#[test]
fn bus_event_json_and_responses() {
    assert_eq!(event_json(&BusEvent { topic: "T".into(), data: "d".into(), ts: 3 }, true), r#"{"topic":"T","data":"d","ts":3}"#);
    let r = parse_response(r#"{"log":null,"emit":[{"topic":"A","data":"b","ts":9}]}"#, true).unwrap();
    assert!(r.log.is_none());
    assert_eq!(r.emit[0].ts, 9);
    assert!(parse_response(r#"{"log":null}"#, true).is_none());
    assert!(parse_response(r#"{"log":1,"emit":[]}"#, true).is_none());
    assert!(parse_response(r#"{"emit":[{"topic":"A"}]}"#, true).is_none());
    assert!(parse_response(r#"{"emit":[]}"#, true).is_some());
}

#[test]
fn plain_bus_hands_on_topic_and_data_only() {
    assert_eq!(event_json(&BusEvent { topic: "T".into(), data: "d".into(), ts: 3 }, false), r#"{"topic":"T","data":"d"}"#);
    assert!(parse_response(r#"{"log":null,"emit":[["A","b",9]]}"#, false).is_none());
    assert_eq!(parse_response(r#"{"log":null,"emit":[["A","b"]]}"#, false).unwrap().emit[0].topic, "A");
    assert_eq!(parse_response(r#"{"log":null,"emit":[{"topic":"A","data":"b","ts":9}]}"#, false).unwrap().emit[0].ts, 0);
    let mut e: BusEngine<Echo> = BusEngine::new_plain();
    e.load("p".into(), Echo { answer: Ok(r#"{"log":"tick","emit":[]}"#.into()) }, vec!["SYS_TICK".into()]);
    let d = e.dispatch(BusEvent { topic: "SYS_TICK".into(), data: String::new(), ts: 0 });
    assert_eq!(d.notes.len(), 1);
}

#[test]
fn poll_stores_and_decrypts_each_message() {
    let log: Log = Rc::new(RefCell::new(vec![]));
    let pending = r#"{"messages":[{"from_topic":"bob","payload_b64":"aGk=","timestamp":5}]}"#;
    let mut e: Engine<Fake> = Engine::new();
    e.load_plugin(manifest("net", "transport", &[]), Ok(fake(&[("get_pending", Ok(pending))], &log))).unwrap();
    e.load_plugin(manifest("sec", "crypto", &[]), Ok(fake(&[("decrypt", Ok(r#"{"plaintext":"plain"}"#))], &log))).unwrap();
    e.load_plugin(manifest("db", "storage", &[]), Ok(fake(&[("store_message", Ok("{}"))], &log))).unwrap();
    assert_eq!(e.poll_incoming(0), 1);
    let evs = e.poll_events();
    assert_eq!((evs[0].from.as_str(), evs[0].text.as_str(), evs[0].timestamp), ("bob", "plain", 5));
    let calls = log.borrow();
    assert_eq!(calls.len(), 3);
    assert_eq!(calls[0], ("get_pending".to_string(), r#"{"limit":50,"since":0}"#.to_string()));
    assert_eq!(calls[1], ("decrypt".to_string(), r#"{"ciphertext":"aGk="}"#.to_string()));
    assert_eq!(calls[2], ("store_message".to_string(), r#"{"from":"bob","text":"plain","timestamp":5,"to":"me"}"#.to_string()));
}

#[test]
fn poll_without_crypto_reads_base64_and_stops_on_bad_reply() {
    let log: Log = Rc::new(RefCell::new(vec![]));
    let pending = r#"{"messages":[{"from_topic":"bob","payload_b64":"aGk=","timestamp":5}]}"#;
    let mut e: Engine<Fake> = Engine::new();
    e.load_plugin(manifest("net", "transport", &[]), Ok(fake(&[("get_pending", Ok(pending))], &log))).unwrap();
    assert_eq!(e.poll_incoming(0), 1);
    assert_eq!(e.poll_events()[0].text, "hi");
    let log2: Log = Rc::new(RefCell::new(vec![]));
    let mut f: Engine<Fake> = Engine::new();
    f.load_plugin(manifest("net", "transport", &[]), Ok(fake(&[("get_pending", Ok("nope"))], &log2))).unwrap();
    f.load_plugin(manifest("db", "storage", &[]), Ok(fake(&[("store_message", Ok("{}"))], &log2))).unwrap();
    assert_eq!(f.poll_incoming(0), 0);
    assert!(f.poll_events().is_empty());
    assert_eq!(log2.borrow().len(), 1);
    assert!(f.check_new(&manifest("net", "transport", &[])).is_err());
    assert!(f.check_new(&manifest("other", "transport", &[])).is_ok());
}
