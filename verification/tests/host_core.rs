use ed25519_dalek::Signer;
use void_core::codec::{base64_decode, base64_encode, hex_encode, sha256};
use void_core::framing::{decode_frame, encode_frame, frame_length, FrameRead, MESSENGER_FRAME_LIMIT, PEER_FRAME_LIMIT};
use void_core::host::dlq::{dlq_line, DlqConfig};
use void_core::host::errors::CoreError;
use void_core::host::event::{Event, EventMeta, SYS_SHUTDOWN};
use void_core::host::manifest::{EventsConfig, PermissionsConfig, PluginInfo, PluginManifest, RestartPolicy, SupervisorConfig};
use void_core::host::registry::Registry;
use void_core::host::router::{Router, SubscriberTx};
use void_core::host::runtime::{alloc_size, build_permissions, fuel_used, guest_range, handle_result};
use void_core::host::signing::{load_verifying_key, verify_wasm, SigningError};
use void_core::host::supervisor::Supervisor;
use void_core::host::hotswap::{HotSwapConfig, HotSwapper};
use void_core::host::worker::{backoff, deliver, meta_json, Directive, InstanceLink, Outcome, PluginInstance, Supervision, MAX_BACKOFF_MS};

fn manifest(id: &str, subs: &[&str], policy: RestartPolicy) -> PluginManifest {
    PluginManifest {
        plugin: PluginInfo {
            id: id.to_string(),
            version: "1.0.0".to_string(),
            sha256: String::new(),
            signature: String::new(),
            wasm_path: format!("./{}.wasm", id),
        },
        events: EventsConfig { subscriptions: subs.iter().map(|s| s.to_string()).collect(), max_queue_size: 8 },
        supervisor: SupervisorConfig { restart_policy: policy, max_retries: 3 },
        permissions: PermissionsConfig { network: true, filesystem: false, allowed_dirs: vec!["./data".to_string()] },
    }
}

#[test]
fn backoff_doubles_then_caps() {
    let got: Vec<u64> = (0..13).map(backoff).collect();
    assert_eq!(got, vec![100, 200, 400, 800, 1600, 3200, 6400, 12800, 25600, 30000, 30000, 30000, 30000]);
    assert_eq!(backoff(u32::MAX), MAX_BACKOFF_MS);
}

#[test]
fn supervision_restarts_then_stops() {
    let mut s = Supervision::new(RestartPolicy::OnFailure, 2);
    assert_eq!(s.step(Outcome::Failed), Directive::DeadLetterAndRestart { delay_ms: 200 });
    assert_eq!(s.step(Outcome::Failed), Directive::DeadLetterAndRestart { delay_ms: 400 });
    assert_eq!(s.step(Outcome::Failed), Directive::DeadLetterAndStop);
    let mut t = Supervision::new(RestartPolicy::Always, 1);
    assert_eq!(t.step(Outcome::Failed), Directive::DeadLetterAndRestart { delay_ms: 200 });
    assert_eq!(t.step(Outcome::Handled), Directive::Continue);
    assert_eq!(t.retries, 0);
    assert_eq!(t.step(Outcome::Failed), Directive::DeadLetterAndRestart { delay_ms: 200 });
}

#[test]
fn never_policy_does_not_restart() {
    let mut s = Supervision::new(RestartPolicy::Never, 5);
    assert_eq!(s.step(Outcome::Failed), Directive::DeadLetterAndStop);
    assert_eq!(s.step(Outcome::Shutdown), Directive::Stop);
}

struct Scripted {
    answers: Vec<Result<(), String>>,
    seen: Vec<Vec<u8>>,
}

impl PluginInstance for Scripted {
    fn handle_event(&mut self, meta_json: &[u8], _payload: &[u8]) -> Result<(), String> {
        self.seen.push(meta_json.to_vec());
        self.answers.remove(0)
    }
    fn fuel_consumed(&self) -> u64 {
        0
    }
}

#[test]
fn deliver_applies_outcomes() {
    let mut inst = InstanceLink::new(Scripted { answers: vec![Err("boom".into()), Ok(())], seen: vec![] });
    let mut sup = Supervision::new(RestartPolicy::Always, 3);
    let ev = Event::new("UI_SEND_MSG", vec![1, 2]);
    assert_eq!(deliver(&mut inst, &mut sup, &ev), Directive::DeadLetterAndRestart { delay_ms: 200 });
    assert_eq!(deliver(&mut inst, &mut sup, &ev), Directive::Continue);
    let stop = Event::new(SYS_SHUTDOWN, vec![]);
    assert_eq!(deliver(&mut inst, &mut sup, &stop), Directive::Stop);
    assert_eq!(inst.instance.seen.len(), 2);
    let meta: serde_json::Value = serde_json::from_slice(&inst.instance.seen[0]).unwrap();
    assert_eq!(meta["topic"], "UI_SEND_MSG");
    assert_eq!(meta["version"], 1);
}

#[test]
fn meta_json_field_order() {
    let m = EventMeta { id: "i".into(), topic: "T".into(), version: 1, timestamp: 9 };
    assert_eq!(String::from_utf8(meta_json(&m)).unwrap(), r#"{"id":"i","topic":"T","version":1,"timestamp":9}"#);
}

#[test]
fn frame_roundtrip_and_limits() {
    let f = encode_frame(b"hello");
    assert_eq!(f, vec![0, 0, 0, 5, b'h', b'e', b'l', b'l', b'o']);
    match decode_frame(&f, MESSENGER_FRAME_LIMIT) {
        FrameRead::Frame { payload, consumed } => {
            assert_eq!(payload, b"hello".to_vec());
            assert_eq!(consumed, 9);
        },
        _ => panic!("frame expected"),
    }
    assert!(matches!(decode_frame(&f[..6], MESSENGER_FRAME_LIMIT), FrameRead::Incomplete));
    assert!(matches!(decode_frame(&[0, 0, 1], MESSENGER_FRAME_LIMIT), FrameRead::Incomplete));
    assert_eq!(frame_length([0, 0x98, 0x96, 0x80], PEER_FRAME_LIMIT), Some(10_000_000));
    assert_eq!(frame_length([0, 0x98, 0x96, 0x81], PEER_FRAME_LIMIT), None);
    assert!(matches!(decode_frame(&[0, 0xA0, 0, 1], MESSENGER_FRAME_LIMIT), FrameRead::TooLarge));
}

#[test]
fn error_texts() {
    assert_eq!(CoreError::PluginNotFound("x".into()).message(), "plugin not found: x");
    assert_eq!(
        CoreError::PluginAlreadyLoaded("x".into()).message(),
        "plugin 'x' already loaded \u{2014} unload it first"
    );
    assert_eq!(
        CoreError::WasmSizeExceeded { size: 10, limit: 5 }.message(),
        "wasm size 10 bytes exceeds limit 5 bytes"
    );
    assert_eq!(CoreError::NoCategoryHandler("c".into()).to_json(), r#"{"error":"no plugin handles category 'c'","ok":false}"#);
}

#[test]
fn codec_vectors() {
    assert_eq!(hex_encode(&sha256(b"abc")), "ba7816bf8f01cfea414140de5dae2223b00361a396177a9cb410ff61f20015ad");
    assert_eq!(hex_encode(&[0, 255, 16]), "00ff10");
    assert_eq!(base64_encode(b"hi"), "aGk=");
    assert_eq!(base64_decode("aGk="), Ok(b"hi".to_vec()));
    assert!(base64_decode("a").is_err());
}

#[test]
fn signing_checks_digest_first() {
    let key = load_verifying_key(&base64_encode(&[0u8; 31]));
    assert!(matches!(key, Err(SigningError::KeyLength)));
    assert!(matches!(load_verifying_key("***"), Err(SigningError::KeyNotBase64)));
    assert_eq!(SigningError::KeyLength.message(), "verifying key must be 32 bytes");
    assert_eq!(
        SigningError::Sha256Mismatch { expected: "a".into(), computed: "b".into() }.message(),
        "SHA256 mismatch: expected a, computed b"
    );
    let sk = ed25519_dalek::SigningKey::from_bytes(&[7u8; 32]);
    let vk = load_verifying_key(&base64_encode(sk.verifying_key().as_bytes())).ok().unwrap();
    let wasm = b"\0asm module";
    let digest = sha256(wasm);
    let hex = hex_encode(&digest);
    let sig = sk.sign(&digest);
    assert!(verify_wasm(wasm, &hex, &base64_encode(&sig.to_bytes()), &vk).is_ok());
    match verify_wasm(wasm, "00", "", &vk) {
        Err(SigningError::Sha256Mismatch { expected, computed }) => {
            assert_eq!(expected, "00");
            assert_eq!(computed, hex);
        },
        _ => panic!("mismatch expected"),
    }
    assert!(matches!(verify_wasm(wasm, &hex, "AAAA", &vk), Err(SigningError::SignatureLength)));
    let other = sk.sign(b"other");
    assert!(matches!(verify_wasm(wasm, &hex, &base64_encode(&other.to_bytes()), &vk), Err(SigningError::SignatureRejected)));
}

#[test]
fn registry_without_key_admits_and_replaces() {
    let mut r = Registry::new();
    assert!(r.load(manifest("a", &[], RestartPolicy::Never), vec![1]).is_ok());
    assert!(r.load(manifest("a", &[], RestartPolicy::Never), vec![2]).is_ok());
    assert_eq!(r.get("a").unwrap().wasm_bytes, vec![2]);
    assert_eq!(r.ids(), vec!["a".to_string()]);
    assert!(r.remove("a").is_some());
    assert!(r.get("a").is_none());
}

#[test]
fn registry_with_key_refuses_unsigned() {
    let sk = ed25519_dalek::SigningKey::from_bytes(&[3u8; 32]);
    let vk = load_verifying_key(&base64_encode(sk.verifying_key().as_bytes())).ok().unwrap();
    let mut r = Registry::new().with_verifying_key(vk);
    assert!(matches!(r.load(manifest("a", &[], RestartPolicy::Never), vec![1]), Err(SigningError::Sha256Mismatch { .. })));
    assert!(r.ids().is_empty());
}

#[test]
fn router_delivers_in_registration_order() {
    let (tx1, mut rx1) = tokio::sync::mpsc::channel::<Event>(4);
    let (tx2, mut rx2) = tokio::sync::mpsc::unbounded_channel::<Event>();
    let (dlq, mut dlq_rx) = tokio::sync::mpsc::unbounded_channel::<Event>();
    let mut router = Router::new();
    router.register("p1", &["A".to_string(), "B".to_string()], SubscriberTx::Bounded(tx1));
    router.register("host", &["A".to_string()], SubscriberTx::Unbounded(tx2));
    let mut table = router.clone_table();
    let got = table.route(&Event::new("A", vec![9]), &dlq);
    assert_eq!(got, vec![("p1".to_string(), true), ("host".to_string(), true)]);
    assert_eq!(rx1.try_recv().unwrap().payload, vec![9]);
    assert_eq!(rx2.try_recv().unwrap().meta.topic, "A");
    assert!(table.route(&Event::new("C", vec![]), &dlq).is_empty());
    drop(rx1);
    let got = table.route(&Event::new("B", vec![]), &dlq);
    assert_eq!(got, vec![("p1".to_string(), false)]);
    assert_eq!(dlq_rx.try_recv().unwrap().meta.topic, "B");
}

#[test]
fn supervisor_loads_and_watches() {
    let mut s = Supervisor::new(None);
    let (tx, _rx) = tokio::sync::mpsc::channel::<Event>(8);
    assert!(s.load_plugin(manifest("crypto", &["UI_SEND_MSG"], RestartPolicy::Always), vec![0], tx).is_ok());
    let (htx, mut hrx) = tokio::sync::mpsc::unbounded_channel::<Event>();
    s.subscribe_host(&["DB_HISTORY_RESULT".to_string()], htx);
    let (dlq, _d) = tokio::sync::mpsc::unbounded_channel::<Event>();
    let mut t = s.routing_table();
    assert_eq!(t.route(&Event::new("UI_SEND_MSG", vec![]), &dlq), vec![("crypto".to_string(), true)]);
    assert_eq!(t.route(&Event::new("DB_HISTORY_RESULT", vec![]), &dlq), vec![("__host__".to_string(), true)]);
    assert!(hrx.try_recv().is_ok());
    let h = s.hot_swapper(HotSwapConfig::default());
    assert_eq!(h.graceful_timeout_ms(), 500);
    assert_eq!(h.id_for_path("./crypto.wasm"), Some("crypto".to_string()));
    assert_eq!(h.id_for_path("./other.wasm"), None);
    assert_eq!(h.watched_paths(), vec!["./crypto.wasm".to_string()]);
}

#[test]
fn hot_swap_signals_shutdown() {
    let (tx, mut rx) = tokio::sync::mpsc::channel::<Event>(1);
    let mut h = HotSwapper::new(HotSwapConfig { graceful_timeout_ms: 10 });
    h.register("p", "/tmp/p.wasm".to_string(), tx);
    assert!(h.signal_shutdown("p"));
    assert!(!h.signal_shutdown("q"));
    let ev = rx.try_recv().unwrap();
    assert_eq!(ev.meta.topic, SYS_SHUTDOWN);
    assert!(ev.payload.is_empty());
}

#[test]
fn dlq_record_line() {
    let ev = Event { meta: EventMeta { id: "e1".into(), topic: "T".into(), version: 1, timestamp: 5 }, payload: vec![1, 255] };
    let line = String::from_utf8(dlq_line(&ev)).unwrap();
    assert_eq!(line, "{\"id\":\"e1\",\"topic\":\"T\",\"payload\":[1,255],\"ts\":5}\n");
    assert_eq!(DlqConfig::default().path, "./data/dlq.jsonl");
}

#[test]
fn runtime_helpers() {
    assert_eq!(handle_result("wasmi plugin error", 0), Ok(()));
    assert_eq!(handle_result("wasmi plugin error", -3), Err("wasmi plugin error -3".to_string()));
    assert_eq!(handle_result("plugin error", 7), Err("plugin error 7".to_string()));
    assert_eq!(guest_range(2, 3, 5), Some((2, 5)));
    assert_eq!(guest_range(2, 4, 5), None);
    assert_eq!(guest_range(-1, 1, 5), None);
    assert_eq!(guest_range(0, -1, 5), None);
    assert_eq!(alloc_size(0), 1);
    assert_eq!(alloc_size(9), 9);
    assert_eq!(fuel_used(100, 30), 70);
    assert_eq!(fuel_used(10, 30), 0);
    let p = build_permissions(&manifest("a", &[], RestartPolicy::Never));
    assert!(p.network && !p.filesystem);
    assert_eq!(p.allowed_dirs, vec!["./data".to_string()]);
}
