use std::cell::RefCell;
use std::collections::VecDeque;
use std::rc::Rc;
use void_core::void::crypto::{AesCrypto, Crypto};
use void_core::void::engine::{history_json, message_bytes, message_from_bytes, VoidEngine};
use void_core::void::storage::{MemStorage, Storage};
use void_core::void::transport::{TcpTransport, Transport};
use void_core::void::types::Message;

#[derive(Clone)]
struct Wire {
    queue: Rc<RefCell<VecDeque<Vec<u8>>>>,
    sent_to: Rc<RefCell<Vec<String>>>,
}

impl Transport for Wire {
    fn send(&self, addr: &str, data: &[u8]) -> Result<(), String> {
        self.sent_to.borrow_mut().push(addr.to_string());
        self.queue.borrow_mut().push_back(data.to_vec());
        Ok(())
    }
    fn recv(&mut self) -> Option<Vec<u8>> {
        self.queue.borrow_mut().pop_front()
    }
}

fn wire() -> Wire {
    Wire { queue: Rc::new(RefCell::new(VecDeque::new())), sent_to: Rc::new(RefCell::new(vec![])) }
}

#[test]
fn message_json_reads_back() {
    let m = Message { id: "id-1".into(), chat_id: "c\"1".into(), text: "привет".into(), timestamp: 12, incoming: false };
    let b = message_bytes(&m);
    assert_eq!(
        String::from_utf8(b.clone()).unwrap(),
        r#"{"id":"id-1","chat_id":"c\"1","text":"привет","timestamp":12,"incoming":false}"#
    );
    let back = message_from_bytes(&b).unwrap();
    assert_eq!((back.id, back.chat_id, back.text, back.timestamp, back.incoming), (m.id, m.chat_id, m.text, 12, false));
    assert!(message_from_bytes(b"{\"id\":\"x\"}").is_none());
    assert!(message_from_bytes(&[0xff]).is_none());
    let first = Message { id: "id-1".into(), chat_id: "c\"1".into(), text: "привет".into(), timestamp: 12, incoming: false };
    let two = vec![first, Message { id: "b".into(), chat_id: "c".into(), text: "t".into(), timestamp: 1, incoming: true }];
    assert_eq!(
        String::from_utf8(history_json(&two)).unwrap(),
        r#"[{"id":"id-1","chat_id":"c\"1","text":"привет","timestamp":12,"incoming":false},{"id":"b","chat_id":"c","text":"t","timestamp":1,"incoming":true}]"#
    );
    assert_eq!(history_json(&vec![]), b"[]".to_vec());
}

#[test]
fn send_then_poll_between_peers() {
    let key = [9u8; 32];
    let link = wire();
    let mut alice = VoidEngine::new(MemStorage::new(), AesCrypto::new(&key), vec![link.clone()]);
    let mut bob = VoidEngine::new(MemStorage::new(), AesCrypto::new(&key), vec![link.clone()]);
    let sent = alice.send_msg("chat", "hello bob", "10.0.0.2:7000");
    assert!(!sent.incoming);
    assert_eq!(sent.id.len(), 36);
    assert_eq!(link.sent_to.borrow().as_slice(), &["10.0.0.2:7000".to_string()]);
    assert_eq!(alice.history("chat").len(), 1);
    let got = bob.poll().unwrap();
    assert!(got.incoming);
    assert_eq!((got.id.as_str(), got.chat_id.as_str(), got.text.as_str(), got.timestamp), (sent.id.as_str(), "chat", "hello bob", sent.timestamp));
    assert_eq!(bob.history("chat").len(), 1);
    assert!(bob.poll().is_none());
    assert!(bob.history("other").is_empty());
}

#[test]
fn sealed_bytes_are_received() {
    let key = [3u8; 32];
    let c = AesCrypto::new(&key);
    let mut bob: VoidEngine<MemStorage, AesCrypto, Wire> = VoidEngine::new(MemStorage::new(), AesCrypto::new(&key), vec![]);
    let m = Message { id: "m1".into(), chat_id: "c".into(), text: "hi".into(), timestamp: 7, incoming: false };
    let sealed = c.encrypt(&message_bytes(&m));
    let got = bob.receive_sealed(&sealed).unwrap();
    assert!(got.incoming);
    assert_eq!((got.id.as_str(), got.chat_id.as_str(), got.text.as_str(), got.timestamp), ("m1", "c", "hi", 7));
    assert_eq!(bob.history("c").len(), 1);
    assert!(bob.receive_sealed(&sealed[..20]).is_none());
    assert!(bob.receive_sealed(&c.encrypt(b"not json")).is_none());
    assert_eq!(bob.history("c").len(), 1);
}

#[test]
fn wrong_key_is_dropped() {
    let link = wire();
    let mut alice = VoidEngine::new(MemStorage::new(), AesCrypto::new(&[1u8; 32]), vec![link.clone()]);
    let mut eve = VoidEngine::new(MemStorage::new(), AesCrypto::new(&[2u8; 32]), vec![link.clone()]);
    alice.send_msg("c", "x", "a");
    assert!(eve.poll().is_none());
    assert!(eve.history("c").is_empty());
}

#[test]
fn crypto_and_storage_parts() {
    let c = AesCrypto::new(&[5u8; 32]);
    let sealed = c.encrypt(b"data");
    assert_eq!(sealed.len(), 12 + 4 + 16);
    assert_eq!(c.decrypt(&sealed), Some(b"data".to_vec()));
    assert_eq!(c.decrypt(&sealed[..12]), None);
    let mut s = MemStorage::new();
    let m = Message { id: "1".into(), chat_id: "a".into(), text: "t".into(), timestamp: 1, incoming: true };
    s.save(&m);
    s.save(&Message { chat_id: "b".into(), ..m.clone() });
    s.save(&m);
    assert_eq!(s.history("a").len(), 2);
    let mut chats = s.chats();
    chats.sort();
    assert_eq!(chats, vec!["a".to_string(), "b".to_string()]);
}

#[test]
fn tcp_inbox_is_fifo() {
    let mut t = TcpTransport::new();
    assert!(t.recv().is_none());
    t.deliver(vec![1]);
    t.deliver(vec![2]);
    assert_eq!(t.recv(), Some(vec![1]));
    assert_eq!(t.recv(), Some(vec![2]));
    assert_eq!(TcpTransport::read_frame([0, 0, 0, 3]), Some(3));
    assert_eq!(TcpTransport::read_frame([1, 0, 0, 0]), None);
}

#[test]
fn send_with_given_id_and_time() {
    let key = [3u8; 32];
    let link = wire();
    let mut alice = VoidEngine::new(MemStorage::new(), AesCrypto::new(&key), vec![link.clone(), link.clone()]);
    let m = alice.send_msg_with("chat", "yo", "peer:1", "id-42".to_string(), 1234);
    assert_eq!((m.id.as_str(), m.chat_id.as_str(), m.text.as_str(), m.timestamp, m.incoming), ("id-42", "chat", "yo", 1234, false));
    assert_eq!(link.sent_to.borrow().len(), 2);
    assert_eq!(alice.history("chat")[0].id, "id-42");
}
