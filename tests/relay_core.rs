use relay::dispatch::{dispatch, DispatchOutcome};
use relay::event::ChatEvent;
use relay::registry::{PeerId, PeerRegistry, Push};
use relay::relay::{step, Command, RelayInput, RelayState};
use tokio::sync::mpsc::{unbounded_channel, UnboundedReceiver};

fn msg(user: &str, text: &str) -> ChatEvent {
    ChatEvent::Msg { user: user.to_string(), text: text.to_string() }
}

fn drain(rx: &mut UnboundedReceiver<String>) -> Vec<String> {
    let mut out = vec![];
    while let Ok(s) = rx.try_recv() {
        out.push(s);
    }
    out
}

/// Carries out the sends, as the relay's task does; reports which were taken.
fn deliver(pushes: Vec<Push>) -> Vec<bool> {
    pushes.into_iter().map(|p| p.channel.send(p.payload).is_ok()).collect()
}

fn relay(reg: &mut PeerRegistry, payload: &str) -> Option<Vec<bool>> {
    match dispatch(reg, payload) {
        DispatchOutcome::Broadcast(pushes) => Some(deliver(pushes)),
        DispatchOutcome::Rejected => None,
    }
}

fn connect(reg: &mut PeerRegistry, addr: &str) -> UnboundedReceiver<String> {
    let (tx, rx) = unbounded_channel();
    reg.register(PeerId::new(addr.to_string()), tx);
    rx
}

#[test]
fn encodes_each_variant() {
    assert_eq!(msg("alice", "hi").encode(), r#"{"Msg":{"user":"alice","text":"hi"}}"#);
    let c = ChatEvent::Connect { addr: "1.2.3.4:5".to_string() };
    assert_eq!(c.encode(), r#"{"Connect":{"addr":"1.2.3.4:5"}}"#);
    let d = ChatEvent::Disconnect { addr: "x".to_string() };
    assert_eq!(d.encode(), r#"{"Disconnect":{"addr":"x"}}"#);
}

#[test]
fn escapes_quotes_backslashes_and_controls() {
    let e = msg("a\"b", "l1\nl2\\\u{1}\té\u{7f}");
    assert_eq!(e.encode(), r#"{"Msg":{"user":"a\"b","text":"l1\nl2\\\u0001\té\u007f"}}"#);
    assert_eq!(ChatEvent::decode(&e.encode()), Some(e));
}

#[test]
fn round_trip_of_alice_hi() {
    let e = msg("alice", "hi");
    let decoded = ChatEvent::decode(&e.encode());
    assert_eq!(decoded, Some(msg("alice", "hi")));
}

#[test]
fn round_trip_of_empty_fields() {
    let e = ChatEvent::Connect { addr: String::new() };
    assert_eq!(ChatEvent::decode(&e.encode()), Some(e));
}

#[test]
fn decodes_from_text() {
    let d = ChatEvent::decode(r#"{"Disconnect":{"addr":"10.0.0.1:80"}}"#);
    assert_eq!(d, Some(ChatEvent::Disconnect { addr: "10.0.0.1:80".to_string() }));
}

#[test]
fn rejects_malformed_payloads() {
    assert_eq!(ChatEvent::decode("not json"), None);
    assert_eq!(ChatEvent::decode(""), None);
    assert_eq!(ChatEvent::decode(r#"{"Msg":{"user":"a"}}"#), None);
    assert_eq!(ChatEvent::decode(r#"{"Msg":{"user":"a","text":"b"}} x"#), None);
    assert_eq!(ChatEvent::decode(r#"{"Msg":{"user":"a\q","text":"b"}}"#), None);
    assert_eq!(ChatEvent::decode(r#"{"Msg":{"user":"a\ud800","text":"b"}}"#), None);
    assert_eq!(ChatEvent::decode(r#"{"Ping":{"addr":"x"}}"#), None);
    assert_eq!(ChatEvent::decode(r#"{"Msg":{"user":"a","user":"b"}}"#), None);
    assert_eq!(ChatEvent::decode(r#"{"Connect":{"addr":"x","port":"1"}}"#), None);
    assert_eq!(ChatEvent::decode("{\"Connect\":{\"addr\":\"a\nb\"}}"), None);
}

#[test]
fn accepts_any_spacing_and_field_order() {
    let spaced = " {\n \"Msg\" : { \"user\" : \"a\" ,\t\"text\":\"b\" } }\r\n";
    assert_eq!(ChatEvent::decode(spaced), Some(msg("a", "b")));
    let swapped = r#"{"Msg":{"text":"b","user":"a"}}"#;
    assert_eq!(ChatEvent::decode(swapped), Some(msg("a", "b")));
}

#[test]
fn accepts_every_string_escape() {
    let text = r#"{"Msg":{"user":"\u0041\/\"\\","text":"\b\f\n\r\t\u00e9\ud83d\ude00"}}"#;
    assert_eq!(ChatEvent::decode(text), Some(msg("A/\"\\", "\u{8}\u{c}\n\r\té\u{1F600}")));
    let keys = r#"{"\u0043onnect":{"\u0061ddr":"x"}}"#;
    assert_eq!(ChatEvent::decode(keys), Some(ChatEvent::Connect { addr: "x".to_string() }));
}

#[test]
fn re_encoding_gives_the_canonical_text() {
    let e = ChatEvent::decode(r#"{ "Msg" : { "text" : "hi" , "user" : "alice" } }"#).unwrap();
    assert_eq!(e.encode(), r#"{"Msg":{"user":"alice","text":"hi"}}"#);
}

#[test]
fn dispatch_sends_the_re_encoded_text() {
    let mut reg = PeerRegistry::new();
    let mut rx = connect(&mut reg, "A");
    assert_eq!(relay(&mut reg, r#"{ "Msg": {"text":"hi", "user":"alice"} }"#), Some(vec![true]));
    let got = drain(&mut rx);
    assert_eq!(got, vec![r#"{"Msg":{"user":"alice","text":"hi"}}"#.to_string()]);
    assert_eq!(ChatEvent::decode(&got[0]), Some(msg("alice", "hi")));
}

#[test]
fn two_peers_then_one() {
    let mut reg = PeerRegistry::new();
    let mut rx_a = connect(&mut reg, "A");
    let mut rx_b = connect(&mut reg, "B");

    let hello = msg("alice", "hello").encode();
    assert_eq!(relay(&mut reg, &hello), Some(vec![true, true]));
    assert_eq!(drain(&mut rx_a), vec![hello.clone()]);
    assert_eq!(drain(&mut rx_b), vec![hello.clone()]);

    let bye = ChatEvent::Disconnect { addr: "B".to_string() }.encode();
    assert_eq!(relay(&mut reg, &bye), Some(vec![true]));
    assert_eq!(drain(&mut rx_a), vec![bye.clone()]);
    assert_eq!(drain(&mut rx_b), Vec::<String>::new());

    let again = msg("alice", "again").encode();
    assert_eq!(relay(&mut reg, &again), Some(vec![true]));
    assert_eq!(drain(&mut rx_a), vec![again]);
    assert_eq!(drain(&mut rx_b), Vec::<String>::new());
}

#[test]
fn n_connects_reach_n_channels() {
    let mut reg = PeerRegistry::new();
    let mut rxs = vec![];
    for i in 0..5 {
        rxs.push(connect(&mut reg, &format!("peer{}", i)));
    }
    let pushes = reg.broadcast(&msg("u", "t"));
    assert_eq!(pushes.len(), 5);
    for (i, p) in pushes.iter().enumerate() {
        assert_eq!(p.peer.addr, format!("peer{}", i));
        assert_eq!(p.payload, msg("u", "t").encode());
    }
    assert_eq!(deliver(pushes), vec![true; 5]);
    for rx in rxs.iter_mut() {
        assert_eq!(drain(rx), vec![msg("u", "t").encode()]);
    }
}

#[test]
fn registering_again_replaces_the_channel() {
    let mut reg = PeerRegistry::new();
    let mut old_rx = connect(&mut reg, "A");
    let mut new_rx = connect(&mut reg, "A");
    assert_eq!(deliver(reg.broadcast(&msg("u", "t"))), vec![true]);
    assert!(drain(&mut old_rx).is_empty());
    assert_eq!(drain(&mut new_rx).len(), 1);
}

#[test]
fn closed_receiver_is_skipped() {
    let mut reg = PeerRegistry::new();
    let rx_gone = connect(&mut reg, "gone");
    let mut rx_live = connect(&mut reg, "live");
    drop(rx_gone);
    assert_eq!(deliver(reg.broadcast(&msg("u", "t"))), vec![false, true]);
    assert_eq!(drain(&mut rx_live).len(), 1);
}

#[test]
fn disconnected_peer_gets_nothing_more() {
    let mut reg = PeerRegistry::new();
    let mut rx_p = connect(&mut reg, "P");
    let bye = ChatEvent::Disconnect { addr: "P".to_string() }.encode();
    assert_eq!(relay(&mut reg, &bye), Some(vec![]));
    assert_eq!(relay(&mut reg, &msg("x", "y").encode()), Some(vec![]));
    assert!(drain(&mut rx_p).is_empty());
}

#[test]
fn malformed_payload_does_not_block_others() {
    let mut reg = PeerRegistry::new();
    let mut rx_a = connect(&mut reg, "A");
    let mut rx_b = connect(&mut reg, "B");
    assert_eq!(relay(&mut reg, "{garbage"), None);
    assert!(drain(&mut rx_a).is_empty());
    let good = msg("bob", "still here").encode();
    assert_eq!(relay(&mut reg, &good), Some(vec![true, true]));
    assert_eq!(drain(&mut rx_a), vec![good.clone()]);
    assert_eq!(drain(&mut rx_b), vec![good]);
}

#[test]
fn unregistering_an_absent_peer_is_a_no_op() {
    let mut reg = PeerRegistry::new();
    let mut rx_a = connect(&mut reg, "A");
    assert_eq!(reg.unregister(&PeerId::new("nobody".to_string())), false);
    assert_eq!(reg.unregister(&PeerId::new("A".to_string())), true);
    assert_eq!(reg.unregister(&PeerId::new("A".to_string())), false);
    assert!(reg.broadcast(&msg("u", "t")).is_empty());
    assert!(drain(&mut rx_a).is_empty());
}

#[test]
fn handshake_registers_then_greets() {
    let peer = PeerId::new("9.9.9.9:1".to_string());
    let (next, cmds) = step(RelayState::Handshaking, RelayInput::HandshakeDone, &peer);
    assert_eq!(next, RelayState::Active);
    assert_eq!(cmds.len(), 2);
    assert!(matches!(cmds[0], Command::Register));
    match &cmds[1] {
        Command::Enqueue(t) => assert_eq!(t, r#"{"Connect":{"addr":"9.9.9.9:1"}}"#),
        _ => panic!("expected the greeting"),
    }
}

#[test]
fn failed_handshake_closes_without_registering() {
    let peer = PeerId::new("p".to_string());
    let (next, cmds) = step(RelayState::Handshaking, RelayInput::HandshakeFailed, &peer);
    assert_eq!(next, RelayState::Closed);
    assert!(cmds.is_empty());
}

#[test]
fn active_forwards_text_and_ignores_other_frames() {
    let peer = PeerId::new("p".to_string());
    let (next, cmds) = step(RelayState::Active, RelayInput::Text("raw".to_string()), &peer);
    assert_eq!(next, RelayState::Active);
    assert!(matches!(&cmds[..], [Command::Enqueue(t)] if t == "raw"));
    let (next, cmds) = step(RelayState::Active, RelayInput::NonText, &peer);
    assert_eq!(next, RelayState::Active);
    assert!(cmds.is_empty());
}

#[test]
fn ending_drains_then_closes() {
    let peer = PeerId::new("p".to_string());
    let (next, cmds) = step(RelayState::Active, RelayInput::HalfEnded, &peer);
    assert_eq!(next, RelayState::Draining);
    assert!(matches!(cmds[0], Command::CancelOther));
    assert!(matches!(&cmds[1], Command::Enqueue(t) if t == r#"{"Disconnect":{"addr":"p"}}"#));
    let (next, cmds) = step(RelayState::Draining, RelayInput::QueueDrained, &peer);
    assert_eq!(next, RelayState::Closed);
    assert!(matches!(&cmds[..], [Command::Unregister, Command::Release]));
    let (next, cmds) = step(RelayState::Closed, RelayInput::Text("late".to_string()), &peer);
    assert_eq!(next, RelayState::Closed);
    assert!(cmds.is_empty());
}
