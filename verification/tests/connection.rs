use std::sync::mpsc::channel;
use std::sync::Arc;

use symbiotic::clipboard::Direction;
use symbiotic::connection::incoming::{accept_change, change_from_message, find_peer, verify};
use symbiotic::connection::manager::Manager;
use symbiotic::connection::outgoing::{identity, message_from_change};
use symbiotic::connection::{Broadcast, Peer};
use symbiotic::protocol::clipboard::Change;

fn pairs(v: &[(&str, &[u8])]) -> Vec<(String, Vec<u8>)> {
    v.iter().map(|(k, d)| (k.to_string(), d.to_vec())).collect()
}

#[test]
fn a_change_survives_the_wire() {
    let change = (99u64, pairs(&[("text/plain", b"hello"), ("text/html", b"<i>hello</i>")]));
    let msg = message_from_change(&change);
    assert_eq!(msg.get_at(), 99);
    assert_eq!(msg.get_content().len(), 2);
    let framed = msg.write_length_delimited_to_bytes();
    let (back, used) = Change::parse_length_delimited_from(&framed).unwrap();
    assert_eq!(used, framed.len());
    assert_eq!(change_from_message(&back), change);
}

#[test]
fn an_empty_change_survives_the_wire() {
    let change = (0u64, vec![]);
    let msg = message_from_change(&change);
    let back = Change::parse_from_bytes(&msg.write_to_bytes()).unwrap();
    assert_eq!(change_from_message(&back), change);
}

#[test]
fn missing_fields_read_as_empty() {
    let back = Change::parse_from_bytes(&[0x12, 0x00]).unwrap();
    assert_eq!(change_from_message(&back), (0, pairs(&[("", b"")])));
}

#[test]
fn peers_are_found_by_address() {
    let mut a = Peer::default();
    a.ip = "10.0.0.1".to_string();
    let mut b = Peer::default();
    b.ip = "10.0.0.2".to_string();
    let peers = vec![a, b];
    assert_eq!(find_peer(&peers, &"10.0.0.2".to_string()), Some(1));
    assert_eq!(find_peer(&peers, &"10.0.0.3".to_string()), None);
}

#[test]
fn handshakes() {
    assert!(verify(&identity()));
    assert!(Manager::verify(&Manager::identity()));
}

#[test]
fn manager_and_broadcast() {
    let mut m = Manager::new("0.0.0.0".to_string(), 23421, vec!["10.0.0.1".to_string()]);
    assert!(m.broadcast.is_none());
    assert_eq!(m.port, 23421);
    let (tx, rx) = channel();
    m.broadcast = Some(vec![tx.clone()]);
    let change = Arc::new((1u64, pairs(&[("text/plain", b"x")])));
    m.set(change.clone());
    assert_eq!(*rx.recv().unwrap(), *change);
    let b = Broadcast(vec![tx]);
    assert!(b.send(change.clone()).is_ok());
    assert_eq!(*rx.recv().unwrap(), *change);
    drop(rx);
    assert_eq!(b.send(change.clone()), Err(change));
}

#[test]
fn broadcasting_to_nobody_succeeds() {
    let change = Arc::new((1u64, pairs(&[("text/plain", b"x")])));
    assert!(Broadcast(vec![]).send(change).is_ok());
}

#[test]
fn changes_from_unknown_addresses_are_dropped() {
    let mut a = Peer::default();
    a.ip = "10.0.0.1".to_string();
    let peers = vec![a];
    let mut msg = Change::new();
    msg.set_at(7);
    match accept_change(&peers, &"10.0.0.1".to_string(), &msg) {
        Some(Direction::Incoming(c)) => assert_eq!(*c, (7, vec![])),
        _ => panic!("a known peer's change is handed on"),
    }
    assert!(accept_change(&peers, &"10.0.0.9".to_string(), &msg).is_none());
    assert!(accept_change(&vec![], &"10.0.0.1".to_string(), &msg).is_none());
}
