use rust_commandlines::authority::{Action, Authority, Event, Handle, BAN_WINDOW_MS};
use rust_commandlines::net::{Ip, PeerAddr};
use rust_commandlines::reader::after_read;

fn v4(a: u8, b: u8, c: u8, d: u8) -> Ip {
    Ip::V4(u32::from_be_bytes([a, b, c, d]))
}

fn handle(id: u64, ip: Ip, port: u16) -> Handle {
    Handle { id, addr: PeerAddr::new(ip, port) }
}

fn message(h: Handle, bytes: &[u8]) -> Event {
    Event::MessageReceived { handle: h, bytes: bytes.to_vec() }
}

fn delivered_to(act: &Action) -> Vec<u64> {
    match act {
        Action::Deliver { to, .. } => {
            let mut ids: Vec<u64> = to.iter().map(|h| h.id).collect();
            ids.sort();
            ids
        }
        other => panic!("expected a delivery, got {:?}", other),
    }
}

const MINUTE: u64 = 60_000;

#[test]
fn message_reaches_other_client_only() {
    let mut auth = Authority::new();
    let alpha = handle(1, v4(1, 2, 3, 4), 5000);
    let beta = handle(2, v4(5, 6, 7, 8), 6000);
    assert!(matches!(auth.handle_event(Event::Connected { handle: alpha }, 0), Action::Admit));
    assert!(matches!(auth.handle_event(Event::Connected { handle: beta }, 1), Action::Admit));
    let act = auth.handle_event(message(alpha, b"hi"), 2);
    match &act {
        Action::Deliver { to, bytes } => {
            assert_eq!(to.len(), 1);
            assert_eq!(to[0], beta);
            assert_eq!(bytes.as_slice(), b"hi");
        }
        other => panic!("expected a delivery, got {:?}", other),
    }
}

#[test]
fn ban_refuses_then_expires() {
    let mut auth = Authority::new();
    let ip = v4(9, 9, 9, 9);
    auth.ban(ip, 0);
    let early = handle(1, ip, 7000);
    let act = auth.handle_event(Event::Connected { handle: early }, 5 * MINUTE);
    match act {
        Action::Reject { handle: h } => assert_eq!(h, early),
        other => panic!("expected a rejection, got {:?}", other),
    }
    assert!(auth.is_banned(ip, 5 * MINUTE));
    let other = handle(9, v4(1, 1, 1, 1), 1);
    assert!(auth.on_connected(other, 5 * MINUTE));
    assert_eq!(delivered_to(&auth.handle_event(message(other, b"x"), 5 * MINUTE)), Vec::<u64>::new());

    let late = handle(2, ip, 7000);
    assert!(matches!(auth.handle_event(Event::Connected { handle: late }, 11 * MINUTE), Action::Admit));
    assert!(!auth.is_banned(ip, 11 * MINUTE));
    assert_eq!(delivered_to(&auth.handle_event(message(other, b"x"), 11 * MINUTE)), vec![2]);
}

#[test]
fn disconnected_client_gets_no_broadcast() {
    let mut auth = Authority::new();
    let gamma = handle(3, v4(10, 0, 0, 3), 4000);
    let delta = handle(4, v4(10, 0, 0, 4), 4000);
    let eps = handle(5, v4(10, 0, 0, 5), 4000);
    auth.handle_event(Event::Connected { handle: gamma }, 0);
    auth.handle_event(Event::Connected { handle: delta }, 0);
    auth.handle_event(Event::Connected { handle: eps }, 0);
    assert!(matches!(auth.handle_event(Event::Disconnected { handle: gamma }, 1), Action::Forget));
    assert_eq!(delivered_to(&auth.handle_event(message(delta, b"after"), 2)), vec![5]);
}

#[test]
fn ban_window_edge_is_admission() {
    let mut auth = Authority::new();
    let ip = v4(8, 8, 8, 8);
    auth.ban(ip, 1_000);
    assert!(auth.is_banned(ip, 1_000 + BAN_WINDOW_MS - 1));
    assert!(!auth.on_connected(handle(1, ip, 1), 1_000 + BAN_WINDOW_MS - 1));
    assert!(!auth.is_banned(ip, 1_000 + BAN_WINDOW_MS));
    assert!(auth.on_connected(handle(2, ip, 1), 1_000 + BAN_WINDOW_MS));
}

#[test]
fn ban_is_by_ip_not_port() {
    let mut auth = Authority::new();
    let ip = Ip::V6(1);
    auth.ban(ip, 0);
    assert!(!auth.on_connected(handle(1, ip, 1), 0));
    assert!(!auth.on_connected(handle(2, ip, 2), 0));
    assert!(auth.on_connected(handle(3, Ip::V6(2), 1), 0));
}

#[test]
fn reconnect_replaces_record() {
    let mut auth = Authority::new();
    let a = v4(1, 1, 1, 1);
    let sender = handle(1, v4(2, 2, 2, 2), 1);
    auth.on_connected(handle(10, a, 80), 0);
    auth.on_connected(handle(11, a, 80), 1);
    auth.on_connected(sender, 1);
    assert_eq!(delivered_to(&auth.handle_event(message(sender, b"m"), 2)), vec![11]);
}

#[test]
fn message_from_unknown_sender_goes_to_all() {
    let mut auth = Authority::new();
    auth.on_connected(handle(1, v4(1, 0, 0, 1), 1), 0);
    auth.on_connected(handle(2, v4(1, 0, 0, 2), 1), 0);
    let stranger = handle(3, v4(1, 0, 0, 3), 1);
    assert_eq!(delivered_to(&auth.handle_event(message(stranger, b"m"), 0)), vec![1, 2]);
}

#[test]
fn every_other_recipient_listed_despite_failures() {
    let mut auth = Authority::new();
    let hs: Vec<Handle> = (0..5u8).map(|i| handle(i as u64, v4(3, 3, 3, i), 9)).collect();
    for h in &hs {
        auth.on_connected(*h, 0);
    }
    let act = auth.handle_event(message(hs[0], b"z"), 0);
    assert_eq!(delivered_to(&act), vec![1, 2, 3, 4]);
    let again = auth.handle_event(message(hs[0], b"z"), 0);
    assert_eq!(delivered_to(&again), vec![1, 2, 3, 4]);
}

#[test]
fn disconnect_of_unknown_is_noop() {
    let mut auth = Authority::new();
    let a = handle(1, v4(4, 4, 4, 4), 1);
    let b = handle(2, v4(4, 4, 4, 5), 1);
    auth.on_connected(a, 0);
    auth.on_disconnected(b);
    assert_eq!(delivered_to(&auth.handle_event(message(b, b"q"), 0)), vec![1]);
}

#[test]
fn reader_reports_data_and_goes_on() {
    let h = handle(1, v4(1, 2, 3, 4), 5);
    let buf = vec![7u8, 8, 9, 10];
    let (ev, more) = after_read(h, &buf, Some(3));
    assert!(more);
    match ev {
        Event::MessageReceived { handle: got, bytes } => {
            assert_eq!(got, h);
            assert_eq!(bytes, vec![7, 8, 9]);
        }
        other => panic!("expected a message, got {:?}", other),
    }
}

#[test]
fn reader_stops_on_empty_or_failed_read() {
    let h = handle(1, v4(1, 2, 3, 4), 5);
    let buf = vec![0u8; 4];
    let (ev, more) = after_read(h, &buf, Some(0));
    assert!(!more);
    assert!(matches!(ev, Event::Disconnected { handle: got } if got == h));
    let (ev, more) = after_read(h, &buf, None);
    assert!(!more);
    assert!(matches!(ev, Event::Disconnected { handle: got } if got == h));
}
