use ws_relay::forwarder::ForwardAction;
use ws_relay::forwarder::Forwarder;
use ws_relay::forwarder::Leg;
use ws_relay::forwarder::LegEvent;
use ws_relay::forwarder::run_relay;
use ws_relay::handler::handle_path;
use ws_relay::handler::CloseReason;
use ws_relay::handler::HandlerAction;
use ws_relay::table::RendezvousTable;

fn expect_deliver(act: ForwardAction, frame: &[u8]) {
    match act {
        ForwardAction::Deliver(f) => assert_eq!(f, frame.to_vec()),
        ForwardAction::Stop => panic!("expected the frame to be delivered"),
    }
}

#[test]
fn frames_are_forwarded_in_order_unchanged() {
    let events = vec![
        (Leg::A, LegEvent::Frame(b"m1".to_vec())),
        (Leg::A, LegEvent::Frame(b"m2".to_vec())),
        (Leg::B, LegEvent::Frame(b"r1".to_vec())),
        (Leg::A, LegEvent::Frame(b"m3".to_vec())),
    ];
    let (to_a, to_b) = run_relay(events);
    assert_eq!(to_b, vec![b"m1".to_vec(), b"m2".to_vec(), b"m3".to_vec()]);
    assert_eq!(to_a, vec![b"r1".to_vec()]);
}

#[test]
fn a_close_on_either_leg_stops_both_directions() {
    let events = vec![
        (Leg::A, LegEvent::Frame(b"m1".to_vec())),
        (Leg::B, LegEvent::Closed),
        (Leg::A, LegEvent::Frame(b"m2".to_vec())),
        (Leg::B, LegEvent::Frame(b"r1".to_vec())),
    ];
    let (to_a, to_b) = run_relay(events);
    assert_eq!(to_b, vec![b"m1".to_vec()]);
    assert_eq!(to_a, Vec::<Vec<u8>>::new());
}

#[test]
fn a_send_failure_stops_the_session() {
    let mut fwd = Forwarder::new();
    expect_deliver(fwd.on_event(Leg::A, LegEvent::Frame(b"m1".to_vec())), b"m1");
    assert!(matches!(fwd.on_event(Leg::B, LegEvent::Failed), ForwardAction::Stop));
    assert!(matches!(fwd.on_event(Leg::A, LegEvent::Frame(b"m2".to_vec())), ForwardAction::Stop));
    assert!(matches!(fwd.on_event(Leg::B, LegEvent::Frame(b"r1".to_vec())), ForwardAction::Stop));
}

#[test]
fn host_and_client_pair_and_exchange_messages() {
    // Host opens /host/abc123 and waits.
    let mut table: RendezvousTable<u32> = RendezvousTable::new();
    let host_conn = 1u32;
    let (kept_host_conn, mut rx, token) = match handle_path(&mut table, "/host/abc123", host_conn) {
        HandlerAction::Wait(c, rx, token) => (c, rx, token),
        _ => panic!("the host must be told to wait"),
    };
    assert_eq!(kept_host_conn, 1u32);
    assert_eq!(token, "abc123");

    // Client opens /client/abc123; the relay pairs them.
    let client_conn = 2u32;
    match handle_path(&mut table, "/client/abc123", client_conn) {
        HandlerAction::HandedOff => {}
        _ => panic!("the client must be handed off to the waiting host"),
    }
    let partner = rx.try_recv().expect("the partner connection was delivered");
    assert_eq!(partner, 2u32);

    // Host sends "ping"; the client receives "ping".
    let mut fwd = Forwarder::new();
    expect_deliver(fwd.on_event(Leg::A, LegEvent::Frame(b"ping".to_vec())), b"ping");
    // Client sends "pong"; the host receives "pong".
    expect_deliver(fwd.on_event(Leg::B, LegEvent::Frame(b"pong".to_vec())), b"pong");
    // Client disconnects; the relay closes the host's connection too.
    assert!(matches!(fwd.on_event(Leg::B, LegEvent::Closed), ForwardAction::Stop));
    assert!(matches!(fwd.on_event(Leg::A, LegEvent::Frame(b"late".to_vec())), ForwardAction::Stop));
}

#[test]
fn second_host_for_the_same_token_is_closed_immediately() {
    // Two hosts open /host/abc123 back-to-back: the first wins, the second is
    // closed, and no pairing is recorded against the first's partner slot.
    let mut table: RendezvousTable<u32> = RendezvousTable::new();
    let (rx1, _token) = match handle_path(&mut table, "/host/abc123", 1u32) {
        HandlerAction::Wait(_, rx, token) => (rx, token),
        _ => panic!("the first host must be told to wait"),
    };
    match handle_path(&mut table, "/host/abc123", 2u32) {
        HandlerAction::Close(CloseReason::DuplicateHost, conn) => assert_eq!(conn, 2u32),
        _ => panic!("the second host must be refused"),
    }
    // The first host is still unpaired and still the one a client reaches.
    let mut rx1 = rx1;
    assert!(rx1.try_recv().is_err());
    match handle_path(&mut table, "/client/abc123", 3u32) {
        HandlerAction::HandedOff => {}
        _ => panic!("the client must reach the first host"),
    }
    assert_eq!(rx1.try_recv(), Ok(3u32));
}

#[test]
fn malformed_and_unknown_paths_close_the_connection() {
    let mut table: RendezvousTable<u32> = RendezvousTable::new();
    match handle_path(&mut table, "/host", 1u32) {
        HandlerAction::Close(CloseReason::MalformedPath, conn) => assert_eq!(conn, 1u32),
        _ => panic!("a one-segment path is a protocol violation"),
    }
    match handle_path(&mut table, "/admin/abc123", 2u32) {
        HandlerAction::Close(CloseReason::UnknownRole, conn) => assert_eq!(conn, 2u32),
        _ => panic!("an unknown role is a protocol violation"),
    }
    match handle_path(&mut table, "/client/abc123", 3u32) {
        HandlerAction::Close(CloseReason::NoHostWaiting, conn) => assert_eq!(conn, 3u32),
        _ => panic!("a client with no waiting host must be closed at once"),
    }
}

#[test]
fn abandoned_wait_frees_the_token_for_a_new_host() {
    let mut table: RendezvousTable<u32> = RendezvousTable::new();
    let token = match handle_path(&mut table, "/host/abc123", 1u32) {
        HandlerAction::Wait(_, rx, token) => {
            // The host's own wait ends without a partner.
            drop(rx);
            token
        }
        _ => panic!("the host must be told to wait"),
    };
    assert!(table.abandon(&token));
    match handle_path(&mut table, "/host/abc123", 4u32) {
        HandlerAction::Wait(c, _, _) => assert_eq!(c, 4u32),
        _ => panic!("the abandoned token must be reusable"),
    }
}
