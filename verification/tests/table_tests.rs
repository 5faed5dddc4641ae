use ws_relay::table::RendezvousTable;
use ws_relay::table::ResolveOutcome;

#[test]
fn register_then_resolve_delivers_connection() {
    let mut table: RendezvousTable<u32> = RendezvousTable::new();
    let mut rx = table.register("abc123".to_string()).ok().expect("token was free");
    match table.resolve(&"abc123".to_string(), 42u32) {
        ResolveOutcome::Delivered => {}
        _ => panic!("a host was waiting, the connection must be delivered"),
    }
    assert_eq!(rx.try_recv(), Ok(42u32));
}

#[test]
fn second_register_for_same_token_is_rejected() {
    let mut table: RendezvousTable<u32> = RendezvousTable::new();
    let first = table.register("abc123".to_string());
    let second = table.register("abc123".to_string());
    assert!(first.is_ok());
    assert!(second.is_err());
}

#[test]
fn resolve_without_host_returns_not_found_immediately() {
    let mut table: RendezvousTable<u32> = RendezvousTable::new();
    match table.resolve(&"abc123".to_string(), 7u32) {
        ResolveOutcome::NotFound(conn) => assert_eq!(conn, 7u32),
        _ => panic!("no host was waiting, the connection must come back"),
    }
}

#[test]
fn both_clients_get_not_found_without_a_host() {
    let mut table: RendezvousTable<u32> = RendezvousTable::new();
    assert!(matches!(table.resolve(&"t".to_string(), 1u32), ResolveOutcome::NotFound(1)));
    assert!(matches!(table.resolve(&"t".to_string(), 2u32), ResolveOutcome::NotFound(2)));
}

#[test]
fn abandon_releases_the_token_for_reuse() {
    let mut table: RendezvousTable<u32> = RendezvousTable::new();
    let rx = table.register("abc123".to_string()).ok().expect("token was free");
    drop(rx);
    assert!(table.register("abc123".to_string()).is_err());
    assert!(table.abandon(&"abc123".to_string()));
    let again = table.register("abc123".to_string());
    assert!(again.is_ok());
}

#[test]
fn abandon_drops_the_wait_handle_side() {
    let mut table: RendezvousTable<u32> = RendezvousTable::new();
    let mut rx = table.register("abc123".to_string()).ok().expect("token was free");
    assert!(table.abandon(&"abc123".to_string()));
    assert!(rx.try_recv().is_err());
}

#[test]
fn abandon_of_a_free_token_reports_nothing_to_release() {
    let mut table: RendezvousTable<u32> = RendezvousTable::new();
    assert!(!table.abandon(&"abc123".to_string()));
}

#[test]
fn tokens_are_independent_sessions() {
    let mut table: RendezvousTable<u32> = RendezvousTable::new();
    let mut rx_a = table.register("one".to_string()).ok().expect("token was free");
    let mut rx_b = table.register("two".to_string()).ok().expect("token was free");
    match table.resolve(&"two".to_string(), 22u32) {
        ResolveOutcome::Delivered => {}
        _ => panic!("host for token two was waiting"),
    }
    assert_eq!(rx_b.try_recv(), Ok(22u32));
    match table.resolve(&"one".to_string(), 11u32) {
        ResolveOutcome::Delivered => {}
        _ => panic!("host for token one was waiting"),
    }
    assert_eq!(rx_a.try_recv(), Ok(11u32));
}

#[test]
fn resolve_after_delivery_finds_nothing() {
    let mut table: RendezvousTable<u32> = RendezvousTable::new();
    let _rx = table.register("abc123".to_string()).ok().expect("token was free");
    assert!(matches!(table.resolve(&"abc123".to_string(), 1u32), ResolveOutcome::Delivered));
    assert!(matches!(table.resolve(&"abc123".to_string(), 2u32), ResolveOutcome::NotFound(2)));
}

#[test]
fn resolve_for_a_dropped_wait_handle_reports_the_host_gone() {
    let mut table: RendezvousTable<u32> = RendezvousTable::new();
    let rx = table.register("abc123".to_string()).ok().expect("token was free");
    drop(rx);
    match table.resolve(&"abc123".to_string(), 9u32) {
        ResolveOutcome::HostGone(conn) => assert_eq!(conn, 9u32),
        _ => panic!("the wait handle was dropped, delivery must fail"),
    }
    let again = table.register("abc123".to_string());
    assert!(again.is_ok());
}
