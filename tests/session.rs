use rc_networking::{Ping, Pong, Session, UserId, MAX_PING_TIMEOUT, PING_INTERVAL};

#[test]
fn constants() {
    assert_eq!(PING_INTERVAL, 15);
    assert_eq!(MAX_PING_TIMEOUT, 10);
}

#[test]
fn new_session_starts_clean() {
    let s = Session::new(UserId(3), 40);
    assert_eq!(s.id, UserId(3));
    assert!(!s.authorized && !s.disconnected);
    assert_eq!(s.last_ping, Ping { code: 40 });
    assert_eq!(s.last_pong, Pong { code: 40 });
    assert_eq!(s.reader.pending_len(), 0);
}

#[test]
fn silent_peer_is_evicted_26_seconds_after_first_ping() {
    let mut s = Session::new(UserId(1), 0);
    let mut first_ping = None;
    for now in 0..=100u64 {
        if let Some(p) = s.check_keepalive(now) {
            assert!(first_ping.is_none(), "a second ping went out unanswered at {}", now);
            first_ping = Some(p.code);
        }
        if s.disconnected {
            break;
        }
    }
    let first = first_ping.unwrap();
    assert_eq!(first, 16);
    assert!(s.disconnected);
    assert!(s.check_keepalive(first + 26).is_none());
    assert!(s.disconnected);
}

#[test]
fn exact_eviction_boundary() {
    let mut s = Session::new(UserId(1), 100);
    s.check_keepalive(125);
    assert!(!s.disconnected);
    s.check_keepalive(126);
    assert!(s.disconnected);
}

#[test]
fn responsive_peer_is_never_evicted() {
    for delay in 0..=5u64 {
        let mut s = Session::new(UserId(1), 0);
        let mut outstanding: Option<u64> = None;
        let mut sent = 0;
        for now in 1..=10_000u64 {
            if let Some(p) = s.check_keepalive(now) {
                outstanding = Some(p.code);
                sent += 1;
            }
            assert!(!s.disconnected, "evicted at {} with delay {}", now, delay);
            if let Some(code) = outstanding {
                if now >= code + delay {
                    s.receive_pong(Pong { code });
                    outstanding = None;
                }
            }
        }
        assert!(sent > 500);
    }
}
