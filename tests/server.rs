use rc_networking::{
    frame_message, AuthorizationEvent, ChatSent, ConnectionEvent, NetworkError, Ping, PlayerMove,
    Pong, Protocol, ReadAction, ReadEvent, TransportSystem, UserAuthenticate, UserId,
};

fn frame(m: Protocol) -> Vec<u8> {
    frame_message(&m).unwrap()
}

fn chat(text: &str) -> Protocol {
    Protocol::ChatSent(ChatSent { message: text.to_string() })
}

#[test]
fn ids_are_distinct_and_increasing() {
    let mut sys = TransportSystem::new();
    let mut ids = Vec::new();
    for _ in 0..5 {
        ids.push(sys.accept(100).unwrap());
    }
    assert_eq!(ids, vec![UserId(1), UserId(2), UserId(3), UserId(4), UserId(5)]);
    assert_eq!(sys.total_connections, 5);
    assert_eq!(
        sys.take_events(),
        (1..=5).map(|i| ConnectionEvent::Established(UserId(i))).collect::<Vec<_>>()
    );
}

#[test]
fn ids_are_not_reused_after_disconnect() {
    let mut sys = TransportSystem::new();
    let a = sys.accept(0).unwrap();
    assert_eq!(sys.on_read(a, ReadEvent::Closed), ReadAction::Close);
    let b = sys.accept(0).unwrap();
    assert_eq!(b, UserId(2));
}

#[test]
fn end_to_end_player_move() {
    let mut sys = TransportSystem::new();
    let id = sys.accept(0).unwrap();
    assert_eq!(id, UserId(1));
    let auth = frame(Protocol::UserAuthenticate(UserAuthenticate {
        user_id: UserId(0),
        username: "alex".to_string(),
    }));
    let (x, y, z) = (12.25f32, -0.5f32, 1.0e-40f32);
    let mv = frame(Protocol::PlayerMove(PlayerMove { x: x.to_bits(), y: y.to_bits(), z: z.to_bits() }));
    assert_eq!(sys.on_read(id, ReadEvent::Data(auth)), ReadAction::KeepReading);
    assert!(sys.authorize(id));
    assert!(sys.sessions[0].authorized);
    assert_eq!(sys.on_read(id, ReadEvent::Data(mv)), ReadAction::KeepReading);
    assert_eq!(sys.on_read(id, ReadEvent::WouldBlock), ReadAction::StopReading);
    let inbound = sys.take_inbound();
    let moves: Vec<_> = inbound
        .iter()
        .filter_map(|p| match &p.0 {
            Protocol::PlayerMove(m) => Some((*m, p.1)),
            _ => None,
        })
        .collect();
    assert_eq!(moves.len(), 1);
    let (m, from) = moves[0];
    assert_eq!(from, UserId(1));
    assert_eq!(f32::from_bits(m.x).to_bits(), x.to_bits());
    assert_eq!(f32::from_bits(m.y).to_bits(), y.to_bits());
    assert_eq!(f32::from_bits(m.z).to_bits(), z.to_bits());
    assert!(sys.take_inbound().is_empty());
}

#[test]
fn decode_failure_on_one_connection_spares_the_other() {
    let mut sys = TransportSystem::new();
    let a = sys.accept(0).unwrap();
    let b = sys.accept(0).unwrap();
    let mut both = frame(chat("b1"));
    both.extend(frame(chat("b2")));
    assert_eq!(sys.on_read(b, ReadEvent::Data(both)), ReadAction::KeepReading);
    let mut bad = frame(chat("a1"));
    bad.extend_from_slice(&[0, 0, 0, 4, 200, 0, 0, 0]);
    assert_eq!(sys.on_read(a, ReadEvent::Data(bad)), ReadAction::Close);
    assert_eq!(sys.on_read(b, ReadEvent::Data(frame(chat("b3")))), ReadAction::KeepReading);
    let got: Vec<String> = sys
        .take_inbound()
        .iter()
        .map(|p| match &p.0 {
            Protocol::ChatSent(c) => format!("{}:{}", p.1 .0, c.message),
            other => panic!("unexpected {:?}", other),
        })
        .collect();
    assert_eq!(got, vec!["2:b1", "2:b2", "1:a1", "2:b3"]);
    assert_eq!(sys.sessions.len(), 1);
    assert_eq!(sys.sessions[0].id, b);
    let events = sys.take_events();
    assert_eq!(events.last(), Some(&ConnectionEvent::Lost(a, NetworkError::MalformedPayload)));
}

#[test]
fn stream_end_mid_frame_is_connection_closed() {
    let mut sys = TransportSystem::new();
    let a = sys.accept(0).unwrap();
    assert_eq!(sys.on_read(a, ReadEvent::Data(vec![0, 0, 0, 50, 1, 2])), ReadAction::KeepReading);
    assert_eq!(sys.sessions[0].reader.pending_len(), 6);
    assert_eq!(sys.on_read(a, ReadEvent::Closed), ReadAction::Close);
    assert!(sys.take_inbound().is_empty());
    assert!(sys.sessions.is_empty());
    assert_eq!(sys.take_events().last(), Some(&ConnectionEvent::Lost(a, NetworkError::ConnectionClosed)));
}

#[test]
fn interrupted_is_retried_and_unknown_ids_are_ignored() {
    let mut sys = TransportSystem::new();
    let a = sys.accept(0).unwrap();
    assert_eq!(sys.on_read(a, ReadEvent::Interrupted), ReadAction::KeepReading);
    assert_eq!(sys.on_read(UserId(77), ReadEvent::Data(vec![1, 2, 3])), ReadAction::StopReading);
    assert_eq!(sys.sessions.len(), 1);
    assert!(!sys.authorize(UserId(77)));
}

#[test]
fn pong_updates_the_session() {
    let mut sys = TransportSystem::new();
    let a = sys.accept(10).unwrap();
    let pongs = [frame(Protocol::Pong(Pong { code: 20 })), frame(Protocol::Pong(Pong { code: 30 }))].concat();
    sys.on_read(a, ReadEvent::Data(pongs));
    assert_eq!(sys.sessions[0].last_pong, Pong { code: 30 });
    assert_eq!(sys.take_inbound().len(), 2);
}

#[test]
fn keepalive_pings_and_evicts() {
    let mut sys = TransportSystem::new();
    let a = sys.accept(0).unwrap();
    let b = sys.accept(0).unwrap();
    assert!(sys.check_connections(15).is_empty());
    let pings = sys.check_connections(16);
    assert_eq!(pings.len(), 2);
    assert_eq!(pings[0].1, a);
    assert_eq!(pings[1].1, b);
    assert!(matches!(pings[0].0, Protocol::Ping(Ping { code: 16 })));
    sys.on_read(b, ReadEvent::Data(frame(Protocol::Pong(Pong { code: 16 }))));
    assert!(sys.check_connections(20).is_empty());
    assert!(sys.remove_disconnected().is_empty());
    sys.check_connections(26);
    assert_eq!(sys.remove_disconnected(), vec![a]);
    assert_eq!(sys.sessions.len(), 1);
    assert_eq!(sys.sessions[0].id, b);
    let events = sys.take_events();
    assert_eq!(events.last(), Some(&ConnectionEvent::Lost(a, NetworkError::KeepaliveTimeout)));
}

#[test]
fn authorization_event_names_client() {
    assert_eq!(AuthorizationEvent::new(UserId(4)).client, UserId(4));
}
