use rc_networking::{
    decode, encode, frame_message, BlockUpdate, ChatSent, Disconnect, EntityId, EntityMoved,
    EntityRotated, NetworkError, PartialChunkUpdate, Ping, PlayerJoin, PlayerLeave, PlayerMove,
    PlayerRotate, Pong, Protocol, SpawnEntity, UserAuthenticate, UserId, CHUNK_VOLUME,
};

fn round_trip(m: Protocol) -> Protocol {
    assert!(m.is_well_formed());
    let bytes = encode(&m);
    decode(&bytes).expect("a well-formed message decodes")
}

fn same(a: &Protocol, b: &Protocol) -> bool {
    format!("{:?}", a) == format!("{:?}", b)
}

#[test]
fn ping_encodes_to_tag_then_code() {
    let bytes = encode(&Protocol::Ping(Ping { code: 7 }));
    assert_eq!(bytes, vec![0, 0, 0, 0, 7, 0, 0, 0, 0, 0, 0, 0]);
}

#[test]
fn player_move_round_trips_bit_for_bit() {
    let m = PlayerMove { x: 1.5f32.to_bits(), y: (-0.0f32).to_bits(), z: f32::NAN.to_bits() };
    let bytes = encode(&Protocol::PlayerMove(m));
    assert_eq!(bytes.len(), 16);
    match decode(&bytes) {
        Ok(Protocol::PlayerMove(back)) => {
            assert_eq!(back, m);
            assert_eq!(f32::from_bits(back.x), 1.5);
            assert!(f32::from_bits(back.y).is_sign_negative());
            assert!(f32::from_bits(back.z).is_nan());
        }
        other => panic!("unexpected {:?}", other),
    }
}

#[test]
fn every_variant_round_trips() {
    let mut chunk = vec![0u32; CHUNK_VOLUME];
    chunk[0] = 1;
    chunk[CHUNK_VOLUME - 1] = 0xdead_beef;
    let all = vec![
        Protocol::Ping(Ping { code: u64::MAX }),
        Protocol::Pong(Pong { code: 3 }),
        Protocol::PlayerJoin(PlayerJoin { entity: EntityId(9), username: "h\u{e9}llo \u{1f600}".to_string() }),
        Protocol::PlayerMove(PlayerMove { x: 1, y: 2, z: 3 }),
        Protocol::EntityMoved(EntityMoved { entity: EntityId(4), x: 5, y: 6, z: 7 }),
        Protocol::PlayerRotate(PlayerRotate { x: 1, y: 2, z: 3, w: 4 }),
        Protocol::EntityRotated(EntityRotated { entity: EntityId(8), x: 1, y: 2, z: 3, w: 4 }),
        Protocol::PlayerLeave(PlayerLeave { entity: EntityId(11) }),
        Protocol::BlockUpdate(BlockUpdate { id: 2, x: -1, y: i64::MIN, z: i64::MAX }),
        Protocol::ChatSent(ChatSent { message: String::new() }),
        Protocol::PartialChunkUpdate(PartialChunkUpdate { x: -3, y: 0, z: i32::MAX, data: chunk }),
        Protocol::UserAuthenticate(UserAuthenticate { user_id: UserId(1), username: "steve".to_string() }),
        Protocol::SpawnEntity(SpawnEntity { entity: EntityId(12), x: 0, y: 0, z: 0 }),
        Protocol::Disconnect(Disconnect { user: UserId(2) }),
    ];
    for m in all {
        let back = round_trip(m.clone());
        assert!(same(&m, &back), "{:?} came back as {:?}", m, back);
    }
}

#[test]
fn encoding_is_deterministic() {
    let m = Protocol::ChatSent(ChatSent { message: "hi".to_string() });
    assert_eq!(encode(&m), encode(&m.clone()));
    assert_eq!(encode(&m), vec![9, 0, 0, 0, 2, 0, 0, 0, 0, 0, 0, 0, b'h', b'i']);
}

#[test]
fn text_is_utf8_bytes_behind_a_count() {
    let m = Protocol::PlayerJoin(PlayerJoin { entity: EntityId(1), username: "\u{e9}".to_string() });
    let bytes = encode(&m);
    assert_eq!(&bytes[12..], &[2, 0, 0, 0, 0, 0, 0, 0, 0xc3, 0xa9]);
}

#[test]
fn signed_fields_travel_as_twos_complement() {
    let m = Protocol::BlockUpdate(BlockUpdate { id: 1, x: -1, y: 0, z: 1 });
    let bytes = encode(&m);
    assert_eq!(&bytes[8..16], &[0xff; 8]);
}

#[test]
fn unknown_tag_is_malformed() {
    assert!(matches!(decode(&[99, 0, 0, 0]), Err(NetworkError::MalformedPayload)));
    assert!(matches!(decode(&[14, 0, 0, 0, 0, 0, 0, 0, 0, 0, 0, 0]), Err(NetworkError::MalformedPayload)));
}

#[test]
fn truncated_payload_is_malformed() {
    let bytes = encode(&Protocol::Pong(Pong { code: 1 }));
    for cut in 0..bytes.len() {
        assert!(matches!(decode(&bytes[..cut]), Err(NetworkError::MalformedPayload)), "cut at {}", cut);
    }
}

#[test]
fn trailing_bytes_are_malformed() {
    let mut bytes = encode(&Protocol::Pong(Pong { code: 1 }));
    bytes.push(0);
    assert!(matches!(decode(&bytes), Err(NetworkError::MalformedPayload)));
}

#[test]
fn invalid_utf8_is_malformed() {
    let mut bytes = vec![9, 0, 0, 0, 1, 0, 0, 0, 0, 0, 0, 0];
    bytes.push(0xff);
    assert!(matches!(decode(&bytes), Err(NetworkError::MalformedPayload)));
}

#[test]
fn text_longer_than_payload_is_malformed() {
    let bytes = vec![9, 0, 0, 0, 5, 0, 0, 0, 0, 0, 0, 0, b'a'];
    assert!(matches!(decode(&bytes), Err(NetworkError::MalformedPayload)));
}

#[test]
fn short_chunk_is_not_well_formed() {
    let m = Protocol::PartialChunkUpdate(PartialChunkUpdate { x: 0, y: 0, z: 0, data: vec![1, 2, 3] });
    assert!(!m.is_well_formed());
}

#[test]
fn frame_message_prefixes_big_endian_length() {
    let f = frame_message(&Protocol::Ping(Ping { code: 1 })).unwrap();
    assert_eq!(&f[..4], &[0, 0, 0, 12]);
    assert_eq!(&f[4..], encode(&Protocol::Ping(Ping { code: 1 })).as_slice());
}
