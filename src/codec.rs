use vstd::prelude::*;

use crate::error::NetworkError;
use crate::ids::{EntityId, UserId};
use crate::protocol::{
    BlockUpdate, ChatSent, Disconnect, EntityMoved, EntityRotated, Message, PartialChunkUpdate,
    Ping, PlayerJoin, PlayerLeave, PlayerMove, PlayerRotate, Pong, Protocol, SpawnEntity,
    UserAuthenticate, CHUNK_VOLUME,
};
use crate::framing::{frame, write_frame};
use crate::wire::{
    enc_text, enc_u32, enc_u64, enc_words, get_text, get_u32, get_u64, get_words,
    lemma_take_text_inv, lemma_take_u32_inv, lemma_take_u64_inv, lemma_take_words_inv, lemma_text,
    lemma_u32, lemma_u64, lemma_words, put_text, put_u32, put_u64, put_words, take_text, take_u32,
    take_u64, take_words,
};

verus! {

// A payload is a u32 tag naming the variant (its place in `Protocol`,
// counting from 0) followed by the variant's fields in declaration order.
pub open spec fn encode_message(m: Message) -> Seq<u8> {
    match m {
        Message::Ping(p) => enc_u32(0) + enc_u64(p.code),
        Message::Pong(p) => enc_u32(1) + enc_u64(p.code),
        Message::PlayerJoin { entity, username } => enc_u32(2) + enc_u64(entity.0) + enc_text(
            username,
        ),
        Message::PlayerMove(p) => enc_u32(3) + enc_words(seq![p.x, p.y, p.z]),
        Message::EntityMoved(p) => enc_u32(4) + enc_u64(p.entity.0) + enc_words(
            seq![p.x, p.y, p.z],
        ),
        Message::PlayerRotate(p) => enc_u32(5) + enc_words(seq![p.x, p.y, p.z, p.w]),
        Message::EntityRotated(p) => enc_u32(6) + enc_u64(p.entity.0) + enc_words(
            seq![p.x, p.y, p.z, p.w],
        ),
        Message::PlayerLeave(p) => enc_u32(7) + enc_u64(p.entity.0),
        Message::BlockUpdate(p) => enc_u32(8) + enc_u32(p.id) + enc_u64(p.x as u64) + enc_u64(
            p.y as u64,
        ) + enc_u64(p.z as u64),
        Message::ChatSent { message } => enc_u32(9) + enc_text(message),
        Message::PartialChunkUpdate { x, y, z, data } => enc_u32(10) + enc_words(
            seq![x as u32, y as u32, z as u32],
        ) + enc_words(data),
        Message::UserAuthenticate { user_id, username } => enc_u32(11) + enc_u64(user_id.0)
            + enc_text(username),
        Message::SpawnEntity(p) => enc_u32(12) + enc_u64(p.entity.0) + enc_words(
            seq![p.x, p.y, p.z],
        ),
        Message::Disconnect(p) => enc_u32(13) + enc_u64(p.user.0),
    }
}

/// Reads the fields of the variant with tag `tag` from the front of `s`.
pub open spec fn take_body(tag: u32, s: Seq<u8>) -> Option<(Message, Seq<u8>)> {
    if tag == 0 || tag == 1 || tag == 7 || tag == 13 {
        match take_u64(s) {
            Some((v, r)) => Some(
                (
                    if tag == 0 {
                        Message::Ping(Ping { code: v })
                    } else if tag == 1 {
                        Message::Pong(Pong { code: v })
                    } else if tag == 7 {
                        Message::PlayerLeave(PlayerLeave { entity: EntityId(v) })
                    } else {
                        Message::Disconnect(Disconnect { user: UserId(v) })
                    },
                    r,
                ),
            ),
            None => None,
        }
    } else if tag == 2 || tag == 11 {
        match take_u64(s) {
            Some((v, r)) => match take_text(r) {
                Some((t, r2)) => Some(
                    (
                        if tag == 2 {
                            Message::PlayerJoin { entity: EntityId(v), username: t }
                        } else {
                            Message::UserAuthenticate { user_id: UserId(v), username: t }
                        },
                        r2,
                    ),
                ),
                None => None,
            },
            None => None,
        }
    } else if tag == 3 || tag == 5 {
        match take_words(s, if tag == 3 { 3 } else { 4 }) {
            Some((w, r)) => Some(
                (
                    if tag == 3 {
                        Message::PlayerMove(PlayerMove { x: w[0], y: w[1], z: w[2] })
                    } else {
                        Message::PlayerRotate(PlayerRotate { x: w[0], y: w[1], z: w[2], w: w[3] })
                    },
                    r,
                ),
            ),
            None => None,
        }
    } else if tag == 4 || tag == 6 || tag == 12 {
        match take_u64(s) {
            Some((e, r)) => match take_words(r, if tag == 6 { 4 } else { 3 }) {
                Some((w, r2)) => Some(
                    (
                        if tag == 4 {
                            Message::EntityMoved(
                                EntityMoved { entity: EntityId(e), x: w[0], y: w[1], z: w[2] },
                            )
                        } else if tag == 6 {
                            Message::EntityRotated(
                                EntityRotated {
                                    entity: EntityId(e),
                                    x: w[0],
                                    y: w[1],
                                    z: w[2],
                                    w: w[3],
                                },
                            )
                        } else {
                            Message::SpawnEntity(
                                SpawnEntity { entity: EntityId(e), x: w[0], y: w[1], z: w[2] },
                            )
                        },
                        r2,
                    ),
                ),
                None => None,
            },
            None => None,
        }
    } else if tag == 8 {
        match take_u32(s) {
            Some((id, r)) => match take_u64(r) {
                Some((x, r2)) => match take_u64(r2) {
                    Some((y, r3)) => match take_u64(r3) {
                        Some((z, r4)) => Some(
                            (
                                Message::BlockUpdate(
                                    BlockUpdate { id, x: x as i64, y: y as i64, z: z as i64 },
                                ),
                                r4,
                            ),
                        ),
                        None => None,
                    },
                    None => None,
                },
                None => None,
            },
            None => None,
        }
    } else if tag == 9 {
        match take_text(s) {
            Some((t, r)) => Some((Message::ChatSent { message: t }, r)),
            None => None,
        }
    } else if tag == 10 {
        match take_words(s, 3) {
            Some((c, r)) => match take_words(r, CHUNK_VOLUME as nat) {
                Some((d, r2)) => Some(
                    (
                        Message::PartialChunkUpdate {
                            x: c[0] as i32,
                            y: c[1] as i32,
                            z: c[2] as i32,
                            data: d,
                        },
                        r2,
                    ),
                ),
                None => None,
            },
            None => None,
        }
    } else {
        None
    }
}

/// The message that `s` encodes, if any: a known tag, then every field of
/// that variant, and no byte left over.
pub open spec fn decode_message(s: Seq<u8>) -> Option<Message> {
    match take_u32(s) {
        Some((tag, r)) => match take_body(tag, r) {
            Some((m, rest)) => if rest.len() == 0 {
                Some(m)
            } else {
                None
            },
            None => None,
        },
        None => None,
    }
}

/// Encodes a message as a payload. Encoding is total on well-formed
/// messages and deterministic: the bytes depend on the message's value alone.
pub fn encode(m: &Protocol) -> (r: Vec<u8>)
    requires
        m@.wf(),
    ensures
        r@ == encode_message(m@),
{
    let mut out: Vec<u8> = Vec::new();
    match m {
        Protocol::Ping(p) => {
            put_u32(&mut out, 0);
            put_u64(&mut out, p.code);
        },
        Protocol::Pong(p) => {
            put_u32(&mut out, 1);
            put_u64(&mut out, p.code);
        },
        Protocol::PlayerJoin(p) => {
            put_u32(&mut out, 2);
            put_u64(&mut out, p.entity.0);
            put_text(&mut out, &p.username);
        },
        Protocol::PlayerMove(p) => {
            put_u32(&mut out, 3);
            put_words(&mut out, &vec![p.x, p.y, p.z]);
        },
        Protocol::EntityMoved(p) => {
            put_u32(&mut out, 4);
            put_u64(&mut out, p.entity.0);
            put_words(&mut out, &vec![p.x, p.y, p.z]);
        },
        Protocol::PlayerRotate(p) => {
            put_u32(&mut out, 5);
            put_words(&mut out, &vec![p.x, p.y, p.z, p.w]);
        },
        Protocol::EntityRotated(p) => {
            put_u32(&mut out, 6);
            put_u64(&mut out, p.entity.0);
            put_words(&mut out, &vec![p.x, p.y, p.z, p.w]);
        },
        Protocol::PlayerLeave(p) => {
            put_u32(&mut out, 7);
            put_u64(&mut out, p.entity.0);
        },
        Protocol::BlockUpdate(p) => {
            put_u32(&mut out, 8);
            put_u32(&mut out, p.id);
            put_u64(&mut out, p.x as u64);
            put_u64(&mut out, p.y as u64);
            put_u64(&mut out, p.z as u64);
        },
        Protocol::ChatSent(p) => {
            put_u32(&mut out, 9);
            put_text(&mut out, &p.message);
        },
        Protocol::PartialChunkUpdate(p) => {
            put_u32(&mut out, 10);
            put_words(&mut out, &vec![p.x as u32, p.y as u32, p.z as u32]);
            put_words(&mut out, &p.data);
        },
        Protocol::UserAuthenticate(p) => {
            put_u32(&mut out, 11);
            put_u64(&mut out, p.user_id.0);
            put_text(&mut out, &p.username);
        },
        Protocol::SpawnEntity(p) => {
            put_u32(&mut out, 12);
            put_u64(&mut out, p.entity.0);
            put_words(&mut out, &vec![p.x, p.y, p.z]);
        },
        Protocol::Disconnect(p) => {
            put_u32(&mut out, 13);
            put_u64(&mut out, p.user.0);
        },
    }
    proof {
        assert(out@ =~= encode_message(m@));
    }
    out
}

/// The frame that carries message `m`: its encoding behind the length
/// prefix. `None` when the encoding is longer than the prefix can count.
pub fn frame_message(m: &Protocol) -> (r: Option<Vec<u8>>)
    requires
        m@.wf(),
    ensures
        match r {
            Some(f) => encode_message(m@).len() <= u32::MAX && f@ == frame(encode_message(m@)),
            None => encode_message(m@).len() > u32::MAX,
        },
{
    let payload = encode(m);
    if payload.len() > u32::MAX as usize {
        return None;
    }
    Some(write_frame(payload.as_slice()))
}

/// Decodes a payload. Fails with `MalformedPayload` exactly when the bytes
/// are not the encoding of a message: truncated, an unknown tag, text that is
/// not UTF-8, or bytes left over.
pub fn decode(bytes: &[u8]) -> (r: Result<Protocol, NetworkError>)
    ensures
        match decode_message(bytes@) {
            Some(m) => r matches Ok(p) && p@ == m,
            None => r == Err::<Protocol, NetworkError>(NetworkError::MalformedPayload),
        },
{
    proof {
        assert(bytes@.skip(0) =~= bytes@);
    }
    let (tag, pos) = match get_u32(bytes, 0) {
        Some(x) => x,
        None => return Err(NetworkError::MalformedPayload),
    };
    let (m, end) = match read_body(bytes, tag, pos) {
        Some(x) => x,
        None => return Err(NetworkError::MalformedPayload),
    };
    if end != bytes.len() {
        return Err(NetworkError::MalformedPayload);
    }
    Ok(m)
}

fn read_body(s: &[u8], tag: u32, pos: usize) -> (r: Option<(Protocol, usize)>)
    requires
        pos <= s@.len(),
    ensures
        match take_body(tag, s@.skip(pos as int)) {
            None => r.is_none(),
            Some((m, rest)) => r matches Some((p, q)) && p@ == m && q <= s@.len()
                && s@.skip(q as int) == rest,
        },
{
    if tag == 0 || tag == 1 || tag == 7 || tag == 13 {
        let (v, q) = match get_u64(s, pos) {
            Some(x) => x,
            None => return None,
        };
        let m = if tag == 0 {
            Protocol::Ping(Ping { code: v })
        } else if tag == 1 {
            Protocol::Pong(Pong { code: v })
        } else if tag == 7 {
            Protocol::PlayerLeave(PlayerLeave { entity: EntityId(v) })
        } else {
            Protocol::Disconnect(Disconnect { user: UserId(v) })
        };
        Some((m, q))
    } else if tag == 2 || tag == 11 {
        let (v, q) = match get_u64(s, pos) {
            Some(x) => x,
            None => return None,
        };
        let (t, q2) = match get_text(s, q) {
            Some(x) => x,
            None => return None,
        };
        let m = if tag == 2 {
            Protocol::PlayerJoin(PlayerJoin { entity: EntityId(v), username: t })
        } else {
            Protocol::UserAuthenticate(UserAuthenticate { user_id: UserId(v), username: t })
        };
        Some((m, q2))
    } else if tag == 3 || tag == 5 {
        let n: usize = if tag == 3 {
            3
        } else {
            4
        };
        let (w, q) = match get_words(s, pos, n) {
            Some(x) => x,
            None => return None,
        };
        let m = if tag == 3 {
            Protocol::PlayerMove(PlayerMove { x: w[0], y: w[1], z: w[2] })
        } else {
            Protocol::PlayerRotate(PlayerRotate { x: w[0], y: w[1], z: w[2], w: w[3] })
        };
        Some((m, q))
    } else if tag == 4 || tag == 6 || tag == 12 {
        let (e, q) = match get_u64(s, pos) {
            Some(x) => x,
            None => return None,
        };
        let n: usize = if tag == 6 {
            4
        } else {
            3
        };
        let (w, q2) = match get_words(s, q, n) {
            Some(x) => x,
            None => return None,
        };
        let m = if tag == 4 {
            Protocol::EntityMoved(EntityMoved { entity: EntityId(e), x: w[0], y: w[1], z: w[2] })
        } else if tag == 6 {
            Protocol::EntityRotated(
                EntityRotated { entity: EntityId(e), x: w[0], y: w[1], z: w[2], w: w[3] },
            )
        } else {
            Protocol::SpawnEntity(SpawnEntity { entity: EntityId(e), x: w[0], y: w[1], z: w[2] })
        };
        Some((m, q2))
    } else if tag == 8 {
        let (id, q) = match get_u32(s, pos) {
            Some(x) => x,
            None => return None,
        };
        let (x, q2) = match get_u64(s, q) {
            Some(x) => x,
            None => return None,
        };
        let (y, q3) = match get_u64(s, q2) {
            Some(x) => x,
            None => return None,
        };
        let (z, q4) = match get_u64(s, q3) {
            Some(x) => x,
            None => return None,
        };
        Some((Protocol::BlockUpdate(BlockUpdate { id, x: x as i64, y: y as i64, z: z as i64 }), q4))
    } else if tag == 9 {
        let (t, q) = match get_text(s, pos) {
            Some(x) => x,
            None => return None,
        };
        Some((Protocol::ChatSent(ChatSent { message: t }), q))
    } else if tag == 10 {
        let (c, q) = match get_words(s, pos, 3) {
            Some(x) => x,
            None => return None,
        };
        let (d, q2) = match get_words(s, q, CHUNK_VOLUME) {
            Some(x) => x,
            None => return None,
        };
        let m = Protocol::PartialChunkUpdate(
            PartialChunkUpdate { x: c[0] as i32, y: c[1] as i32, z: c[2] as i32, data: d },
        );
        Some((m, q2))
    } else {
        None
    }
}

proof fn lemma_i32_bits(v: i32)
    ensures
        (v as u32) as i32 == v,
{
    assert((v as u32) as i32 == v) by (bit_vector);
}

proof fn lemma_i64_bits(v: i64)
    ensures
        (v as u64) as i64 == v,
{
    assert((v as u64) as i64 == v) by (bit_vector);
}

proof fn lemma_u64_bits(v: u64)
    ensures
        (v as i64) as u64 == v,
{
    assert((v as i64) as u64 == v) by (bit_vector);
}

proof fn lemma_u32_bits(v: u32)
    ensures
        (v as i32) as u32 == v,
{
    assert((v as i32) as u32 == v) by (bit_vector);
}

/// Canonical bytes: whatever decodes is a well-formed message whose
/// encoding is exactly those bytes.
pub proof fn lemma_decode_canonical(s: Seq<u8>)
    requires
        decode_message(s) is Some,
    ensures
        decode_message(s).unwrap().wf(),
        encode_message(decode_message(s).unwrap()) == s,
{
    let e = Seq::<u8>::empty();
    let (tag, r) = take_u32(s).unwrap();
    lemma_take_u32_inv(s);
    let (m, rest) = take_body(tag, r).unwrap();
    assert(rest =~= e);
    if tag == 0 || tag == 1 || tag == 7 || tag == 13 {
        lemma_take_u64_inv(r);
        let v = take_u64(r).unwrap().0;
        assert(r =~= enc_u64(v));
        assert(encode_message(m) =~= s);
    } else if tag == 2 || tag == 11 {
        lemma_take_u64_inv(r);
        let (v, r1) = take_u64(r).unwrap();
        lemma_take_text_inv(r1);
        let t = take_text(r1).unwrap().0;
        assert(r1 =~= enc_text(t));
        assert(s =~= enc_u32(tag) + enc_u64(v) + enc_text(t));
        assert(encode_message(m) =~= s);
    } else if tag == 3 || tag == 5 {
        let n: nat = if tag == 3 {
            3
        } else {
            4
        };
        lemma_take_words_inv(r, n);
        let w = take_words(r, n).unwrap().0;
        assert(r =~= enc_words(w));
        if tag == 3 {
            assert(w =~= seq![w[0], w[1], w[2]]);
        } else {
            assert(w =~= seq![w[0], w[1], w[2], w[3]]);
        }
        assert(encode_message(m) =~= s);
    } else if tag == 4 || tag == 6 || tag == 12 {
        lemma_take_u64_inv(r);
        let (v, r1) = take_u64(r).unwrap();
        let n: nat = if tag == 6 {
            4
        } else {
            3
        };
        lemma_take_words_inv(r1, n);
        let w = take_words(r1, n).unwrap().0;
        assert(r1 =~= enc_words(w));
        if tag == 6 {
            assert(w =~= seq![w[0], w[1], w[2], w[3]]);
        } else {
            assert(w =~= seq![w[0], w[1], w[2]]);
        }
        assert(s =~= enc_u32(tag) + enc_u64(v) + enc_words(w));
        assert(encode_message(m) =~= s);
    } else if tag == 8 {
        lemma_take_u32_inv(r);
        let (id, r1) = take_u32(r).unwrap();
        lemma_take_u64_inv(r1);
        let (x, r2) = take_u64(r1).unwrap();
        lemma_take_u64_inv(r2);
        let (y, r3) = take_u64(r2).unwrap();
        lemma_take_u64_inv(r3);
        let z = take_u64(r3).unwrap().0;
        assert(r3 =~= enc_u64(z));
        lemma_u64_bits(x);
        lemma_u64_bits(y);
        lemma_u64_bits(z);
        assert(s =~= enc_u32(tag) + enc_u32(id) + enc_u64(x) + enc_u64(y) + enc_u64(z));
        assert(encode_message(m) =~= s);
    } else if tag == 9 {
        lemma_take_text_inv(r);
        let t = take_text(r).unwrap().0;
        assert(r =~= enc_text(t));
        assert(encode_message(m) =~= s);
    } else {
        lemma_take_words_inv(r, 3);
        let (c, r1) = take_words(r, 3).unwrap();
        lemma_take_words_inv(r1, CHUNK_VOLUME as nat);
        let d = take_words(r1, CHUNK_VOLUME as nat).unwrap().0;
        assert(r1 =~= enc_words(d));
        lemma_u32_bits(c[0]);
        lemma_u32_bits(c[1]);
        lemma_u32_bits(c[2]);
        assert(c =~= seq![(c[0] as i32) as u32, (c[1] as i32) as u32, (c[2] as i32) as u32]);
        assert(s =~= enc_u32(tag) + enc_words(c) + enc_words(d));
        assert(encode_message(m) =~= s);
    }
}

/// Decoding is the exact inverse of encoding: bytes decode to `m` if and
/// only if they are the encoding of `m` and `m` is well-formed. So `decode`
/// fails exactly on the bytes that encode no message.
pub proof fn lemma_decode_exact(s: Seq<u8>, m: Message)
    ensures
        decode_message(s) == Some(m) <==> m.wf() && encode_message(m) == s,
{
    if decode_message(s) == Some(m) {
        lemma_decode_canonical(s);
    }
    if m.wf() && encode_message(m) == s {
        lemma_round_trip(m);
    }
}

proof fn lemma_tagged(tag: u32, body: Seq<u8>, m: Message)
    requires
        take_body(tag, body) == Some((m, Seq::<u8>::empty())),
    ensures
        decode_message(enc_u32(tag) + body) == Some(m),
{
    lemma_u32(tag, body);
}

/// Round trip: decoding the encoding of a well-formed message gives back
/// that message.
pub proof fn lemma_round_trip(m: Message)
    requires
        m.wf(),
    ensures
        decode_message(encode_message(m)) == Some(m),
{
    let e = Seq::<u8>::empty();
    match m {
        Message::Ping(p) => {
            lemma_u64(p.code, e);
            assert(enc_u64(p.code) + e =~= enc_u64(p.code));
            lemma_tagged(0, enc_u64(p.code), m);
        },
        Message::Pong(p) => {
            lemma_u64(p.code, e);
            assert(enc_u64(p.code) + e =~= enc_u64(p.code));
            lemma_tagged(1, enc_u64(p.code), m);
        },
        Message::PlayerJoin { entity, username } => {
            let t = enc_text(username);
            lemma_text(username, e);
            assert(t + e =~= t);
            lemma_u64(entity.0, t);
            assert(encode_message(m) =~= enc_u32(2) + (enc_u64(entity.0) + t));
            lemma_tagged(2, enc_u64(entity.0) + t, m);
        },
        Message::PlayerMove(p) => {
            let w = seq![p.x, p.y, p.z];
            lemma_words(w, e);
            assert(enc_words(w) + e =~= enc_words(w));
            lemma_tagged(3, enc_words(w), m);
        },
        Message::EntityMoved(p) => {
            let w = seq![p.x, p.y, p.z];
            lemma_words(w, e);
            assert(enc_words(w) + e =~= enc_words(w));
            lemma_u64(p.entity.0, enc_words(w));
            assert(encode_message(m) =~= enc_u32(4) + (enc_u64(p.entity.0) + enc_words(w)));
            lemma_tagged(4, enc_u64(p.entity.0) + enc_words(w), m);
        },
        Message::PlayerRotate(p) => {
            let w = seq![p.x, p.y, p.z, p.w];
            lemma_words(w, e);
            assert(enc_words(w) + e =~= enc_words(w));
            lemma_tagged(5, enc_words(w), m);
        },
        Message::EntityRotated(p) => {
            let w = seq![p.x, p.y, p.z, p.w];
            lemma_words(w, e);
            assert(enc_words(w) + e =~= enc_words(w));
            lemma_u64(p.entity.0, enc_words(w));
            assert(encode_message(m) =~= enc_u32(6) + (enc_u64(p.entity.0) + enc_words(w)));
            lemma_tagged(6, enc_u64(p.entity.0) + enc_words(w), m);
        },
        Message::PlayerLeave(p) => {
            lemma_u64(p.entity.0, e);
            assert(enc_u64(p.entity.0) + e =~= enc_u64(p.entity.0));
            lemma_tagged(7, enc_u64(p.entity.0), m);
        },
        Message::BlockUpdate(p) => {
            let bz = enc_u64(p.z as u64);
            let by = enc_u64(p.y as u64);
            let bx = enc_u64(p.x as u64);
            lemma_u64(p.z as u64, e);
            assert(bz + e =~= bz);
            lemma_u64(p.y as u64, bz);
            lemma_u64(p.x as u64, by + bz);
            lemma_u32(p.id, bx + (by + bz));
            lemma_i64_bits(p.x);
            lemma_i64_bits(p.y);
            lemma_i64_bits(p.z);
            assert(encode_message(m) =~= enc_u32(8) + (enc_u32(p.id) + (bx + (by + bz))));
            lemma_tagged(8, enc_u32(p.id) + (bx + (by + bz)), m);
        },
        Message::ChatSent { message } => {
            lemma_text(message, e);
            assert(enc_text(message) + e =~= enc_text(message));
            lemma_tagged(9, enc_text(message), m);
        },
        Message::PartialChunkUpdate { x, y, z, data } => {
            let c = seq![x as u32, y as u32, z as u32];
            lemma_words(data, e);
            assert(enc_words(data) + e =~= enc_words(data));
            lemma_words(c, enc_words(data));
            lemma_i32_bits(x);
            lemma_i32_bits(y);
            lemma_i32_bits(z);
            assert(encode_message(m) =~= enc_u32(10) + (enc_words(c) + enc_words(data)));
            lemma_tagged(10, enc_words(c) + enc_words(data), m);
        },
        Message::UserAuthenticate { user_id, username } => {
            let t = enc_text(username);
            lemma_text(username, e);
            assert(t + e =~= t);
            lemma_u64(user_id.0, t);
            assert(encode_message(m) =~= enc_u32(11) + (enc_u64(user_id.0) + t));
            lemma_tagged(11, enc_u64(user_id.0) + t, m);
        },
        Message::SpawnEntity(p) => {
            let w = seq![p.x, p.y, p.z];
            lemma_words(w, e);
            assert(enc_words(w) + e =~= enc_words(w));
            lemma_u64(p.entity.0, enc_words(w));
            assert(encode_message(m) =~= enc_u32(12) + (enc_u64(p.entity.0) + enc_words(w)));
            lemma_tagged(12, enc_u64(p.entity.0) + enc_words(w), m);
        },
        Message::Disconnect(p) => {
            lemma_u64(p.user.0, e);
            assert(enc_u64(p.user.0) + e =~= enc_u64(p.user.0));
            lemma_tagged(13, enc_u64(p.user.0), m);
        },
    }
}

} // verus!
