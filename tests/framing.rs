use rc_networking::{encode, write_frame, FrameReader, Ping, Pong, Protocol};

fn stream_of(payloads: &[Vec<u8>]) -> Vec<u8> {
    let mut s = Vec::new();
    for p in payloads {
        s.extend_from_slice(&write_frame(p));
    }
    s
}

#[test]
fn write_frame_declares_exact_length() {
    let f = write_frame(&[1, 2, 3, 4, 5]);
    assert_eq!(f, vec![0, 0, 0, 5, 1, 2, 3, 4, 5]);
    let big = vec![7u8; 0x0102_03];
    let f = write_frame(&big);
    assert_eq!(&f[..4], &[0x00, 0x01, 0x02, 0x03]);
    assert_eq!(f.len(), 4 + big.len());
}

#[test]
fn empty_payload_frame() {
    let mut r = FrameReader::new();
    let out = r.push_bytes(&write_frame(&[]));
    assert_eq!(out, vec![Vec::<u8>::new()]);
    assert_eq!(r.pending_len(), 0);
}

#[test]
fn chunked_stream_gives_same_payloads_as_whole() {
    let payloads = vec![
        encode(&Protocol::Ping(Ping { code: 1 })),
        vec![],
        vec![9; 300],
        encode(&Protocol::Pong(Pong { code: 2 })),
    ];
    let stream = stream_of(&payloads);
    let mut whole = FrameReader::new();
    assert_eq!(whole.push_bytes(&stream), payloads);
    for size in 1..=stream.len() {
        let mut r = FrameReader::new();
        let mut got = Vec::new();
        for piece in stream.chunks(size) {
            got.extend(r.push_bytes(piece));
        }
        assert_eq!(got, payloads, "pieces of {}", size);
        assert_eq!(r.pending_len(), 0);
    }
}

#[test]
fn byte_at_a_time() {
    let stream = stream_of(&[vec![1, 2], vec![3]]);
    let mut r = FrameReader::new();
    let mut got = Vec::new();
    for b in &stream {
        got.extend(r.push_bytes(&[*b]));
    }
    assert_eq!(got, vec![vec![1, 2], vec![3]]);
}

#[test]
fn incomplete_frame_is_held_not_truncated() {
    let mut r = FrameReader::new();
    let out = r.push_bytes(&[0, 0, 0, 10, 1, 2, 3]);
    assert!(out.is_empty());
    assert_eq!(r.pending_len(), 7);
    let out = r.push_bytes(&[0, 0]);
    assert!(out.is_empty());
    assert_eq!(r.pending_len(), 9);
}

#[test]
fn partial_prefix_is_held() {
    let mut r = FrameReader::new();
    assert!(r.push_bytes(&[0, 0]).is_empty());
    assert!(r.push_bytes(&[0]).is_empty());
    assert_eq!(r.push_bytes(&[1, 42]), vec![vec![42]]);
}
