use vstd::bytes::{
    lemma_auto_spec_u32_to_from_le_bytes, spec_u32_from_le_bytes, spec_u32_to_le_bytes,
    u32_from_le_bytes, u32_to_le_bytes,
};
use vstd::prelude::*;
use vstd::slice::slice_to_vec;

verus! {

// A frame is a 4-byte big-endian payload length followed by the payload.

pub open spec fn be_u32(v: u32) -> Seq<u8> {
    let le = spec_u32_to_le_bytes(v);
    seq![le[3], le[2], le[1], le[0]]
}

/// The length announced by the first four bytes of `s`.
pub open spec fn announced_len(s: Seq<u8>) -> nat {
    spec_u32_from_le_bytes(seq![s[3], s[2], s[1], s[0]]) as nat
}

pub open spec fn frame(payload: Seq<u8>) -> Seq<u8> {
    be_u32(payload.len() as u32) + payload
}

/// Splits a byte stream into the payloads of its complete frames, in order,
/// and the bytes after them: an incomplete length prefix, or a prefix whose
/// payload has not fully arrived.
pub open spec fn split_frames(s: Seq<u8>) -> (Seq<Seq<u8>>, Seq<u8>)
    decreases s.len(),
{
    if s.len() < 4 || s.len() < 4 + announced_len(s) {
        (Seq::empty(), s)
    } else {
        let n = announced_len(s) as int;
        let (fs, rest) = split_frames(s.skip(4 + n));
        (seq![s.subrange(4, 4 + n)] + fs, rest)
    }
}

/// The contents of a list of payload buffers.
pub open spec fn payloads(v: Seq<Vec<u8>>) -> Seq<Seq<u8>> {
    v.map_values(|p: Vec<u8>| p@)
}

pub proof fn lemma_prefix(v: u32, rest: Seq<u8>)
    ensures
        (be_u32(v) + rest).len() == 4 + rest.len(),
        announced_len(be_u32(v) + rest) == v,
{
    lemma_auto_spec_u32_to_from_le_bytes();
    let s = be_u32(v) + rest;
    let le = spec_u32_to_le_bytes(v);
    assert(seq![s[3], s[2], s[1], s[0]] =~= le);
}

/// Builds the frame of a payload.
pub fn write_frame(payload: &[u8]) -> (r: Vec<u8>)
    requires
        payload@.len() <= u32::MAX,
    ensures
        r@ == frame(payload@),
{
    let le = u32_to_le_bytes(payload.len() as u32);
    let mut out: Vec<u8> = Vec::new();
    out.push(le[3]);
    out.push(le[2]);
    out.push(le[1]);
    out.push(le[0]);
    let mut body = slice_to_vec(payload);
    out.append(&mut body);
    proof {
        assert(out@ =~= frame(payload@));
    }
    out
}

/// Reads the announced length at `pos`.
fn read_prefix(s: &Vec<u8>, pos: usize) -> (r: usize)
    requires
        pos + 4 <= s@.len(),
    ensures
        r == announced_len(s@.skip(pos as int)),
{
    let len = s.len();
    let le: Vec<u8> = vec![s[pos + 3], s[pos + 2], s[pos + 1], s[pos]];
    let v = u32_from_le_bytes(le.as_slice());
    proof {
        let t = s@.skip(pos as int);
        assert(le@ =~= seq![t[3], t[2], t[1], t[0]]);
    }
    v as usize
}

/// The read side of a connection: takes bytes in whatever pieces they arrive
/// and hands out the payloads of complete frames, keeping the rest until
/// more arrives. A short read is never an error.
pub struct FrameReader {
    pending: Vec<u8>,
}

impl View for FrameReader {
    type V = Seq<u8>;

    /// The bytes received and not yet handed out as a payload.
    closed spec fn view(&self) -> Seq<u8> {
        self.pending@
    }
}

impl FrameReader {
    /// The reader holds back only what cannot form a frame yet.
    pub open spec fn wf(&self) -> bool {
        held_back(self@)
    }

    pub fn new() -> (r: FrameReader)
        ensures
            r@ == Seq::<u8>::empty(),
            r.wf(),
    {
        FrameReader { pending: Vec::new() }
    }

    /// Number of bytes held back: an incomplete frame.
    pub fn pending_len(&self) -> (r: usize)
        ensures
            r == self@.len(),
    {
        self.pending.len()
    }

    /// Takes the next piece of the stream and returns, in order, the payloads
    /// of the frames it completes.
    pub fn push_bytes(&mut self, data: &[u8]) -> (r: Vec<Vec<u8>>)
        ensures
            final(self).wf(),
            payloads(r@) == split_frames(old(self)@ + data@).0,
            final(self)@ == split_frames(old(self)@ + data@).1,
    {
        let mut more = slice_to_vec(data);
        self.pending.append(&mut more);
        let all = &self.pending;
        let ghost s = all@;
        let len = all.len();
        let mut frames: Vec<Vec<u8>> = Vec::new();
        let mut pos: usize = 0;
        proof {
            assert(s.skip(0) =~= s);
        }
        while len - pos >= 4
            invariant
                len == s.len(),
                all@ == s,
                pos <= len,
                split_frames(s) == (payloads(frames@) + split_frames(s.skip(pos as int)).0,
                split_frames(s.skip(pos as int)).1),
            ensures
                pos <= len,
                split_frames(s) == (payloads(frames@) + split_frames(s.skip(pos as int)).0,
                split_frames(s.skip(pos as int)).1),
                split_frames(s.skip(pos as int)).0 == Seq::<Seq<u8>>::empty(),
            decreases len - pos,
        {
            let n = read_prefix(all, pos);
            if len - pos - 4 < n {
                break;
            }
            let end = pos + 4 + n;
            let payload = slice_to_vec(&all.as_slice()[pos + 4..end]);
            proof {
                let t = s.skip(pos as int);
                assert(payload@ =~= t.subrange(4, 4 + n));
                assert(t.skip(4 + n) =~= s.skip(end as int));
                let tail = split_frames(s.skip(end as int));
                assert(split_frames(t) == (seq![payload@] + tail.0, tail.1));
                assert(payloads(frames@).push(payload@) + tail.0 =~= payloads(frames@) + (
                seq![payload@] + tail.0));
            }
            let ghost before = frames@;
            frames.push(payload);
            proof {
                assert(payloads(frames@) =~= payloads(before).push(payload@));
            }
            pos = end;
        }
        let rest = slice_to_vec(&self.pending.as_slice()[pos..len]);
        proof {
            let t = s.skip(pos as int);
            assert(rest@ =~= t);
            assert(payloads(frames@) + Seq::<Seq<u8>>::empty() =~= payloads(frames@));
        }
        self.pending = rest;
        proof {
            lemma_rest_held(s);
        }
        frames
    }
}

/// The stream made of `chunks` one after the other.
pub open spec fn concat(chunks: Seq<Seq<u8>>) -> Seq<u8>
    decreases chunks.len(),
{
    if chunks.len() == 0 {
        Seq::empty()
    } else {
        chunks[0] + concat(chunks.drop_first())
    }
}

/// What a `FrameReader` holding `pending` hands out when given `chunks` one
/// `push_bytes` at a time: the payloads of all the calls in order, and what
/// it holds at the end.
pub open spec fn feed(pending: Seq<u8>, chunks: Seq<Seq<u8>>) -> (Seq<Seq<u8>>, Seq<u8>)
    decreases chunks.len(),
{
    if chunks.len() == 0 {
        (Seq::empty(), pending)
    } else {
        let (f1, r1) = split_frames(pending + chunks[0]);
        let (f2, r2) = feed(r1, chunks.drop_first());
        (f1 + f2, r2)
    }
}

/// Bytes from which no frame can be taken yet.
pub open spec fn held_back(s: Seq<u8>) -> bool {
    split_frames(s) == (Seq::<Seq<u8>>::empty(), s)
}

/// What splitting holds back is held back.
pub proof fn lemma_rest_held(s: Seq<u8>)
    ensures
        held_back(split_frames(s).1),
    decreases s.len(),
{
    if !(s.len() < 4 || s.len() < 4 + announced_len(s)) {
        lemma_rest_held(s.skip(4 + announced_len(s) as int));
    }
}

/// Appending bytes to a stream keeps the frames already complete, and the
/// rest is split as if the held-back bytes started the stream.
pub proof fn lemma_split_append(a: Seq<u8>, b: Seq<u8>)
    ensures
        split_frames(a + b) == (split_frames(a).0 + split_frames(split_frames(a).1 + b).0,
        split_frames(split_frames(a).1 + b).1),
    decreases a.len(),
{
    if a.len() < 4 || a.len() < 4 + announced_len(a) {
        assert(split_frames(a).0 + split_frames(a + b).0 =~= split_frames(a + b).0);
    } else {
        let n = announced_len(a) as int;
        let s = a + b;
        assert(seq![s[3], s[2], s[1], s[0]] =~= seq![a[3], a[2], a[1], a[0]]);
        assert(s.skip(4 + n) =~= a.skip(4 + n) + b);
        assert(s.subrange(4, 4 + n) =~= a.subrange(4, 4 + n));
        lemma_split_append(a.skip(4 + n), b);
        let (f, r) = split_frames(a.skip(4 + n));
        let tail = split_frames(r + b);
        assert(seq![a.subrange(4, 4 + n)] + (f + tail.0) =~= (seq![a.subrange(4, 4 + n)] + f)
            + tail.0);
    }
}

/// Framing does not depend on how the stream is cut into reads: feeding the
/// pieces one at a time gives the same payloads, in the same order, and holds
/// back the same bytes, as feeding the whole stream at once.
pub proof fn lemma_chunking_invariant(pending: Seq<u8>, chunks: Seq<Seq<u8>>)
    requires
        held_back(pending),
    ensures
        feed(pending, chunks) == split_frames(pending + concat(chunks)),
    decreases chunks.len(),
{
    if chunks.len() == 0 {
        assert(pending + concat(chunks) =~= pending);
    } else {
        let rest = chunks.drop_first();
        let a = pending + chunks[0];
        lemma_split_append(a, concat(rest));
        lemma_rest_held(a);
        lemma_chunking_invariant(split_frames(a).1, rest);
        assert(pending + concat(chunks) =~= a + concat(rest));
    }
}

/// A frame announces exactly the length of its payload, and a reader hands
/// that payload out whole, then goes on with the bytes that follow.
pub proof fn lemma_frame_exact(payload: Seq<u8>, rest: Seq<u8>)
    requires
        payload.len() <= u32::MAX,
    ensures
        frame(payload).len() == 4 + payload.len(),
        announced_len(frame(payload)) == payload.len(),
        frame(payload).skip(4) == payload,
        split_frames(frame(payload) + rest) == (seq![payload] + split_frames(rest).0,
        split_frames(rest).1),
{
    let v = payload.len() as u32;
    lemma_prefix(v, payload);
    lemma_prefix(v, payload + rest);
    let s = frame(payload) + rest;
    assert(s =~= be_u32(v) + (payload + rest));
    assert(frame(payload).skip(4) =~= payload);
    assert(s.subrange(4, 4 + payload.len() as int) =~= payload);
    assert(s.skip(4 + payload.len() as int) =~= rest);
}

/// A length prefix that promises more bytes than have arrived yields
/// nothing: all of it is held back, none of it is handed out cut short.
pub proof fn lemma_incomplete_frame_held(s: Seq<u8>)
    requires
        s.len() < 4 || s.len() < 4 + announced_len(s),
    ensures
        split_frames(s) == (Seq::<Seq<u8>>::empty(), s),
{
}

} // verus!
