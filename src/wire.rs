use vstd::bytes::{
    lemma_auto_spec_u32_to_from_le_bytes, lemma_auto_spec_u64_to_from_le_bytes,
    spec_u32_from_le_bytes, spec_u32_to_le_bytes, spec_u64_from_le_bytes, spec_u64_to_le_bytes,
    u32_from_le_bytes, u32_to_le_bytes, u64_from_le_bytes, u64_to_le_bytes,
};
use vstd::prelude::*;
use vstd::slice::slice_to_vec;
use vstd::utf8::{
    decode_utf8, decode_utf8_encode_utf8, encode_utf8, encode_utf8_decode_utf8,
    encode_utf8_valid_utf8, valid_utf8,
};

verus! {

// Field-level layout of the wire format. Every integer is fixed-width and
// little-endian; signed integers travel as their two's complement bit
// pattern; text is a u64 byte count followed by the UTF-8 bytes; a run of
// u32 words has no count of its own (its length is fixed by the schema).
// Each `take_*` reads one field from the front of a byte sequence and
// returns it with the bytes that follow.

pub open spec fn enc_u32(v: u32) -> Seq<u8> {
    spec_u32_to_le_bytes(v)
}

pub open spec fn enc_u64(v: u64) -> Seq<u8> {
    spec_u64_to_le_bytes(v)
}

pub open spec fn enc_text(cs: Seq<char>) -> Seq<u8> {
    enc_u64(encode_utf8(cs).len() as u64) + encode_utf8(cs)
}

pub open spec fn enc_words(ws: Seq<u32>) -> Seq<u8>
    decreases ws.len(),
{
    if ws.len() == 0 {
        Seq::empty()
    } else {
        enc_words(ws.drop_last()) + enc_u32(ws.last())
    }
}

pub open spec fn take_u32(s: Seq<u8>) -> Option<(u32, Seq<u8>)> {
    if s.len() >= 4 {
        Some((spec_u32_from_le_bytes(s.take(4)), s.skip(4)))
    } else {
        None
    }
}

pub open spec fn take_u64(s: Seq<u8>) -> Option<(u64, Seq<u8>)> {
    if s.len() >= 8 {
        Some((spec_u64_from_le_bytes(s.take(8)), s.skip(8)))
    } else {
        None
    }
}

pub open spec fn take_text(s: Seq<u8>) -> Option<(Seq<char>, Seq<u8>)> {
    match take_u64(s) {
        Some((n, r)) => if n <= r.len() && valid_utf8(r.take(n as int)) {
            Some((decode_utf8(r.take(n as int)), r.skip(n as int)))
        } else {
            None
        },
        None => None,
    }
}

/// Word `i` of a run of little-endian u32 words.
pub open spec fn word_at(s: Seq<u8>, i: int) -> u32 {
    spec_u32_from_le_bytes(s.subrange(4 * i, 4 * i + 4))
}

pub open spec fn take_words(s: Seq<u8>, n: nat) -> Option<(Seq<u32>, Seq<u8>)> {
    if s.len() >= 4 * n {
        Some((Seq::new(n, |i: int| word_at(s, i)), s.skip(4 * n as int)))
    } else {
        None
    }
}

/// Text whose encoding fits the u64 byte count.
pub open spec fn text_fits(cs: Seq<char>) -> bool {
    encode_utf8(cs).len() <= u64::MAX
}

/// Whether the byte count of `s` fits the u64 in front of it on the wire.
pub fn string_fits(s: &String) -> (r: bool)
    ensures
        r == text_fits(s@),
{
    (s.as_str().as_bytes().len() as u128) <= (u64::MAX as u128)
}

pub proof fn lemma_u32(v: u32, rest: Seq<u8>)
    ensures
        enc_u32(v).len() == 4,
        take_u32(enc_u32(v) + rest) == Some((v, rest)),
{
    lemma_auto_spec_u32_to_from_le_bytes();
    let s = enc_u32(v) + rest;
    assert(s.take(4) =~= enc_u32(v));
    assert(s.skip(4) =~= rest);
}

pub proof fn lemma_u64(v: u64, rest: Seq<u8>)
    ensures
        enc_u64(v).len() == 8,
        take_u64(enc_u64(v) + rest) == Some((v, rest)),
{
    lemma_auto_spec_u64_to_from_le_bytes();
    let s = enc_u64(v) + rest;
    assert(s.take(8) =~= enc_u64(v));
    assert(s.skip(8) =~= rest);
}

pub proof fn lemma_text(cs: Seq<char>, rest: Seq<u8>)
    requires
        text_fits(cs),
    ensures
        take_text(enc_text(cs) + rest) == Some((cs, rest)),
{
    let b = encode_utf8(cs);
    let n = b.len() as u64;
    lemma_u64(n, b + rest);
    assert(enc_text(cs) + rest =~= enc_u64(n) + (b + rest));
    assert((b + rest).take(n as int) =~= b);
    assert((b + rest).skip(n as int) =~= rest);
    encode_utf8_valid_utf8(cs);
    encode_utf8_decode_utf8(cs);
}

pub proof fn lemma_words_layout(ws: Seq<u32>)
    ensures
        enc_words(ws).len() == 4 * ws.len(),
        forall|i: int| 0 <= i < ws.len() ==> #[trigger] word_at(enc_words(ws), i) == ws[i],
    decreases ws.len(),
{
    lemma_auto_spec_u32_to_from_le_bytes();
    if ws.len() > 0 {
        let init = ws.drop_last();
        lemma_words_layout(init);
        let s = enc_words(ws);
        assert forall|i: int| 0 <= i < ws.len() implies #[trigger] word_at(s, i) == ws[i] by {
            if i < init.len() {
                assert(s.subrange(4 * i, 4 * i + 4) =~= enc_words(init).subrange(4 * i, 4 * i + 4));
                assert(word_at(enc_words(init), i) == init[i]);
            } else {
                assert(s.subrange(4 * i, 4 * i + 4) =~= enc_u32(ws.last()));
            }
        }
    }
}

pub proof fn lemma_words(ws: Seq<u32>, rest: Seq<u8>)
    ensures
        take_words(enc_words(ws) + rest, ws.len()) == Some((ws, rest)),
{
    lemma_words_layout(ws);
    let s = enc_words(ws) + rest;
    assert forall|i: int| 0 <= i < ws.len() implies #[trigger] word_at(s, i) == ws[i] by {
        assert(s.subrange(4 * i, 4 * i + 4) =~= enc_words(ws).subrange(4 * i, 4 * i + 4));
        assert(word_at(enc_words(ws), i) == ws[i]);
    }
    assert(Seq::new(ws.len(), |i: int| word_at(s, i)) =~= ws);
    assert(s.skip(4 * ws.len() as int) =~= rest);
}

pub proof fn lemma_take_u32_inv(s: Seq<u8>)
    requires
        take_u32(s) is Some,
    ensures
        s == enc_u32(take_u32(s).unwrap().0) + take_u32(s).unwrap().1,
{
    lemma_auto_spec_u32_to_from_le_bytes();
    assert(s.take(4).len() == 4);
    assert(s =~= s.take(4) + s.skip(4));
}

pub proof fn lemma_take_u64_inv(s: Seq<u8>)
    requires
        take_u64(s) is Some,
    ensures
        s == enc_u64(take_u64(s).unwrap().0) + take_u64(s).unwrap().1,
{
    lemma_auto_spec_u64_to_from_le_bytes();
    assert(s.take(8).len() == 8);
    assert(s =~= s.take(8) + s.skip(8));
}

pub proof fn lemma_take_text_inv(s: Seq<u8>)
    requires
        take_text(s) is Some,
    ensures
        text_fits(take_text(s).unwrap().0),
        s == enc_text(take_text(s).unwrap().0) + take_text(s).unwrap().1,
{
    let (n, r1) = take_u64(s).unwrap();
    lemma_take_u64_inv(s);
    let b = r1.take(n as int);
    decode_utf8_encode_utf8(b);
    let cs = decode_utf8(b);
    assert(encode_utf8(cs) == b);
    assert(s =~= enc_u64(n) + b + r1.skip(n as int));
}

proof fn lemma_words_prefix(s: Seq<u8>, n: nat)
    requires
        s.len() >= 4 * n,
    ensures
        s.take(4 * n as int) == enc_words(Seq::new(n, |i: int| word_at(s, i))),
    decreases n,
{
    lemma_auto_spec_u32_to_from_le_bytes();
    let ws = Seq::new(n, |i: int| word_at(s, i));
    if n == 0 {
        assert(s.take(0) =~= Seq::<u8>::empty());
    } else {
        let m = (n - 1) as nat;
        lemma_words_prefix(s, m);
        assert(ws.drop_last() =~= Seq::new(m, |i: int| word_at(s, i)));
        let g = s.subrange(4 * m as int, 4 * m as int + 4);
        assert(g.len() == 4);
        assert(enc_u32(ws.last()) == g);
        assert(s.take(4 * n as int) =~= s.take(4 * m as int) + g);
    }
}

pub proof fn lemma_take_words_inv(s: Seq<u8>, n: nat)
    requires
        take_words(s, n) is Some,
    ensures
        take_words(s, n).unwrap().0.len() == n,
        s == enc_words(take_words(s, n).unwrap().0) + take_words(s, n).unwrap().1,
{
    lemma_words_prefix(s, n);
    assert(s =~= s.take(4 * n as int) + s.skip(4 * n as int));
}

// Executable writers: each appends one field to `out`.

pub fn put_u32(out: &mut Vec<u8>, v: u32)
    ensures
        final(out)@ == old(out)@ + enc_u32(v),
{
    let mut b = u32_to_le_bytes(v);
    out.append(&mut b);
}

pub fn put_u64(out: &mut Vec<u8>, v: u64)
    ensures
        final(out)@ == old(out)@ + enc_u64(v),
{
    let mut b = u64_to_le_bytes(v);
    out.append(&mut b);
}

pub fn put_text(out: &mut Vec<u8>, s: &String)
    ensures
        final(out)@ == old(out)@ + enc_text(s@),
{
    let bytes = s.as_str().as_bytes();
    put_u64(out, bytes.len() as u64);
    let mut b = slice_to_vec(bytes);
    out.append(&mut b);
}

pub fn put_words(out: &mut Vec<u8>, ws: &Vec<u32>)
    ensures
        final(out)@ == old(out)@ + enc_words(ws@),
{
    let ghost start = out@;
    let mut i: usize = 0;
    while i < ws.len()
        invariant
            i <= ws@.len(),
            out@ == start + enc_words(ws@.take(i as int)),
        decreases ws@.len() - i,
    {
        put_u32(out, ws[i]);
        proof {
            let t = ws@.take(i as int + 1);
            assert(t.drop_last() =~= ws@.take(i as int));
            assert(start + enc_words(ws@.take(i as int)) + enc_u32(ws@[i as int]) =~= start + enc_words(t));
        }
        i = i + 1;
    }
    assert(ws@.take(ws@.len() as int) =~= ws@);
}

// Executable readers: each reads one field of `s` at `pos` and returns it
// with the position just past it.

pub fn get_u32(s: &[u8], pos: usize) -> (r: Option<(u32, usize)>)
    requires
        pos <= s@.len(),
    ensures
        match take_u32(s@.skip(pos as int)) {
            None => r.is_none(),
            Some((v, rest)) => r matches Some((w, p)) && w == v && p <= s@.len()
                && s@.skip(p as int) == rest,
        },
{
    if s.len() - pos < 4 {
        return None;
    }
    let v = u32_from_le_bytes(&s[pos..pos + 4]);
    proof {
        assert(s@.subrange(pos as int, pos + 4) =~= s@.skip(pos as int).take(4));
        assert(s@.skip(pos + 4) =~= s@.skip(pos as int).skip(4));
    }
    Some((v, pos + 4))
}

pub fn get_u64(s: &[u8], pos: usize) -> (r: Option<(u64, usize)>)
    requires
        pos <= s@.len(),
    ensures
        match take_u64(s@.skip(pos as int)) {
            None => r.is_none(),
            Some((v, rest)) => r matches Some((w, p)) && w == v && p <= s@.len()
                && s@.skip(p as int) == rest,
        },
{
    if s.len() - pos < 8 {
        return None;
    }
    let v = u64_from_le_bytes(&s[pos..pos + 8]);
    proof {
        assert(s@.subrange(pos as int, pos + 8) =~= s@.skip(pos as int).take(8));
        assert(s@.skip(pos + 8) =~= s@.skip(pos as int).skip(8));
    }
    Some((v, pos + 8))
}

pub fn get_text(s: &[u8], pos: usize) -> (r: Option<(String, usize)>)
    requires
        pos <= s@.len(),
    ensures
        match take_text(s@.skip(pos as int)) {
            None => r.is_none(),
            Some((cs, rest)) => r matches Some((t, p)) && t@ == cs && p <= s@.len()
                && s@.skip(p as int) == rest,
        },
{
    let (n, p) = match get_u64(s, pos) {
        Some(x) => x,
        None => return None,
    };
    if n > (s.len() - p) as u64 {
        return None;
    }
    let end = p + n as usize;
    let bytes = slice_to_vec(&s[p..end]);
    proof {
        assert(bytes@ =~= s@.skip(p as int).take(n as int));
        assert(s@.skip(end as int) =~= s@.skip(p as int).skip(n as int));
    }
    match string_from_utf8(bytes) {
        Some(t) => Some((t, end)),
        None => None,
    }
}

pub fn get_words(s: &[u8], pos: usize, n: usize) -> (r: Option<(Vec<u32>, usize)>)
    requires
        pos <= s@.len(),
    ensures
        match take_words(s@.skip(pos as int), n as nat) {
            None => r.is_none(),
            Some((ws, rest)) => r matches Some((v, p)) && v@ == ws && p <= s@.len()
                && s@.skip(p as int) == rest,
        },
{
    let ghost t = s@.skip(pos as int);
    if (s.len() - pos) / 4 < n {
        return None;
    }
    let len = s.len();
    let mut ws: Vec<u32> = Vec::new();
    let mut p = pos;
    let mut i: usize = 0;
    while i < n
        invariant
            pos <= s@.len(),
            t == s@.skip(pos as int),
            len == s@.len(),
            t.len() == s@.len() - pos,
            t.len() >= 4 * n,
            i <= n,
            p == pos + 4 * i,
            ws@ == Seq::new(i as nat, |k: int| word_at(t, k)),
        decreases n - i,
    {
        proof {
            assert(4 * i + 4 <= 4 * n) by (nonlinear_arith)
                requires
                    i < n,
            ;
            assert(p + 4 <= len);
        }
        let w = u32_from_le_bytes(&s[p..p + 4]);
        proof {
            assert(s@.subrange(p as int, p + 4) =~= t.subrange(4 * i, 4 * i + 4));
        }
        ws.push(w);
        p = p + 4;
        i = i + 1;
        proof {
            assert(ws@ =~= Seq::new(i as nat, |k: int| word_at(t, k)));
        }
    }
    proof {
        assert(s@.skip(p as int) =~= t.skip(4 * n as int));
    }
    Some((ws, p))
}

/// Relies on `String::from_utf8`: it accepts exactly the byte sequences that
/// are valid UTF-8, and the string it returns holds the characters they encode.
#[verifier::external_body]
fn string_from_utf8(bytes: Vec<u8>) -> (r: Option<String>)
    ensures
        r.is_some() == valid_utf8(bytes@),
        r matches Some(t) ==> t@ == decode_utf8(bytes@),
{
    String::from_utf8(bytes).ok()
}

} // verus!
