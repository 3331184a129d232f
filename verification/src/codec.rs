//! The byte encoding of a saved response, as the response cache writes it
//! to durable storage and reads it back: the status in two little-endian
//! bytes, the headers as a counted sequence of length-prefixed (name,
//! value) byte pairs, and the length-prefixed body. Decoding inverts
//! encoding exactly, which is what makes a replayed response byte-identical
//! to the one first saved.

use vstd::prelude::*;
use crate::response::RespV;
use crate::response::SavedResponse;

verus! {

/// A `u64` in eight little-endian bytes.
pub open spec fn spec_u64_le(n: u64) -> Seq<u8> {
    seq![
        n as u8,
        (n >> 8) as u8,
        (n >> 16) as u8,
        (n >> 24) as u8,
        (n >> 32) as u8,
        (n >> 40) as u8,
        (n >> 48) as u8,
        (n >> 56) as u8,
    ]
}

/// The `u64` read from eight little-endian bytes.
pub open spec fn spec_u64_from_le(b: Seq<u8>) -> u64
    recommends
        b.len() == 8,
{
    (b[0] as u64) | ((b[1] as u64) << 8) | ((b[2] as u64) << 16) | ((b[3] as u64) << 24) | ((
    b[4] as u64) << 32) | ((b[5] as u64) << 40) | ((b[6] as u64) << 48) | ((b[7] as u64) << 56)
}

/// Reading back the eight bytes of a `u64` yields the same number.
pub proof fn lemma_u64_le_round(n: u64)
    ensures
        spec_u64_from_le(spec_u64_le(n)) == n,
{
    assert(((n as u8) as u64) | (((n >> 8) as u8) as u64) << 8 | (((n >> 16) as u8) as u64) << 16
        | (((n >> 24) as u8) as u64) << 24 | (((n >> 32) as u8) as u64) << 32 | (((n
        >> 40) as u8) as u64) << 40 | (((n >> 48) as u8) as u64) << 48 | (((n >> 56) as u8) as u64)
        << 56 == n) by (bit_vector);
}

/// Reads a length marker: eight bytes, little endian, then the rest.
pub open spec fn take_u64(b: Seq<u8>) -> Option<(u64, Seq<u8>)> {
    if b.len() < 8 {
        None
    } else {
        Some((spec_u64_from_le(b.take(8)), b.skip(8)))
    }
}

/// A length marker followed by anything reads back as written.
pub proof fn lemma_take_u64(n: u64, rest: Seq<u8>)
    ensures
        take_u64(spec_u64_le(n) + rest) == Some((n, rest)),
{
    let b = spec_u64_le(n) + rest;
    assert(b.take(8) =~= spec_u64_le(n));
    assert(b.skip(8) =~= rest);
    lemma_u64_le_round(n);
}

/// Reads a length-prefixed block: the marker, then that many bytes, then
/// the rest.
pub open spec fn take_block(b: Seq<u8>) -> Option<(Seq<u8>, Seq<u8>)> {
    match take_u64(b) {
        None => None,
        Some((n, rest)) => {
            if rest.len() < n {
                None
            } else {
                Some((rest.take(n as int), rest.skip(n as int)))
            }
        },
    }
}

/// A length-prefixed block followed by anything reads back as written.
pub proof fn lemma_take_block(data: Seq<u8>, rest: Seq<u8>)
    requires
        data.len() <= u64::MAX,
    ensures
        take_block(spec_u64_le(data.len() as u64) + data + rest) == Some((data, rest)),
{
    let b = spec_u64_le(data.len() as u64) + data + rest;
    assert(b =~= spec_u64_le(data.len() as u64) + (data + rest));
    lemma_take_u64(data.len() as u64, data + rest);
    assert((data + rest).take(data.len() as int) =~= data);
    assert((data + rest).skip(data.len() as int) =~= rest);
}

/// One encoded header pair: length-prefixed name, length-prefixed value.
pub open spec fn spec_encode_pair(p: (Seq<u8>, Seq<u8>)) -> Seq<u8> {
    spec_u64_le(p.0.len() as u64) + p.0 + spec_u64_le(p.1.len() as u64) + p.1
}

/// The encoded header block: the pairs in order.
pub open spec fn spec_encode_headers(hs: Seq<(Seq<u8>, Seq<u8>)>) -> Seq<u8>
    decreases hs.len(),
{
    if hs.len() == 0 {
        Seq::empty()
    } else {
        spec_encode_pair(hs[0]) + spec_encode_headers(hs.drop_first())
    }
}

/// Appending one pair extends the encoded block at its end.
pub proof fn lemma_encode_headers_push(hs: Seq<(Seq<u8>, Seq<u8>)>, p: (Seq<u8>, Seq<u8>))
    ensures
        spec_encode_headers(hs.push(p)) =~= spec_encode_headers(hs) + spec_encode_pair(p),
    decreases hs.len(),
{
    if hs.len() == 0 {
        assert(hs.push(p).len() == 1);
        assert(hs.push(p)[0] == p);
        assert(hs.push(p).drop_first() =~= Seq::<(Seq<u8>, Seq<u8>)>::empty());
        assert(spec_encode_headers(hs.push(p).drop_first()) =~= Seq::<u8>::empty());
        assert(spec_encode_headers(hs.push(p)) =~= spec_encode_pair(p) + Seq::<u8>::empty());
        assert(spec_encode_headers(hs) =~= Seq::<u8>::empty());
        assert(spec_encode_pair(p) + Seq::<u8>::empty() =~= Seq::<u8>::empty()
            + spec_encode_pair(p));
    } else {
        assert(hs.push(p)[0] == hs[0]);
        assert(hs.push(p).drop_first() =~= hs.drop_first().push(p));
        lemma_encode_headers_push(hs.drop_first(), p);
        assert(spec_encode_pair(hs[0]) + (spec_encode_headers(hs.drop_first())
            + spec_encode_pair(p)) =~= (spec_encode_pair(hs[0]) + spec_encode_headers(
            hs.drop_first(),
        )) + spec_encode_pair(p));
    }
}

/// The full encoding of a response.
pub open spec fn spec_encode_response(r: RespV) -> Seq<u8> {
    seq![r.status as u8, (r.status >> 8) as u8] + spec_u64_le(r.headers.len() as u64)
        + spec_encode_headers(r.headers) + spec_u64_le(r.body.len() as u64) + r.body
}

/// Reads `n` header pairs, then the rest.
pub open spec fn spec_decode_headers(b: Seq<u8>, n: nat) -> Option<
    (Seq<(Seq<u8>, Seq<u8>)>, Seq<u8>),
>
    decreases n,
{
    if n == 0 {
        Some((Seq::empty(), b))
    } else {
        match take_block(b) {
            None => None,
            Some((name, r1)) => match take_block(r1) {
                None => None,
                Some((value, r2)) => match spec_decode_headers(r2, (n - 1) as nat) {
                    None => None,
                    Some((hs, r3)) => Some((seq![(name, value)] + hs, r3)),
                },
            },
        }
    }
}

/// The full decoding of a response: status, counted headers, body, and
/// nothing left over.
pub open spec fn spec_decode_response(b: Seq<u8>) -> Option<RespV> {
    if b.len() < 2 {
        None
    } else {
        let status = (b[0] as u16) | ((b[1] as u16) << 8);
        match take_u64(b.skip(2)) {
            None => None,
            Some((hn, r1)) => match spec_decode_headers(r1, hn as nat) {
                None => None,
                Some((hs, r2)) => match take_block(r2) {
                    None => None,
                    Some((body, r3)) => {
                        if r3.len() == 0 {
                            Some(RespV { status, headers: hs, body })
                        } else {
                            None
                        }
                    },
                },
            },
        }
    }
}

/// Every header block small enough to carry its length markers.
pub open spec fn headers_encodable(hs: Seq<(Seq<u8>, Seq<u8>)>) -> bool {
    forall|i: int|
        0 <= i < hs.len() ==> (#[trigger] hs[i]).0.len() <= u64::MAX && hs[i].1.len()
            <= u64::MAX
}

/// A response small enough to encode: every length fits its marker.
pub open spec fn encodable(r: RespV) -> bool {
    &&& r.headers.len() <= u64::MAX
    &&& r.body.len() <= u64::MAX
    &&& headers_encodable(r.headers)
}

/// Decoding an encoded header block recovers the pairs and leaves the rest.
#[verifier::rlimit(100)]
#[verifier::spinoff_prover]
pub proof fn lemma_headers_round_trip(hs: Seq<(Seq<u8>, Seq<u8>)>, rest: Seq<u8>)
    requires
        headers_encodable(hs),
    ensures
        spec_decode_headers(spec_encode_headers(hs) + rest, hs.len()) == Some((hs, rest)),
    decreases hs.len(),
{
    if hs.len() == 0 {
        assert(spec_encode_headers(hs) + rest =~= rest);
        assert(hs =~= Seq::<(Seq<u8>, Seq<u8>)>::empty());
    } else {
        let p = hs[0];
        let tail = hs.drop_first();
        let enc_tail = spec_encode_headers(tail);
        let x2 = enc_tail + rest;
        let x1 = spec_u64_le(p.1.len() as u64) + p.1 + x2;
        let b = spec_encode_headers(hs) + rest;
        assert(b =~= spec_u64_le(p.0.len() as u64) + p.0 + x1);
        lemma_take_block(p.0, x1);
        assert(take_block(b) == Some((p.0, x1)));
        lemma_take_block(p.1, x2);
        assert(forall|i: int| 0 <= i < tail.len() ==> tail[i] == hs[i + 1]);
        lemma_headers_round_trip(tail, rest);
        assert(spec_decode_headers(x2, tail.len()) == Some((tail, rest)));
        assert(spec_decode_headers(b, hs.len()) == Some((seq![(p.0, p.1)] + tail, rest)));
        assert(seq![(p.0, p.1)] + tail =~= hs);
    }
}

/// Decoding inverts encoding: every encodable response reads back exactly.
pub proof fn lemma_codec_round_trip(r: RespV)
    requires
        encodable(r),
    ensures
        spec_decode_response(spec_encode_response(r)) == Some(r),
{
    let b = spec_encode_response(r);
    let status_bytes = seq![r.status as u8, (r.status >> 8) as u8];
    let after_status = spec_u64_le(r.headers.len() as u64) + spec_encode_headers(r.headers)
        + spec_u64_le(r.body.len() as u64) + r.body;
    assert(b =~= status_bytes + after_status);
    assert(b.len() >= 2);
    assert(b[0] == r.status as u8 && b[1] == (r.status >> 8) as u8);
    let st = r.status;
    assert(((st as u8) as u16) | ((((st >> 8) as u8) as u16) << 8) == st) by (bit_vector);
    assert(b.skip(2) =~= spec_u64_le(r.headers.len() as u64) + (spec_encode_headers(r.headers)
        + (spec_u64_le(r.body.len() as u64) + r.body)));
    lemma_take_u64(
        r.headers.len() as u64,
        spec_encode_headers(r.headers) + (spec_u64_le(r.body.len() as u64) + r.body),
    );
    assert(spec_encode_headers(r.headers) + (spec_u64_le(r.body.len() as u64) + r.body)
        =~= spec_encode_headers(r.headers) + (spec_u64_le(r.body.len() as u64) + r.body));
    lemma_headers_round_trip(r.headers, spec_u64_le(r.body.len() as u64) + r.body);
    assert(spec_u64_le(r.body.len() as u64) + r.body =~= spec_u64_le(r.body.len() as u64) + r.body
        + Seq::<u8>::empty());
    lemma_take_block(r.body, Seq::<u8>::empty());
    assert(spec_u64_le(r.body.len() as u64) + r.body + Seq::<u8>::empty() =~= spec_u64_le(
        r.body.len() as u64,
    ) + r.body);
}


/// Appends the eight little-endian bytes of `n`.
fn push_u64(out: &mut Vec<u8>, n: u64)
    ensures
        final(out)@ =~= old(out)@ + spec_u64_le(n),
{
    out.push(#[verifier::truncate] (n as u8));
    out.push(#[verifier::truncate] ((n >> 8) as u8));
    out.push(#[verifier::truncate] ((n >> 16) as u8));
    out.push(#[verifier::truncate] ((n >> 24) as u8));
    out.push(#[verifier::truncate] ((n >> 32) as u8));
    out.push(#[verifier::truncate] ((n >> 40) as u8));
    out.push(#[verifier::truncate] ((n >> 48) as u8));
    out.push(#[verifier::truncate] ((n >> 56) as u8));
}

/// Appends a length-prefixed block.
fn push_block(out: &mut Vec<u8>, data: &Vec<u8>)
    ensures
        final(out)@ =~= old(out)@ + spec_u64_le(data@.len() as u64) + data@,
{
    push_u64(out, data.len() as u64);
    let ghost mid = out@;
    out.extend_from_slice(data.as_slice());
    proof {
        assert(out@ =~= mid + data@);
    }
}

/// Encodes a response for storage, exactly as `spec_encode_response` says.
pub fn encode_response(r: &SavedResponse) -> (out: Vec<u8>)
    ensures
        out@ =~= spec_encode_response(r@),
{
    let mut out: Vec<u8> = Vec::new();
    out.push(#[verifier::truncate] (r.status as u8));
    let hi_byte = (r.status >> 8) as u8;
    out.push(hi_byte);
    let hn = r.headers.len();
    push_u64(&mut out, hn as u64);
    let ghost prefix = seq![r@.status as u8, (r@.status >> 8) as u8] + spec_u64_le(
        r@.headers.len() as u64,
    );
    proof {
        assert(out@ =~= prefix + spec_encode_headers(r@.headers.take(0)));
    }
    let mut i: usize = 0;
    while i < hn
        invariant
            0 <= i <= hn,
            hn == r.headers@.len(),
            r@.headers.len() == hn,
            out@ =~= prefix + spec_encode_headers(r@.headers.take(i as int)),
        decreases hn - i,
    {
        let ghost before = out@;
        push_block(&mut out, &r.headers[i].0);
        push_block(&mut out, &r.headers[i].1);
        proof {
            let p = r@.headers[i as int];
            assert(out@ =~= before + spec_encode_pair(p));
            lemma_encode_headers_push(r@.headers.take(i as int), p);
            assert(r@.headers.take(i + 1) =~= r@.headers.take(i as int).push(p));
            assert(out@ =~= prefix + spec_encode_headers(r@.headers.take(i + 1)));
        }
        i += 1;
    }
    proof {
        assert(r@.headers.take(hn as int) =~= r@.headers);
    }
    push_block(&mut out, &r.body);
    proof {
        assert(out@ =~= spec_encode_response(r@));
    }
    out
}

/// Reads a length marker at `pos`.
fn read_u64(bytes: &[u8], pos: usize) -> (r: Option<(u64, usize)>)
    requires
        pos <= bytes@.len(),
    ensures
        match r {
            Some((n, p2)) => p2 == pos + 8 && p2 <= bytes@.len() && take_u64(
                bytes@.skip(pos as int),
            ) == Some((n, bytes@.skip(p2 as int))),
            None => take_u64(bytes@.skip(pos as int)) is None,
        },
{
    if bytes.len() - pos < 8 {
        return None;
    }
    let n = (bytes[pos] as u64) | ((bytes[pos + 1] as u64) << 8) | ((bytes[pos + 2] as u64) << 16)
        | ((bytes[pos + 3] as u64) << 24) | ((bytes[pos + 4] as u64) << 32) | ((bytes[pos
        + 5] as u64) << 40) | ((bytes[pos + 6] as u64) << 48) | ((bytes[pos + 7] as u64) << 56);
    proof {
        let s = bytes@.skip(pos as int);
        assert(forall|k: int| 0 <= k < 8 ==> #[trigger] s.take(8)[k] == bytes@[pos + k]);
        assert(s.skip(8) =~= bytes@.skip(pos + 8));
        assert(spec_u64_from_le(s.take(8)) == n);
    }
    Some((n, pos + 8))
}

/// Reads a length-prefixed block at `pos`.
fn read_block(bytes: &[u8], pos: usize) -> (r: Option<(Vec<u8>, usize)>)
    requires
        pos <= bytes@.len(),
    ensures
        match r {
            Some((v, p2)) => pos <= p2 <= bytes@.len() && take_block(bytes@.skip(pos as int))
                == Some((v@, bytes@.skip(p2 as int))),
            None => take_block(bytes@.skip(pos as int)) is None,
        },
{
    let (n, p1) = match read_u64(bytes, pos) {
        Some(x) => x,
        None => {
            return None;
        },
    };
    let remaining = bytes.len() - p1;
    if n > remaining as u64 {
        proof {
            assert(bytes@.skip(p1 as int).len() < n);
        }
        return None;
    }
    let len = n as usize;
    let end = p1 + len;
    let slice: &[u8] = &bytes[p1..end];
    let v = vstd::slice::slice_to_vec(slice);
    proof {
        assert(bytes@.skip(p1 as int).take(n as int) =~= bytes@.subrange(p1 as int, end as int));
        assert(bytes@.skip(p1 as int).skip(n as int) =~= bytes@.skip(end as int));
    }
    Some((v, end))
}

/// Decodes a stored response, exactly as `spec_decode_response` says.
pub fn decode_response(bytes: &[u8]) -> (r: Option<SavedResponse>)
    ensures
        match r {
            Some(resp) => spec_decode_response(bytes@) == Some(resp@),
            None => spec_decode_response(bytes@) is None,
        },
{
    if bytes.len() < 2 {
        return None;
    }
    let status = (bytes[0] as u16) | ((bytes[1] as u16) << 8);
    let (hn, p1) = match read_u64(bytes, 2) {
        Some(x) => x,
        None => {
            return None;
        },
    };
    let mut headers: Vec<(Vec<u8>, Vec<u8>)> = Vec::new();
    let mut pos = p1;
    let mut i: u64 = 0;
    while i < hn
        invariant
            0 <= i <= hn,
            pos <= bytes@.len(),
            headers@.len() == i,
            take_u64(bytes@.skip(2)) == Some((hn, bytes@.skip(p1 as int))),
            bytes@.len() >= 2,
            spec_decode_headers(bytes@.skip(p1 as int), hn as nat) == (match spec_decode_headers(
                bytes@.skip(pos as int),
                (hn - i) as nat,
            ) {
                Some((hs, rest)) => Some(
                    (headers@.map_values(|p: (Vec<u8>, Vec<u8>)| (p.0@, p.1@)) + hs, rest),
                ),
                None => None,
            }),
        decreases hn - i,
    {
        let ghost hview = headers@.map_values(|p: (Vec<u8>, Vec<u8>)| (p.0@, p.1@));
        let (name, p2) = match read_block(bytes, pos) {
            Some(x) => x,
            None => {
                return None;
            },
        };
        let (value, p3) = match read_block(bytes, p2) {
            Some(x) => x,
            None => {
                return None;
            },
        };
        headers.push((name, value));
        proof {
            let m = (hn - i - 1) as nat;
            let hview2 = headers@.map_values(|p: (Vec<u8>, Vec<u8>)| (p.0@, p.1@));
            assert(hview2 =~= hview.push((name@, value@)));
            match spec_decode_headers(bytes@.skip(p3 as int), m) {
                Some((hs, rest)) => {
                    assert(hview + (seq![(name@, value@)] + hs) =~= hview2 + hs);
                },
                None => {
                },
            }
        }
        pos = p3;
        i += 1;
    }
    proof {
        let hview = headers@.map_values(|p: (Vec<u8>, Vec<u8>)| (p.0@, p.1@));
        assert(hview + Seq::<(Seq<u8>, Seq<u8>)>::empty() =~= hview);
    }
    let (body, p4) = match read_block(bytes, pos) {
        Some(x) => x,
        None => {
            return None;
        },
    };
    if p4 != bytes.len() {
        proof {
            assert(bytes@.skip(p4 as int).len() != 0);
        }
        return None;
    }
    proof {
        assert(bytes@.skip(p4 as int).len() == 0);
    }
    let resp = SavedResponse { status, headers, body };
    proof {
        assert(spec_decode_response(bytes@) == Some(resp@));
    }
    Some(resp)
}

} // verus!
