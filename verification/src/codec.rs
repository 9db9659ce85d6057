//! The canonical wire form of gossip payloads: little-endian integers,
//! length-prefixed byte strings, one tag byte per message variant. Producer
//! and verifier must agree on these bytes byte-for-byte, so the encoding is
//! fixed here and stated as mathematics.

use vstd::bytes::{
    lemma_auto_spec_u32_to_from_le_bytes, lemma_auto_spec_u64_to_from_le_bytes,
    spec_u32_from_le_bytes, spec_u32_to_le_bytes, spec_u64_from_le_bytes, spec_u64_to_le_bytes, u32_from_le_bytes,
    u32_to_le_bytes, u64_from_le_bytes, u64_to_le_bytes,
};
use vstd::prelude::*;
use vstd::string::StrSliceExecFns;
use vstd::string::StringExecFns;
use vstd::utf8::{decode_utf8, decode_utf8_encode_utf8, encode_utf8, valid_utf8};
use crate::types::{GeoPoint, GgsMessage, SparseUpdate, TensorSnapshot, VALUE_LIMIT};
use crate::types::spec_abs_index;

verus! {

/// An i64 on the wire: its two's-complement bits, little endian.
pub open spec fn spec_enc_i64(v: i64) -> Seq<u8> {
    spec_u64_to_le_bytes(v as u64)
}

/// A byte string on the wire: an 8-byte length, then the bytes.
pub open spec fn spec_enc_bytes(b: Seq<u8>) -> Seq<u8> {
    spec_u64_to_le_bytes(b.len() as u64) + b
}

/// A string on the wire: its UTF-8 bytes, length-prefixed.
pub open spec fn spec_enc_str(s: Seq<char>) -> Seq<u8> {
    spec_enc_bytes(encode_utf8(s))
}

/// A u32 list on the wire: an 8-byte count, then 4 bytes per element.
pub open spec fn spec_enc_u32s(v: Seq<u32>) -> Seq<u8> {
    spec_u64_to_le_bytes(v.len() as u64) + spec_cat_u32s(v)
}

pub open spec fn spec_cat_u32s(v: Seq<u32>) -> Seq<u8>
    decreases v.len(),
{
    if v.len() == 0 {
        Seq::empty()
    } else {
        spec_cat_u32s(v.drop_last()) + spec_u32_to_le_bytes(v.last())
    }
}

/// An i64 list on the wire: an 8-byte count, then 8 bytes per element.
pub open spec fn spec_enc_i64s(v: Seq<i64>) -> Seq<u8> {
    spec_u64_to_le_bytes(v.len() as u64) + spec_cat_i64s(v)
}

pub open spec fn spec_cat_i64s(v: Seq<i64>) -> Seq<u8>
    decreases v.len(),
{
    if v.len() == 0 {
        Seq::empty()
    } else {
        spec_cat_i64s(v.drop_last()) + spec_enc_i64(v.last())
    }
}

/// Concatenated u32 elements occupy four bytes each.
pub proof fn lemma_cat_u32s_len(v: Seq<u32>)
    ensures
        spec_cat_u32s(v).len() == 4 * v.len(),
    decreases v.len(),
{
    if v.len() > 0 {
        lemma_cat_u32s_len(v.drop_last());
        vstd::bytes::lemma_auto_spec_u32_to_from_le_bytes();
    }
}

/// The bytes of element `i` inside a u32 concatenation.
pub proof fn lemma_cat_u32s_slice(v: Seq<u32>, i: int)
    requires
        0 <= i < v.len(),
    ensures
        forall|q: int|
            0 <= q < 4 ==> #[trigger] spec_cat_u32s(v)[4 * i + q] == spec_u32_to_le_bytes(
                v[i],
            )[q],
    decreases v.len(),
{
    lemma_cat_u32s_len(v);
    lemma_cat_u32s_len(v.drop_last());
    vstd::bytes::lemma_auto_spec_u32_to_from_le_bytes();
    if i < v.len() - 1 {
        lemma_cat_u32s_slice(v.drop_last(), i);
    }
}

/// Concatenated i64 elements occupy eight bytes each.
pub proof fn lemma_cat_i64s_len(v: Seq<i64>)
    ensures
        spec_cat_i64s(v).len() == 8 * v.len(),
    decreases v.len(),
{
    if v.len() > 0 {
        lemma_cat_i64s_len(v.drop_last());
        vstd::bytes::lemma_auto_spec_u64_to_from_le_bytes();
    }
}

/// The bytes of element `i` inside an i64 concatenation.
pub proof fn lemma_cat_i64s_slice(v: Seq<i64>, i: int)
    requires
        0 <= i < v.len(),
    ensures
        forall|q: int|
            0 <= q < 8 ==> #[trigger] spec_cat_i64s(v)[8 * i + q] == spec_enc_i64(v[i])[q],
    decreases v.len(),
{
    lemma_cat_i64s_len(v);
    lemma_cat_i64s_len(v.drop_last());
    vstd::bytes::lemma_auto_spec_u64_to_from_le_bytes();
    if i < v.len() - 1 {
        lemma_cat_i64s_slice(v.drop_last(), i);
    }
}

/// A position on the wire: latitude then longitude, in micro-degrees.
pub open spec fn spec_enc_geo(g: GeoPoint) -> Seq<u8> {
    spec_enc_i64(g.lat_micro) + spec_enc_i64(g.lon_micro)
}

/// A sparse update on the wire: indices, values, version.
pub open spec fn spec_enc_sparse(u: SparseUpdate) -> Seq<u8> {
    spec_enc_u32s(u.indices@) + spec_enc_i64s(u.values@) + spec_u64_to_le_bytes(u.version)
}

/// A snapshot on the wire: dimension, version, values — the same bytes the
/// tensor hash digests.
pub open spec fn spec_enc_tensor(t: TensorSnapshot) -> Seq<u8> {
    spec_u64_to_le_bytes(t.dim as u64) + spec_u64_to_le_bytes(t.version) + spec_enc_i64s(t.values@)
}

/// A message on the wire: one tag byte, then the variant's fields.
pub open spec fn spec_enc_message(m: GgsMessage) -> Seq<u8> {
    match m {
        GgsMessage::Heartbeat { peer, model_hash } => seq![0u8] + spec_enc_str(peer@)
            + spec_enc_str(model_hash@),
        GgsMessage::SparseUpdate { update, sender } => seq![1u8] + spec_enc_str(sender@)
            + spec_enc_sparse(update),
        GgsMessage::DenseSnapshot { snapshot, sender } => seq![2u8] + spec_enc_str(sender@)
            + spec_enc_tensor(snapshot),
        GgsMessage::SimilarityProbe { embedding, position, sender } => seq![3u8] + spec_enc_str(
            sender@,
        ) + spec_enc_i64s(embedding@) + spec_enc_geo(position),
    }
}

// ---------------------------------------------------------------------------
// building blocks: encoding
// ---------------------------------------------------------------------------
/// Appends a byte string.
pub fn push_bytes(out: &mut Vec<u8>, b: &Vec<u8>)
    ensures
        final(out)@ == old(out)@ + b@,
{
    let n = b.len();
    let ghost start = out@;
    for i in 0..n
        invariant
            n == b@.len(),
            out@ == start + b@.take(i as int),
    {
        proof {
            assert(b@.take(i + 1) =~= b@.take(i as int).push(b@[i as int]));
            assert((start + b@.take(i as int)).push(b@[i as int]) =~= start + b@.take(i + 1));
        }
        out.push(b[i]);
    }
    proof {
        assert(b@.take(n as int) =~= b@);
    }
}

/// Appends a little-endian u64.
pub fn push_u64(out: &mut Vec<u8>, v: u64)
    ensures
        final(out)@ == old(out)@ + spec_u64_to_le_bytes(v),
{
    let e = u64_to_le_bytes(v);
    push_bytes(out, &e);
}

/// Appends a little-endian u32.
pub fn push_u32(out: &mut Vec<u8>, v: u32)
    ensures
        final(out)@ == old(out)@ + spec_u32_to_le_bytes(v),
{
    let e = u32_to_le_bytes(v);
    push_bytes(out, &e);
}

/// Appends an i64 as its two's-complement little-endian bits.
pub fn push_i64(out: &mut Vec<u8>, v: i64)
    ensures
        final(out)@ == old(out)@ + spec_enc_i64(v),
{
    push_u64(out, v as u64);
}

/// Appends a length-prefixed string.
pub fn push_str(out: &mut Vec<u8>, s: &String)
    ensures
        final(out)@ == old(out)@ + spec_enc_str(s@),
{
    let b = s.as_str().as_bytes_vec();
    push_u64(out, b.len() as u64);
    push_bytes(out, &b);
    proof {
        assert(old(out)@ + spec_u64_to_le_bytes(b@.len() as u64) + b@ =~= old(out)@ + spec_enc_str(
            s@,
        ));
    }
}

/// Appends a length-prefixed u32 list.
pub fn push_u32s(out: &mut Vec<u8>, v: &Vec<u32>)
    ensures
        final(out)@ == old(out)@ + spec_enc_u32s(v@),
{
    let n = v.len();
    push_u64(out, n as u64);
    let ghost start = out@;
    for i in 0..n
        invariant
            n == v@.len(),
            out@ == start + spec_cat_u32s(v@.take(i as int)),
    {
        proof {
            assert(v@.take(i + 1).drop_last() =~= v@.take(i as int));
            assert(v@.take(i + 1).last() == v@[i as int]);
        }
        push_u32(out, v[i]);
        proof {
            assert(start + spec_cat_u32s(v@.take(i as int)) + spec_u32_to_le_bytes(v@[i as int])
                =~= start + spec_cat_u32s(v@.take(i + 1)));
        }
    }
    proof {
        assert(v@.take(n as int) =~= v@);
        assert(old(out)@ + spec_u64_to_le_bytes(n as u64) + spec_cat_u32s(v@) =~= old(out)@
            + spec_enc_u32s(v@));
    }
}

/// Appends a length-prefixed i64 list.
pub fn push_i64s(out: &mut Vec<u8>, v: &Vec<i64>)
    ensures
        final(out)@ == old(out)@ + spec_enc_i64s(v@),
{
    let n = v.len();
    push_u64(out, n as u64);
    let ghost start = out@;
    for i in 0..n
        invariant
            n == v@.len(),
            out@ == start + spec_cat_i64s(v@.take(i as int)),
    {
        proof {
            assert(v@.take(i + 1).drop_last() =~= v@.take(i as int));
            assert(v@.take(i + 1).last() == v@[i as int]);
        }
        push_i64(out, v[i]);
        proof {
            assert(start + spec_cat_i64s(v@.take(i as int)) + spec_enc_i64(v@[i as int]) =~= start
                + spec_cat_i64s(v@.take(i + 1)));
        }
    }
    proof {
        assert(v@.take(n as int) =~= v@);
        assert(old(out)@ + spec_u64_to_le_bytes(n as u64) + spec_cat_i64s(v@) =~= old(out)@
            + spec_enc_i64s(v@));
    }
}

/// Encodes a whole message.
pub fn encode_message(m: &GgsMessage) -> (r: Vec<u8>)
    ensures
        r@ == spec_enc_message(*m),
{
    let mut out: Vec<u8> = Vec::new();
    match m {
        GgsMessage::Heartbeat { peer, model_hash } => {
            out.push(0u8);
            proof {
                assert(out@ =~= seq![0u8]);
            }
            push_str(&mut out, peer);
            push_str(&mut out, model_hash);
        },
        GgsMessage::SparseUpdate { update, sender } => {
            out.push(1u8);
            proof {
                assert(out@ =~= seq![1u8]);
            }
            push_str(&mut out, sender);
            push_u32s(&mut out, &update.indices);
            push_i64s(&mut out, &update.values);
            push_u64(&mut out, update.version);
            proof {
                assert(out@ =~= spec_enc_message(*m));
            }
        },
        GgsMessage::DenseSnapshot { snapshot, sender } => {
            out.push(2u8);
            proof {
                assert(out@ =~= seq![2u8]);
            }
            push_str(&mut out, sender);
            push_u64(&mut out, snapshot.dim as u64);
            push_u64(&mut out, snapshot.version);
            push_i64s(&mut out, &snapshot.values);
            proof {
                assert(out@ =~= spec_enc_message(*m));
            }
        },
        GgsMessage::SimilarityProbe { embedding, position, sender } => {
            out.push(3u8);
            proof {
                assert(out@ =~= seq![3u8]);
            }
            push_str(&mut out, sender);
            push_i64s(&mut out, embedding);
            push_i64(&mut out, position.lat_micro);
            push_i64(&mut out, position.lon_micro);
            proof {
                assert(out@ =~= spec_enc_message(*m));
            }
        },
    }
    proof {
        assert(out@ =~= spec_enc_message(*m));
    }
    out
}

// ---------------------------------------------------------------------------
// building blocks: decoding
// ---------------------------------------------------------------------------
/// Relies on String::from_utf8: it succeeds exactly on valid UTF-8 and
/// yields the decoded characters.
#[verifier::external_body]
fn string_from_utf8(bytes: Vec<u8>) -> (r: Option<String>)
    ensures
        r is Some <==> valid_utf8(bytes@),
        r is Some ==> r->Some_0@ == decode_utf8(bytes@),
{
    match String::from_utf8(bytes) {
        Ok(s) => Some(s),
        Err(_) => None,
    }
}

/// Reads one byte.
pub fn take_u8(b: &Vec<u8>, pos: usize) -> (r: Option<(u8, usize)>)
    ensures
        r is Some <==> pos < b@.len(),
        r is Some ==> r->Some_0.1 == pos + 1 && b@[pos as int] == r->Some_0.0,
{
    if pos < b.len() {
        Some((b[pos], pos + 1))
    } else {
        None
    }
}

/// Reads a little-endian u64.
pub fn take_u64(b: &Vec<u8>, pos: usize) -> (r: Option<(u64, usize)>)
    ensures
        r is Some <==> pos + 8 <= b@.len(),
        r is Some ==> r->Some_0.1 == pos + 8 && b@.subrange(pos as int, pos + 8)
            == spec_u64_to_le_bytes(r->Some_0.0),
{
    if b.len() >= 8 && pos <= b.len() - 8 {
        let w = crate::crypto::vec_range(b, pos, pos + 8);
        let v = u64_from_le_bytes(w.as_slice());
        proof {
            lemma_auto_spec_u64_to_from_le_bytes();
        }
        Some((v, pos + 8))
    } else {
        None
    }
}

/// Reads a little-endian u32.
pub fn take_u32(b: &Vec<u8>, pos: usize) -> (r: Option<(u32, usize)>)
    ensures
        r is Some <==> pos + 4 <= b@.len(),
        r is Some ==> r->Some_0.1 == pos + 4 && b@.subrange(pos as int, pos + 4)
            == spec_u32_to_le_bytes(r->Some_0.0),
{
    if b.len() >= 4 && pos <= b.len() - 4 {
        let w = crate::crypto::vec_range(b, pos, pos + 4);
        let v = u32_from_le_bytes(w.as_slice());
        proof {
            lemma_auto_spec_u32_to_from_le_bytes();
        }
        Some((v, pos + 4))
    } else {
        None
    }
}

/// Reads an i64 from its two's-complement little-endian bits.
pub fn take_i64(b: &Vec<u8>, pos: usize) -> (r: Option<(i64, usize)>)
    ensures
        r is Some <==> pos + 8 <= b@.len(),
        r is Some ==> r->Some_0.1 == pos + 8 && b@.subrange(pos as int, pos + 8) == spec_enc_i64(
            r->Some_0.0,
        ),
{
    match take_u64(b, pos) {
        Some((v, p)) => {
            let x = v as i64;
            proof {
                assert((x as u64) == v) by (bit_vector)
                    requires
                        x == v as i64,
                ;
            }
            Some((x, p))
        },
        None => None,
    }
}

/// Reads a length-prefixed byte string. It accepts exactly the canonical
/// encodings: whatever it reads re-encodes to the consumed bytes, and bytes
/// that start with an encoded byte string are always read.
pub fn take_bytes(b: &Vec<u8>, pos: usize) -> (r: Option<(Vec<u8>, usize)>)
    requires
        pos <= b@.len(),
    ensures
        r is Some ==> r->Some_0.1 == pos + 8 + r->Some_0.0@.len() && r->Some_0.1 <= b@.len()
            && b@.subrange(pos as int, r->Some_0.1 as int) == spec_enc_bytes(r->Some_0.0@),
        forall|x: Seq<u8>, rest: Seq<u8>|
            b@.subrange(pos as int, b@.len() as int) == spec_enc_bytes(x) + rest ==> (r is Some
                && r->Some_0.0@ == x && r->Some_0.1 == pos + 8 + x.len()),
{
    proof {
        lemma_auto_spec_u64_to_from_le_bytes();
        assert forall|x: Seq<u8>, rest: Seq<u8>|
            b@.subrange(pos as int, b@.len() as int) == spec_enc_bytes(x) + rest implies pos + 8
            + x.len() <= b@.len() && b@.subrange(pos as int, pos + 8) == spec_u64_to_le_bytes(
            x.len() as u64,
        ) && b@.subrange(pos + 8, pos + 8 + x.len() as int) == x by {
            assert(spec_u64_to_le_bytes(x.len() as u64).len() == 8);
            assert(spec_enc_bytes(x).len() == 8 + x.len());
            assert(b@.subrange(pos as int, b@.len() as int).len() == spec_enc_bytes(x).len()
                + rest.len());
            assert(b@.len() - pos == 8 + x.len() + rest.len());
            assert forall|q: int| 0 <= q < 8 implies #[trigger] b@[pos + q]
                == spec_u64_to_le_bytes(x.len() as u64)[q] by {
                assert(b@.subrange(pos as int, b@.len() as int)[q] == (spec_enc_bytes(x)
                    + rest)[q]);
                assert((spec_enc_bytes(x) + rest)[q] == spec_enc_bytes(x)[q]);
            }
            assert(b@.subrange(pos as int, pos + 8) =~= spec_u64_to_le_bytes(x.len() as u64));
            assert forall|q: int| 0 <= q < x.len() implies #[trigger] b@[pos + 8 + q] == x[q] by {
                assert(b@.subrange(pos as int, b@.len() as int)[8 + q] == (spec_enc_bytes(x)
                    + rest)[8 + q]);
                assert((spec_enc_bytes(x) + rest)[8 + q] == spec_enc_bytes(x)[8 + q]);
                assert(spec_enc_bytes(x)[8 + q] == x[q]);
            }
            assert(b@.subrange(pos + 8, pos + 8 + x.len() as int).len() == x.len());
            assert forall|q: int|
                0 <= q < x.len() implies b@.subrange(pos + 8, pos + 8 + x.len() as int)[q]
                == x[q] by {
                assert(b@[pos + 8 + q] == x[q]);
            }
            assert(b@.subrange(pos + 8, pos + 8 + x.len() as int) =~= x);
        }
    }
    let blen = b.len();
    let nres = take_u64(b, pos);
    proof {
        if nres is Some {
            let n = nres->Some_0.0;
            assert forall|x: Seq<u8>, rest: Seq<u8>|
                b@.subrange(pos as int, b@.len() as int) == spec_enc_bytes(x)
                    + rest implies x.len() == n as int by {
                assert(b@.subrange(pos as int, pos + 8) == spec_u64_to_le_bytes(n));
                assert(b@.subrange(pos as int, pos + 8) == spec_u64_to_le_bytes(x.len() as u64));
                assert(spec_u64_from_le_bytes(spec_u64_to_le_bytes(n)) == n);
                assert(spec_u64_from_le_bytes(spec_u64_to_le_bytes(x.len() as u64)) == x.len()
                    as u64);
                assert(pos + 8 + x.len() <= b@.len());
                assert(x.len() <= blen);
                assert((x.len() as u64) as int == x.len());
            }
        }
    }
    match nres {
        Some((n, p)) => {
            if n <= (usize::MAX as u64) && (n as usize) <= b.len() && p <= b.len() - (n as usize) {
                let body = crate::crypto::vec_range(b, p, p + (n as usize));
                proof {
                    assert(b@.subrange(pos as int, p + n as int) =~= b@.subrange(
                        pos as int,
                        p as int,
                    ) + b@.subrange(p as int, p + n as int));
                    assert(b@.subrange(pos as int, p + n as int) =~= spec_enc_bytes(body@));
                }
                Some((body, p + (n as usize)))
            } else {
                None
            }
        },
        None => None,
    }
}

/// Reads a length-prefixed string, rejecting bytes that are not UTF-8. It
/// accepts exactly the canonical encodings: bytes that start with an encoded
/// string are always read back to that string.
pub fn take_string(b: &Vec<u8>, pos: usize) -> (r: Option<(String, usize)>)
    requires
        pos <= b@.len(),
    ensures
        r is Some ==> r->Some_0.1 <= b@.len() && pos <= r->Some_0.1 && b@.subrange(
            pos as int,
            r->Some_0.1 as int,
        ) == spec_enc_str(r->Some_0.0@),
        forall|t: Seq<char>, rest: Seq<u8>|
            b@.subrange(pos as int, b@.len() as int) == spec_enc_str(t) + rest ==> (r is Some
                && r->Some_0.0@ == t && r->Some_0.1 == pos + 8 + encode_utf8(t).len()),
{
    proof {
        assert forall|t: Seq<char>, rest: Seq<u8>|
            b@.subrange(pos as int, b@.len() as int) == spec_enc_str(t) + rest implies valid_utf8(
            encode_utf8(t),
        ) && decode_utf8(encode_utf8(t)) == t by {
            vstd::utf8::encode_utf8_valid_utf8(t);
            vstd::utf8::encode_utf8_decode_utf8(t);
        }
    }
    match take_bytes(b, pos) {
        Some((body, p)) => {
            let ghost body_bytes = body@;
            match string_from_utf8(body) {
                Some(s) => {
                    proof {
                        decode_utf8_encode_utf8(body_bytes);
                        assert(encode_utf8(s@) == body_bytes);
                    }
                    Some((s, p))
                },
                None => None,
            }
        },
        None => None,
    }
}

/// Reads a length-prefixed u32 list. It accepts exactly the canonical
/// encodings: bytes that start with an encoded list are always read back to
/// that list.
#[verifier::loop_isolation(false)]
#[verifier::rlimit(100)]
pub fn take_u32s(b: &Vec<u8>, pos: usize) -> (r: Option<(Vec<u32>, usize)>)
    requires
        pos <= b@.len(),
    ensures
        r is Some ==> r->Some_0.1 <= b@.len() && pos <= r->Some_0.1 && b@.subrange(
            pos as int,
            r->Some_0.1 as int,
        ) == spec_enc_u32s(r->Some_0.0@),
        forall|v: Seq<u32>, rest: Seq<u8>|
            b@.subrange(pos as int, b@.len() as int) == spec_enc_u32s(v) + rest ==> (r is Some
                && r->Some_0.0@ == v && r->Some_0.1 == pos + 8 + 4 * v.len()),
{
    let blen = b.len();
    let nres = take_u64(b, pos);
    proof {
        assert forall|v: Seq<u32>, rest: Seq<u8>|
            b@.subrange(pos as int, b@.len() as int) == spec_enc_u32s(v) + rest implies pos + 8 + 4
            * v.len() <= blen && nres is Some && v.len() == nres->Some_0.0 as int && (forall|
                w: int,
                q: int,
            |
                0 <= w < v.len() && 0 <= q < 4 ==> #[trigger] b@[pos + 8 + 4 * w + q]
                    == spec_u32_to_le_bytes(v[w])[q]) by {
            lemma_auto_spec_u64_to_from_le_bytes();
            lemma_cat_u32s_len(v);
            assert(b@.subrange(pos as int, b@.len() as int).len() == spec_enc_u32s(v).len()
                + rest.len());
            assert forall|q: int| 0 <= q < 8 implies #[trigger] b@[pos + q]
                == spec_u64_to_le_bytes(v.len() as u64)[q] by {
                assert(b@.subrange(pos as int, b@.len() as int)[q] == (spec_enc_u32s(v)
                    + rest)[q]);
                assert((spec_enc_u32s(v) + rest)[q] == spec_enc_u32s(v)[q]);
            }
            assert(b@.subrange(pos as int, pos + 8) =~= spec_u64_to_le_bytes(v.len() as u64));
            if nres is Some {
                let n = nres->Some_0.0;
                assert(b@.subrange(pos as int, pos + 8) == spec_u64_to_le_bytes(n));
                assert(spec_u64_from_le_bytes(spec_u64_to_le_bytes(n)) == n);
                assert(spec_u64_from_le_bytes(spec_u64_to_le_bytes(v.len() as u64)) == v.len()
                    as u64);
                assert((v.len() as u64) as int == v.len());
            }
            assert forall|w: int, q: int|
                0 <= w < v.len() && 0 <= q < 4 implies #[trigger] b@[pos + 8 + 4 * w + q]
                == spec_u32_to_le_bytes(v[w])[q] by {
                lemma_cat_u32s_slice(v, w);
                assert(b@.subrange(pos as int, b@.len() as int)[8 + 4 * w + q] == (spec_enc_u32s(v)
                    + rest)[8 + 4 * w + q]);
                assert((spec_enc_u32s(v) + rest)[8 + 4 * w + q] == spec_cat_u32s(v)[4 * w + q]);
            }
        }
    }
    let (n64, mut p) = match nres {
        Some(x) => x,
        None => {
            return None;
        },
    };
    if n64 > (usize::MAX as u64) / 4 {
        proof {
            assert forall|v: Seq<u32>, rest: Seq<u8>|
                b@.subrange(pos as int, b@.len() as int) == spec_enc_u32s(v)
                    + rest implies false by {
                assert(4 * v.len() <= blen);
            }
        }
        return None;
    }
    let n = n64 as usize;
    let mut out: Vec<u32> = Vec::new();
    let ghost p0 = p;
    for i in 0..n
        invariant
            out@.len() == i,
            p0 <= p <= b@.len(),
            p == p0 + 4 * i,
            b@.subrange(p0 as int, p as int) == spec_cat_u32s(out@),
            forall|v: Seq<u32>, rest: Seq<u8>|
                b@.subrange(pos as int, b@.len() as int) == spec_enc_u32s(v) + rest ==> out@
                    == v.take(i as int),
    {
        proof {
            assert forall|v: Seq<u32>, rest: Seq<u8>|
                b@.subrange(pos as int, b@.len() as int) == spec_enc_u32s(v) + rest implies p + 4
                <= blen by {
            }
        }
        let (w, p2) = match take_u32(b, p) {
            Some(x) => x,
            None => {
                return None;
            },
        };
        let ghost old_out = out@;
        out.push(w);
        proof {
            assert(out@.drop_last() =~= old_out);
            assert(b@.subrange(p0 as int, p2 as int) =~= b@.subrange(p0 as int, p as int)
                + b@.subrange(p as int, p2 as int));
            assert forall|v: Seq<u32>, rest: Seq<u8>|
                b@.subrange(pos as int, b@.len() as int) == spec_enc_u32s(v) + rest implies out@
                == v.take(i + 1) by {
                lemma_auto_spec_u32_to_from_le_bytes();
                assert(old_out == v.take(i as int));
                assert forall|q: int| 0 <= q < 4 implies b@.subrange(p as int, p2 as int)[q]
                    == spec_u32_to_le_bytes(v[i as int])[q] by {
                    assert(b@[pos + 8 + 4 * i + q] == spec_u32_to_le_bytes(v[i as int])[q]);
                }
                assert(b@.subrange(p as int, p2 as int) =~= spec_u32_to_le_bytes(v[i as int]));
                assert(spec_u32_from_le_bytes(spec_u32_to_le_bytes(w)) == w);
                assert(spec_u32_from_le_bytes(spec_u32_to_le_bytes(v[i as int])) == v[i as int]);
                assert(out@ =~= v.take(i + 1));
            }
        }
        p = p2;
    }
    proof {
        assert(b@.subrange(pos as int, p as int) =~= b@.subrange(pos as int, p0 as int)
            + b@.subrange(p0 as int, p as int));
        assert forall|v: Seq<u32>, rest: Seq<u8>|
            b@.subrange(pos as int, b@.len() as int) == spec_enc_u32s(v) + rest implies out@
            == v by {
            assert(out@ == v.take(n as int));
            assert(v.take(n as int) =~= v);
        }
    }
    Some((out, p))
}

/// Reads a length-prefixed i64 list. It accepts exactly the canonical
/// encodings: bytes that start with an encoded list are always read back to
/// that list.
#[verifier::loop_isolation(false)]
#[verifier::rlimit(100)]
pub fn take_i64s(b: &Vec<u8>, pos: usize) -> (r: Option<(Vec<i64>, usize)>)
    requires
        pos <= b@.len(),
    ensures
        r is Some ==> r->Some_0.1 <= b@.len() && pos <= r->Some_0.1 && b@.subrange(
            pos as int,
            r->Some_0.1 as int,
        ) == spec_enc_i64s(r->Some_0.0@),
        forall|v: Seq<i64>, rest: Seq<u8>|
            b@.subrange(pos as int, b@.len() as int) == spec_enc_i64s(v) + rest ==> (r is Some
                && r->Some_0.0@ == v && r->Some_0.1 == pos + 8 + 8 * v.len()),
{
    let blen = b.len();
    let nres = take_u64(b, pos);
    proof {
        assert forall|v: Seq<i64>, rest: Seq<u8>|
            b@.subrange(pos as int, b@.len() as int) == spec_enc_i64s(v) + rest implies pos + 8 + 8
            * v.len() <= blen && nres is Some && v.len() == nres->Some_0.0 as int && (forall|
                w: int,
                q: int,
            |
                0 <= w < v.len() && 0 <= q < 8 ==> #[trigger] b@[pos + 8 + 8 * w + q]
                    == spec_enc_i64(v[w])[q]) by {
            lemma_auto_spec_u64_to_from_le_bytes();
            lemma_cat_i64s_len(v);
            assert(b@.subrange(pos as int, b@.len() as int).len() == spec_enc_i64s(v).len()
                + rest.len());
            assert forall|q: int| 0 <= q < 8 implies #[trigger] b@[pos + q]
                == spec_u64_to_le_bytes(v.len() as u64)[q] by {
                assert(b@.subrange(pos as int, b@.len() as int)[q] == (spec_enc_i64s(v)
                    + rest)[q]);
                assert((spec_enc_i64s(v) + rest)[q] == spec_enc_i64s(v)[q]);
            }
            assert(b@.subrange(pos as int, pos + 8) =~= spec_u64_to_le_bytes(v.len() as u64));
            if nres is Some {
                let n = nres->Some_0.0;
                assert(b@.subrange(pos as int, pos + 8) == spec_u64_to_le_bytes(n));
                assert(spec_u64_from_le_bytes(spec_u64_to_le_bytes(n)) == n);
                assert(spec_u64_from_le_bytes(spec_u64_to_le_bytes(v.len() as u64)) == v.len()
                    as u64);
                assert((v.len() as u64) as int == v.len());
            }
            assert forall|w: int, q: int|
                0 <= w < v.len() && 0 <= q < 8 implies #[trigger] b@[pos + 8 + 8 * w + q]
                == spec_enc_i64(v[w])[q] by {
                lemma_cat_i64s_slice(v, w);
                assert(b@.subrange(pos as int, b@.len() as int)[8 + 8 * w + q] == (spec_enc_i64s(v)
                    + rest)[8 + 8 * w + q]);
                assert((spec_enc_i64s(v) + rest)[8 + 8 * w + q] == spec_cat_i64s(v)[8 * w + q]);
            }
        }
    }
    let (n64, mut p) = match nres {
        Some(x) => x,
        None => {
            return None;
        },
    };
    if n64 > (usize::MAX as u64) / 8 {
        proof {
            assert forall|v: Seq<i64>, rest: Seq<u8>|
                b@.subrange(pos as int, b@.len() as int) == spec_enc_i64s(v)
                    + rest implies false by {
                assert(8 * v.len() <= blen);
            }
        }
        return None;
    }
    let n = n64 as usize;
    let mut out: Vec<i64> = Vec::new();
    let ghost p0 = p;
    for i in 0..n
        invariant
            out@.len() == i,
            p0 <= p <= b@.len(),
            p == p0 + 8 * i,
            b@.subrange(p0 as int, p as int) == spec_cat_i64s(out@),
            forall|v: Seq<i64>, rest: Seq<u8>|
                b@.subrange(pos as int, b@.len() as int) == spec_enc_i64s(v) + rest ==> out@
                    == v.take(i as int),
    {
        proof {
            assert forall|v: Seq<i64>, rest: Seq<u8>|
                b@.subrange(pos as int, b@.len() as int) == spec_enc_i64s(v) + rest implies p + 8
                <= blen by {
            }
        }
        let (w, p2) = match take_i64(b, p) {
            Some(x) => x,
            None => {
                return None;
            },
        };
        let ghost old_out = out@;
        out.push(w);
        proof {
            assert(out@.drop_last() =~= old_out);
            assert(b@.subrange(p0 as int, p2 as int) =~= b@.subrange(p0 as int, p as int)
                + b@.subrange(p as int, p2 as int));
            assert forall|v: Seq<i64>, rest: Seq<u8>|
                b@.subrange(pos as int, b@.len() as int) == spec_enc_i64s(v) + rest implies out@
                == v.take(i + 1) by {
                lemma_auto_spec_u64_to_from_le_bytes();
                assert(old_out == v.take(i as int));
                assert forall|q: int| 0 <= q < 8 implies b@.subrange(p as int, p2 as int)[q]
                    == spec_enc_i64(v[i as int])[q] by {
                    assert(b@[pos + 8 + 8 * i + q] == spec_enc_i64(v[i as int])[q]);
                }
                assert(b@.subrange(p as int, p2 as int) =~= spec_enc_i64(v[i as int]));
                let ve: i64 = v[i as int];
                assert(spec_u64_from_le_bytes(spec_u64_to_le_bytes(w as u64)) == w as u64);
                assert(spec_u64_from_le_bytes(spec_u64_to_le_bytes(ve as u64)) == ve as u64);
                assert(w as u64 == ve as u64);
                assert(w == ve) by (bit_vector)
                    requires
                        w as u64 == ve as u64,
                ;
                assert(out@ =~= v.take(i + 1));
            }
        }
        p = p2;
    }
    proof {
        assert(b@.subrange(pos as int, p as int) =~= b@.subrange(pos as int, p0 as int)
            + b@.subrange(p0 as int, p as int));
        assert forall|v: Seq<i64>, rest: Seq<u8>|
            b@.subrange(pos as int, b@.len() as int) == spec_enc_i64s(v) + rest implies out@
            == v by {
            assert(out@ == v.take(n as int));
            assert(v.take(n as int) =~= v);
        }
    }
    Some((out, p))
}

/// Whether every element lies within [-lim, lim].
#[verifier::loop_isolation(false)]
pub fn check_i64_bounds(v: &Vec<i64>, lim: i64) -> (r: bool)
    requires
        0 <= lim < i64::MAX,
    ensures
        r == forall|i: int| 0 <= i < v@.len() ==> -lim <= #[trigger] v@[i] <= lim,
{
    let n = v.len();
    for i in 0..n
        invariant
            n == v@.len(),
            forall|j: int| 0 <= j < i ==> -lim <= #[trigger] v@[j] <= lim,
    {
        if v[i] > lim || v[i] < -lim {
            return false;
        }
    }
    true
}

/// Whether a decoded sparse update is well formed on the wire: matching
/// lengths, ascending positive deltas staying under the index cap, and
/// values inside the clip bound.
pub fn sparse_wf_check(u: &SparseUpdate) -> (r: bool)
    ensures
        r == u.wf(),
{
    if u.indices.len() != u.values.len() {
        return false;
    }
    if !check_i64_bounds(&u.values, VALUE_LIMIT) {
        return false;
    }
    let n = u.indices.len();
    let mut sum: u64 = 0;
    for i in 0..n
        invariant
            n == u.indices@.len(),
            i > 0 ==> sum == spec_abs_index(u.indices@, i - 1),
            i == 0 ==> sum == 0,
            sum <= u32::MAX,
            forall|j: int| 1 <= j < i ==> #[trigger] u.indices@[j] >= 1,
    {
        if i > 0 && u.indices[i] == 0 {
            return false;
        }
        let next = sum + (u.indices[i] as u64);
        if next > (u32::MAX as u64) {
            proof {
                crate::types::lemma_abs_index_nondecreasing(u.indices@, i as int, n as int - 1);
            }
            return false;
        }
        sum = next;
    }
    true
}

/// Law of the wire layout: a tail equality splits at a known boundary.
pub proof fn lemma_tail_shift(b: Seq<u8>, lo: int, mid: int, x: Seq<u8>, y: Seq<u8>)
    requires
        0 <= lo <= b.len(),
        lo <= mid <= b.len(),
        b.subrange(lo, b.len() as int) == x + y,
        mid - lo == x.len(),
    ensures
        b.subrange(lo, mid) == x,
        b.subrange(mid, b.len() as int) == y,
{
    assert(b.subrange(lo, b.len() as int).len() == x.len() + y.len());
    assert forall|q: int| 0 <= q < x.len() implies b.subrange(lo, mid)[q] == x[q] by {
        assert(b.subrange(lo, b.len() as int)[q] == (x + y)[q]);
        assert((x + y)[q] == x[q]);
        assert(b.subrange(lo, b.len() as int)[q] == b[lo + q]);
        assert(b.subrange(lo, mid)[q] == b[lo + q]);
    }
    assert(b.subrange(lo, mid) =~= x);
    assert forall|q: int| 0 <= q < y.len() implies b.subrange(mid, b.len() as int)[q] == y[q] by {
        assert(b.subrange(lo, b.len() as int)[x.len() + q] == (x + y)[x.len() + q]);
        assert((x + y)[x.len() + q] == y[q]);
        assert(b.subrange(lo, b.len() as int)[x.len() + q] == b[lo + x.len() + q]);
        assert(b.subrange(mid, b.len() as int)[q] == b[mid + q]);
    }
    assert(b.subrange(mid, b.len() as int).len() == y.len());
    assert(b.subrange(mid, b.len() as int) =~= y);
}

/// A message encoding that begins with the heartbeat tag is a heartbeat's,
/// and its fields follow the tag.
proof fn lemma_msg_hyp_heartbeat(b: Seq<u8>, pos: int, m: GgsMessage, rest: Seq<u8>)
    requires
        0 <= pos < b.len(),
        b.subrange(pos, b.len() as int) == spec_enc_message(m) + rest,
        b[pos] == 0,
    ensures
        m is Heartbeat,
        m matches GgsMessage::Heartbeat { peer, model_hash } ==> b.subrange(
            pos + 1,
            b.len() as int,
        ) == spec_enc_str(peer@) + (spec_enc_str(model_hash@) + rest) && spec_enc_message(m).len()
            == 1 + spec_enc_str(peer@).len() + spec_enc_str(model_hash@).len(),
{
    assert(b.subrange(pos, b.len() as int)[0] == (spec_enc_message(m) + rest)[0]);
    match m {
        GgsMessage::Heartbeat { peer, model_hash } => {
            assert(spec_enc_message(m) + rest =~= seq![0u8] + (spec_enc_str(peer@) + (spec_enc_str(
                model_hash@,
            ) + rest)));
            lemma_tail_shift(
                b,
                pos,
                pos + 1,
                seq![0u8],
                spec_enc_str(peer@) + (spec_enc_str(model_hash@) + rest),
            );
        },
        GgsMessage::SparseUpdate { .. } => {
            assert((spec_enc_message(m) + rest)[0] == 1u8);
        },
        GgsMessage::DenseSnapshot { .. } => {
            assert((spec_enc_message(m) + rest)[0] == 2u8);
        },
        GgsMessage::SimilarityProbe { .. } => {
            assert((spec_enc_message(m) + rest)[0] == 3u8);
        },
    }
}

/// A message encoding that begins with the sparse tag is a sparse update's,
/// and its fields follow the tag.
proof fn lemma_msg_hyp_sparse(b: Seq<u8>, pos: int, m: GgsMessage, rest: Seq<u8>)
    requires
        0 <= pos < b.len(),
        b.subrange(pos, b.len() as int) == spec_enc_message(m) + rest,
        b[pos] == 1,
    ensures
        m is SparseUpdate,
        m matches GgsMessage::SparseUpdate { update, sender } ==> b.subrange(
            pos + 1,
            b.len() as int,
        ) == spec_enc_str(sender@) + (spec_enc_u32s(update.indices@) + (spec_enc_i64s(
            update.values@,
        ) + (spec_u64_to_le_bytes(update.version) + rest))) && spec_enc_message(m).len() == 1
            + spec_enc_str(sender@).len() + spec_enc_u32s(update.indices@).len() + spec_enc_i64s(
            update.values@,
        ).len() + 8,
{
    assert(b.subrange(pos, b.len() as int)[0] == (spec_enc_message(m) + rest)[0]);
    match m {
        GgsMessage::SparseUpdate { update, sender } => {
            vstd::bytes::lemma_auto_spec_u64_to_from_le_bytes();
            assert(spec_enc_message(m) + rest =~= seq![1u8] + (spec_enc_str(sender@) + (
            spec_enc_u32s(update.indices@) + (spec_enc_i64s(update.values@) + (
            spec_u64_to_le_bytes(update.version) + rest)))));
            lemma_tail_shift(
                b,
                pos,
                pos + 1,
                seq![1u8],
                spec_enc_str(sender@) + (spec_enc_u32s(update.indices@) + (spec_enc_i64s(
                    update.values@,
                ) + (spec_u64_to_le_bytes(update.version) + rest))),
            );
        },
        GgsMessage::Heartbeat { .. } => {
            assert((spec_enc_message(m) + rest)[0] == 0u8);
        },
        GgsMessage::DenseSnapshot { .. } => {
            assert((spec_enc_message(m) + rest)[0] == 2u8);
        },
        GgsMessage::SimilarityProbe { .. } => {
            assert((spec_enc_message(m) + rest)[0] == 3u8);
        },
    }
}

/// A message encoding that begins with the dense tag is a dense snapshot's,
/// and its fields follow the tag.
proof fn lemma_msg_hyp_dense(b: Seq<u8>, pos: int, m: GgsMessage, rest: Seq<u8>)
    requires
        0 <= pos < b.len(),
        b.subrange(pos, b.len() as int) == spec_enc_message(m) + rest,
        b[pos] == 2,
    ensures
        m is DenseSnapshot,
        m matches GgsMessage::DenseSnapshot { snapshot, sender } ==> b.subrange(
            pos + 1,
            b.len() as int,
        ) == spec_enc_str(sender@) + (spec_u64_to_le_bytes(snapshot.dim as u64) + (
        spec_u64_to_le_bytes(snapshot.version) + (spec_enc_i64s(snapshot.values@) + rest)))
            && spec_enc_message(m).len() == 1 + spec_enc_str(sender@).len() + 16 + spec_enc_i64s(
            snapshot.values@,
        ).len(),
{
    assert(b.subrange(pos, b.len() as int)[0] == (spec_enc_message(m) + rest)[0]);
    match m {
        GgsMessage::DenseSnapshot { snapshot, sender } => {
            vstd::bytes::lemma_auto_spec_u64_to_from_le_bytes();
            assert(spec_enc_message(m) + rest =~= seq![2u8] + (spec_enc_str(sender@) + (
            spec_u64_to_le_bytes(snapshot.dim as u64) + (spec_u64_to_le_bytes(snapshot.version) + (
            spec_enc_i64s(snapshot.values@) + rest)))));
            lemma_tail_shift(
                b,
                pos,
                pos + 1,
                seq![2u8],
                spec_enc_str(sender@) + (spec_u64_to_le_bytes(snapshot.dim as u64) + (
                spec_u64_to_le_bytes(snapshot.version) + (spec_enc_i64s(snapshot.values@)
                    + rest))),
            );
        },
        GgsMessage::Heartbeat { .. } => {
            assert((spec_enc_message(m) + rest)[0] == 0u8);
        },
        GgsMessage::SparseUpdate { .. } => {
            assert((spec_enc_message(m) + rest)[0] == 1u8);
        },
        GgsMessage::SimilarityProbe { .. } => {
            assert((spec_enc_message(m) + rest)[0] == 3u8);
        },
    }
}

/// A message encoding that begins with the probe tag is a similarity probe's,
/// and its fields follow the tag.
proof fn lemma_msg_hyp_probe(b: Seq<u8>, pos: int, m: GgsMessage, rest: Seq<u8>)
    requires
        0 <= pos < b.len(),
        b.subrange(pos, b.len() as int) == spec_enc_message(m) + rest,
        b[pos] == 3,
    ensures
        m is SimilarityProbe,
        m matches GgsMessage::SimilarityProbe { embedding, position, sender } ==> b.subrange(
            pos + 1,
            b.len() as int,
        ) == spec_enc_str(sender@) + (spec_enc_i64s(embedding@) + (spec_enc_i64(position.lat_micro)
            + (spec_enc_i64(position.lon_micro) + rest))) && spec_enc_message(m).len() == 1
            + spec_enc_str(sender@).len() + spec_enc_i64s(embedding@).len() + 16,
{
    assert(b.subrange(pos, b.len() as int)[0] == (spec_enc_message(m) + rest)[0]);
    match m {
        GgsMessage::SimilarityProbe { embedding, position, sender } => {
            vstd::bytes::lemma_auto_spec_u64_to_from_le_bytes();
            assert(spec_enc_message(m) + rest =~= seq![3u8] + (spec_enc_str(sender@) + (
            spec_enc_i64s(embedding@) + (spec_enc_i64(position.lat_micro) + (spec_enc_i64(
                position.lon_micro,
            ) + rest)))));
            lemma_tail_shift(
                b,
                pos,
                pos + 1,
                seq![3u8],
                spec_enc_str(sender@) + (spec_enc_i64s(embedding@) + (spec_enc_i64(
                    position.lat_micro,
                ) + (spec_enc_i64(position.lon_micro) + rest))),
            );
        },
        GgsMessage::Heartbeat { .. } => {
            assert((spec_enc_message(m) + rest)[0] == 0u8);
        },
        GgsMessage::SparseUpdate { .. } => {
            assert((spec_enc_message(m) + rest)[0] == 1u8);
        },
        GgsMessage::DenseSnapshot { .. } => {
            assert((spec_enc_message(m) + rest)[0] == 2u8);
        },
    }
}

/// Decodes one message starting at `pos`. What it accepts is exactly the
/// canonical encoding of a well-formed message: whatever it reads re-encodes
/// to the consumed bytes, and bytes that start with such an encoding are
/// always read.
#[verifier::rlimit(100)]
#[verifier::spinoff_prover]
pub fn decode_message(b: &Vec<u8>, pos: usize) -> (r: Option<(GgsMessage, usize)>)
    requires
        pos <= b@.len(),
    ensures
        r is Some ==> r->Some_0.1 <= b@.len() && pos <= r->Some_0.1 && b@.subrange(
            pos as int,
            r->Some_0.1 as int,
        ) == spec_enc_message(r->Some_0.0) && r->Some_0.0.wf(),
        forall|m: GgsMessage, rest: Seq<u8>|
            m.wf() && b@.subrange(pos as int, b@.len() as int) == spec_enc_message(m) + rest ==> (
            r is Some && r->Some_0.1 == pos + spec_enc_message(m).len()),
{
    let ghost blen = b@.len() as int;
    let (tag, p1) = match take_u8(b, pos) {
        Some(x) => x,
        None => {
            proof {
                assert forall|m: GgsMessage, rest: Seq<u8>|
                    m.wf() && b@.subrange(pos as int, blen) == spec_enc_message(m)
                        + rest implies false by {
                    assert(b@.subrange(pos as int, blen).len() >= 1);
                }
            }
            return None;
        },
    };
    proof {
        assert(b@.subrange(pos as int, pos + 1) =~= seq![b@[pos as int]]);
    }
    if tag == 0 {
        let sres1 = take_string(b, p1);
        proof {
            assert forall|m: GgsMessage, rest: Seq<u8>|
                m.wf() && b@.subrange(pos as int, blen) == spec_enc_message(m)
                    + rest implies sres1 is Some by {
                lemma_msg_hyp_heartbeat(b@, pos as int, m, rest);
            }
        }
        let (peer, p2) = match sres1 {
            Some(x) => x,
            None => {
                return None;
            },
        };
        let sres2 = take_string(b, p2);
        proof {
            assert forall|m: GgsMessage, rest: Seq<u8>|
                m.wf() && b@.subrange(pos as int, blen) == spec_enc_message(m)
                    + rest implies sres2 is Some && (m matches GgsMessage::Heartbeat {
                peer: mp,
                model_hash: mh,
            } ==> p2 == p1 + spec_enc_str(mp@).len() && b@.subrange(p2 as int, blen)
                == spec_enc_str(mh@) + rest) by {
                lemma_msg_hyp_heartbeat(b@, pos as int, m, rest);
                vstd::bytes::lemma_auto_spec_u64_to_from_le_bytes();
                if let GgsMessage::Heartbeat { peer: mp, model_hash: mh } = m {
                    assert(p2 == p1 + 8 + encode_utf8(mp@).len());
                    lemma_tail_shift(
                        b@,
                        p1 as int,
                        p2 as int,
                        spec_enc_str(mp@),
                        spec_enc_str(mh@) + rest,
                    );
                }
            }
        }
        let (model_hash, p3) = match sres2 {
            Some(x) => x,
            None => {
                return None;
            },
        };
        let m = GgsMessage::Heartbeat { peer, model_hash };
        proof {
            assert(b@.subrange(pos as int, p3 as int) =~= b@.subrange(pos as int, pos + 1)
                + b@.subrange(p1 as int, p2 as int) + b@.subrange(p2 as int, p3 as int));
            assert forall|m2: GgsMessage, rest: Seq<u8>|
                m2.wf() && b@.subrange(pos as int, blen) == spec_enc_message(m2)
                    + rest implies p3 == pos + spec_enc_message(m2).len() by {
                lemma_msg_hyp_heartbeat(b@, pos as int, m2, rest);
                vstd::bytes::lemma_auto_spec_u64_to_from_le_bytes();
                if let GgsMessage::Heartbeat { peer: mp, model_hash: mh } = m2 {
                    assert(spec_enc_str(mp@).len() == 8 + encode_utf8(mp@).len());
                    assert(spec_enc_str(mh@).len() == 8 + encode_utf8(mh@).len());
                    assert(p2 == p1 + spec_enc_str(mp@).len());
                    lemma_tail_shift(
                        b@,
                        p1 as int,
                        p2 as int,
                        spec_enc_str(mp@),
                        spec_enc_str(mh@) + rest,
                    );
                    assert(b@.subrange(p2 as int, blen) == spec_enc_str(mh@) + rest);
                    assert(p3 == p2 + 8 + encode_utf8(mh@).len());
                    assert(spec_enc_message(m2).len() == 1 + spec_enc_str(mp@).len()
                        + spec_enc_str(mh@).len());
                }
            }
        }
        Some((m, p3))
    } else if tag == 1 {
        let sres1 = take_string(b, p1);
        proof {
            assert forall|m: GgsMessage, rest: Seq<u8>|
                m.wf() && b@.subrange(pos as int, blen) == spec_enc_message(m)
                    + rest implies sres1 is Some by {
                lemma_msg_hyp_sparse(b@, pos as int, m, rest);
            }
        }
        let (sender, p2) = match sres1 {
            Some(x) => x,
            None => {
                return None;
            },
        };
        let ures = take_u32s(b, p2);
        proof {
            assert forall|m: GgsMessage, rest: Seq<u8>|
                m.wf() && b@.subrange(pos as int, blen) == spec_enc_message(m)
                    + rest implies ures is Some && (m matches GgsMessage::SparseUpdate {
                update,
                sender: ms,
            } ==> p2 == p1 + spec_enc_str(ms@).len() && b@.subrange(p2 as int, blen)
                == spec_enc_u32s(update.indices@) + (spec_enc_i64s(update.values@) + (
            spec_u64_to_le_bytes(update.version) + rest))) by {
                lemma_msg_hyp_sparse(b@, pos as int, m, rest);
                vstd::bytes::lemma_auto_spec_u64_to_from_le_bytes();
                if let GgsMessage::SparseUpdate { update, sender: ms } = m {
                    assert(p2 == p1 + 8 + encode_utf8(ms@).len());
                    lemma_tail_shift(
                        b@,
                        p1 as int,
                        p2 as int,
                        spec_enc_str(ms@),
                        spec_enc_u32s(update.indices@) + (spec_enc_i64s(update.values@) + (
                        spec_u64_to_le_bytes(update.version) + rest)),
                    );
                }
            }
        }
        let (indices, p3) = match ures {
            Some(x) => x,
            None => {
                return None;
            },
        };
        let vres = take_i64s(b, p3);
        proof {
            assert forall|m: GgsMessage, rest: Seq<u8>|
                m.wf() && b@.subrange(pos as int, blen) == spec_enc_message(m)
                    + rest implies vres is Some && (m matches GgsMessage::SparseUpdate {
                update,
                sender: ms,
            } ==> indices@ == update.indices@ && p3 == p2 + spec_enc_u32s(update.indices@).len()
                && b@.subrange(p3 as int, blen) == spec_enc_i64s(update.values@) + (
            spec_u64_to_le_bytes(update.version) + rest)) by {
                lemma_msg_hyp_sparse(b@, pos as int, m, rest);
                vstd::bytes::lemma_auto_spec_u64_to_from_le_bytes();
                if let GgsMessage::SparseUpdate { update, sender: ms } = m {
                    assert(p3 == p2 + 8 + 4 * update.indices@.len());
                    lemma_cat_u32s_len(update.indices@);
                    lemma_tail_shift(
                        b@,
                        p2 as int,
                        p3 as int,
                        spec_enc_u32s(update.indices@),
                        spec_enc_i64s(update.values@) + (spec_u64_to_le_bytes(update.version)
                            + rest),
                    );
                }
            }
        }
        let (values, p4) = match vres {
            Some(x) => x,
            None => {
                return None;
            },
        };
        let wres = take_u64(b, p4);
        proof {
            assert forall|m: GgsMessage, rest: Seq<u8>|
                #![trigger spec_enc_message(m) + rest]
                m.wf() && b@.subrange(pos as int, blen) == spec_enc_message(m)
                    + rest implies wres is Some && (m matches GgsMessage::SparseUpdate {
                update,
                sender: ms,
            } ==> values@ == update.values@ && wres->Some_0.0 == update.version
                && wres->Some_0.1 == pos + spec_enc_message(m).len()) by {
                lemma_msg_hyp_sparse(b@, pos as int, m, rest);
                vstd::bytes::lemma_auto_spec_u64_to_from_le_bytes();
                if let GgsMessage::SparseUpdate { update, sender: ms } = m {
                    assert(p4 == p3 + 8 + 8 * update.values@.len());
                    lemma_cat_i64s_len(update.values@);
                    lemma_tail_shift(
                        b@,
                        p3 as int,
                        p4 as int,
                        spec_enc_i64s(update.values@),
                        spec_u64_to_le_bytes(update.version) + rest,
                    );
                    if wres is Some {
                        lemma_tail_shift(
                            b@,
                            p4 as int,
                            p4 + 8,
                            spec_u64_to_le_bytes(update.version),
                            rest,
                        );
                        assert(b@.subrange(p4 as int, p4 + 8) == spec_u64_to_le_bytes(
                            wres->Some_0.0,
                        ));
                        assert(spec_u64_from_le_bytes(spec_u64_to_le_bytes(wres->Some_0.0))
                            == wres->Some_0.0);
                        assert(spec_u64_from_le_bytes(spec_u64_to_le_bytes(update.version))
                            == update.version);
                    }
                }
            }
        }
        let (version, p5) = match wres {
            Some(x) => x,
            None => {
                return None;
            },
        };
        let update = SparseUpdate { indices, values, version };
        let ok = sparse_wf_check(&update);
        proof {
            assert forall|m: GgsMessage, rest: Seq<u8>|
                m.wf() && b@.subrange(pos as int, blen) == spec_enc_message(m)
                    + rest implies ok by {
                lemma_msg_hyp_sparse(b@, pos as int, m, rest);
                if let GgsMessage::SparseUpdate { update: mu, sender: ms } = m {
                    assert(update.indices@ == mu.indices@);
                    assert(update.values@ == mu.values@);
                    assert(mu.wf());
                }
            }
        }
        if !ok {
            return None;
        }
        let m = GgsMessage::SparseUpdate { update, sender };
        proof {
            assert(b@.subrange(pos as int, p5 as int) =~= b@.subrange(pos as int, pos + 1)
                + b@.subrange(p1 as int, p2 as int) + b@.subrange(p2 as int, p3 as int)
                + b@.subrange(p3 as int, p4 as int) + b@.subrange(p4 as int, p5 as int));
            assert forall|mm: GgsMessage, rest: Seq<u8>|
                mm.wf() && b@.subrange(pos as int, blen) == spec_enc_message(mm)
                    + rest implies p5 == pos + spec_enc_message(mm).len() by {
                lemma_msg_hyp_sparse(b@, pos as int, mm, rest);
            }
        }
        Some((m, p5))
    } else if tag == 2 {
        let sres1 = take_string(b, p1);
        proof {
            assert forall|m: GgsMessage, rest: Seq<u8>|
                m.wf() && b@.subrange(pos as int, blen) == spec_enc_message(m)
                    + rest implies sres1 is Some by {
                lemma_msg_hyp_dense(b@, pos as int, m, rest);
            }
        }
        let (sender, p2) = match sres1 {
            Some(x) => x,
            None => {
                return None;
            },
        };
        let dres = take_u64(b, p2);
        proof {
            assert forall|m: GgsMessage, rest: Seq<u8>|
                m.wf() && b@.subrange(pos as int, blen) == spec_enc_message(m)
                    + rest implies dres is Some && (m matches GgsMessage::DenseSnapshot {
                snapshot,
                sender: ms,
            } ==> p2 == p1 + spec_enc_str(ms@).len() && dres->Some_0.0 == snapshot.dim as u64
                && b@.subrange(p2 + 8, blen) == spec_u64_to_le_bytes(snapshot.version) + (
            spec_enc_i64s(snapshot.values@) + rest)) by {
                lemma_msg_hyp_dense(b@, pos as int, m, rest);
                vstd::bytes::lemma_auto_spec_u64_to_from_le_bytes();
                if let GgsMessage::DenseSnapshot { snapshot, sender: ms } = m {
                    assert(p2 == p1 + 8 + encode_utf8(ms@).len());
                    lemma_tail_shift(
                        b@,
                        p1 as int,
                        p2 as int,
                        spec_enc_str(ms@),
                        spec_u64_to_le_bytes(snapshot.dim as u64) + (spec_u64_to_le_bytes(
                            snapshot.version,
                        ) + (spec_enc_i64s(snapshot.values@) + rest)),
                    );
                    lemma_tail_shift(
                        b@,
                        p2 as int,
                        p2 + 8,
                        spec_u64_to_le_bytes(snapshot.dim as u64),
                        spec_u64_to_le_bytes(snapshot.version) + (spec_enc_i64s(snapshot.values@)
                            + rest),
                    );
                    if dres is Some {
                        assert(b@.subrange(p2 as int, p2 + 8) == spec_u64_to_le_bytes(
                            dres->Some_0.0,
                        ));
                        assert(spec_u64_from_le_bytes(spec_u64_to_le_bytes(dres->Some_0.0))
                            == dres->Some_0.0);
                        assert(spec_u64_from_le_bytes(spec_u64_to_le_bytes(snapshot.dim as u64))
                            == snapshot.dim as u64);
                    }
                }
            }
        }
        let (dim64, p3) = match dres {
            Some(x) => x,
            None => {
                return None;
            },
        };
        let wres = take_u64(b, p3);
        proof {
            assert forall|m: GgsMessage, rest: Seq<u8>|
                m.wf() && b@.subrange(pos as int, blen) == spec_enc_message(m)
                    + rest implies wres is Some && (m matches GgsMessage::DenseSnapshot {
                snapshot,
                sender: ms,
            } ==> wres->Some_0.0 == snapshot.version && b@.subrange(p3 + 8, blen)
                == spec_enc_i64s(snapshot.values@) + rest) by {
                lemma_msg_hyp_dense(b@, pos as int, m, rest);
                vstd::bytes::lemma_auto_spec_u64_to_from_le_bytes();
                if let GgsMessage::DenseSnapshot { snapshot, sender: ms } = m {
                    lemma_tail_shift(
                        b@,
                        p3 as int,
                        p3 + 8,
                        spec_u64_to_le_bytes(snapshot.version),
                        spec_enc_i64s(snapshot.values@) + rest,
                    );
                    if wres is Some {
                        assert(b@.subrange(p3 as int, p3 + 8) == spec_u64_to_le_bytes(
                            wres->Some_0.0,
                        ));
                        assert(spec_u64_from_le_bytes(spec_u64_to_le_bytes(wres->Some_0.0))
                            == wres->Some_0.0);
                        assert(spec_u64_from_le_bytes(spec_u64_to_le_bytes(snapshot.version))
                            == snapshot.version);
                    }
                }
            }
        }
        let (version, p4) = match wres {
            Some(x) => x,
            None => {
                return None;
            },
        };
        let vres = take_i64s(b, p4);
        proof {
            assert forall|m: GgsMessage, rest: Seq<u8>|
                #![trigger spec_enc_message(m) + rest]
                m.wf() && b@.subrange(pos as int, blen) == spec_enc_message(m)
                    + rest implies vres is Some && (m matches GgsMessage::DenseSnapshot {
                snapshot,
                sender: ms,
            } ==> vres->Some_0.0@ == snapshot.values@ && vres->Some_0.1 == pos + spec_enc_message(
                m,
            ).len()) by {
                lemma_msg_hyp_dense(b@, pos as int, m, rest);
                if let GgsMessage::DenseSnapshot { snapshot, sender: ms } = m {
                    lemma_cat_i64s_len(snapshot.values@);
                }
            }
        }
        let (values, p5) = match vres {
            Some(x) => x,
            None => {
                return None;
            },
        };
        let dim_ok = dim64 <= (usize::MAX as u64) && (dim64 as usize) == values.len();
        let bounds_ok = check_i64_bounds(&values, VALUE_LIMIT);
        proof {
            assert forall|m: GgsMessage, rest: Seq<u8>|
                m.wf() && b@.subrange(pos as int, blen) == spec_enc_message(m)
                    + rest implies dim_ok && bounds_ok by {
                lemma_msg_hyp_dense(b@, pos as int, m, rest);
                if let GgsMessage::DenseSnapshot { snapshot, sender: ms } = m {
                    assert(snapshot.wf());
                }
            }
        }
        if !dim_ok || !bounds_ok {
            return None;
        }
        let snapshot = TensorSnapshot { dim: dim64 as usize, values, version };
        let m = GgsMessage::DenseSnapshot { snapshot, sender };
        proof {
            assert(b@.subrange(pos as int, p5 as int) =~= b@.subrange(pos as int, pos + 1)
                + b@.subrange(p1 as int, p2 as int) + b@.subrange(p2 as int, p3 as int)
                + b@.subrange(p3 as int, p4 as int) + b@.subrange(p4 as int, p5 as int));
            assert forall|mm: GgsMessage, rest: Seq<u8>|
                mm.wf() && b@.subrange(pos as int, blen) == spec_enc_message(mm)
                    + rest implies p5 == pos + spec_enc_message(mm).len() by {
                lemma_msg_hyp_dense(b@, pos as int, mm, rest);
            }
        }
        Some((m, p5))
    } else if tag == 3 {
        let sres1 = take_string(b, p1);
        proof {
            assert forall|m: GgsMessage, rest: Seq<u8>|
                m.wf() && b@.subrange(pos as int, blen) == spec_enc_message(m)
                    + rest implies sres1 is Some by {
                lemma_msg_hyp_probe(b@, pos as int, m, rest);
            }
        }
        let (sender, p2) = match sres1 {
            Some(x) => x,
            None => {
                return None;
            },
        };
        let eres = take_i64s(b, p2);
        proof {
            assert forall|m: GgsMessage, rest: Seq<u8>|
                m.wf() && b@.subrange(pos as int, blen) == spec_enc_message(m)
                    + rest implies eres is Some && (m matches GgsMessage::SimilarityProbe {
                embedding,
                position,
                sender: ms,
            } ==> p2 == p1 + spec_enc_str(ms@).len() && eres->Some_0.0@ == embedding@
                && b@.subrange(p2 + 8 + 8 * embedding@.len(), blen) == spec_enc_i64(
                position.lat_micro,
            ) + (spec_enc_i64(position.lon_micro) + rest)) by {
                lemma_msg_hyp_probe(b@, pos as int, m, rest);
                vstd::bytes::lemma_auto_spec_u64_to_from_le_bytes();
                if let GgsMessage::SimilarityProbe { embedding, position, sender: ms } = m {
                    assert(p2 == p1 + 8 + encode_utf8(ms@).len());
                    lemma_cat_i64s_len(embedding@);
                    lemma_tail_shift(
                        b@,
                        p1 as int,
                        p2 as int,
                        spec_enc_str(ms@),
                        spec_enc_i64s(embedding@) + (spec_enc_i64(position.lat_micro) + (
                        spec_enc_i64(position.lon_micro) + rest)),
                    );
                    lemma_tail_shift(
                        b@,
                        p2 as int,
                        p2 + 8 + 8 * embedding@.len(),
                        spec_enc_i64s(embedding@),
                        spec_enc_i64(position.lat_micro) + (spec_enc_i64(position.lon_micro)
                            + rest),
                    );
                }
            }
        }
        let (embedding, p3) = match eres {
            Some(x) => x,
            None => {
                return None;
            },
        };
        let lres = take_i64(b, p3);
        proof {
            assert forall|m: GgsMessage, rest: Seq<u8>|
                m.wf() && b@.subrange(pos as int, blen) == spec_enc_message(m)
                    + rest implies lres is Some && (m matches GgsMessage::SimilarityProbe {
                embedding: me,
                position,
                sender: ms,
            } ==> lres->Some_0.0 == position.lat_micro && b@.subrange(p3 + 8, blen)
                == spec_enc_i64(position.lon_micro) + rest) by {
                lemma_msg_hyp_probe(b@, pos as int, m, rest);
                vstd::bytes::lemma_auto_spec_u64_to_from_le_bytes();
                if let GgsMessage::SimilarityProbe { embedding: me, position, sender: ms } = m {
                    lemma_cat_i64s_len(me@);
                    lemma_tail_shift(
                        b@,
                        p3 as int,
                        p3 + 8,
                        spec_enc_i64(position.lat_micro),
                        spec_enc_i64(position.lon_micro) + rest,
                    );
                    if lres is Some {
                        assert(b@.subrange(p3 as int, p3 + 8) == spec_enc_i64(lres->Some_0.0));
                        let a: i64 = lres->Some_0.0;
                        let c: i64 = position.lat_micro;
                        assert(spec_u64_from_le_bytes(spec_u64_to_le_bytes(a as u64)) == a as u64);
                        assert(spec_u64_from_le_bytes(spec_u64_to_le_bytes(c as u64)) == c as u64);
                        assert(a as u64 == c as u64);
                        assert(a == c) by (bit_vector)
                            requires
                                a as u64 == c as u64,
                        ;
                    }
                }
            }
        }
        let (lat_micro, p4) = match lres {
            Some(x) => x,
            None => {
                return None;
            },
        };
        let ores = take_i64(b, p4);
        proof {
            assert forall|m: GgsMessage, rest: Seq<u8>|
                #![trigger spec_enc_message(m) + rest]
                m.wf() && b@.subrange(pos as int, blen) == spec_enc_message(m)
                    + rest implies ores is Some && (m matches GgsMessage::SimilarityProbe {
                embedding: me,
                position,
                sender: ms,
            } ==> ores->Some_0.0 == position.lon_micro && ores->Some_0.1 == pos
                + spec_enc_message(m).len()) by {
                lemma_msg_hyp_probe(b@, pos as int, m, rest);
                vstd::bytes::lemma_auto_spec_u64_to_from_le_bytes();
                if let GgsMessage::SimilarityProbe { embedding: me, position, sender: ms } = m {
                    lemma_cat_i64s_len(me@);
                    lemma_tail_shift(
                        b@,
                        p4 as int,
                        p4 + 8,
                        spec_enc_i64(position.lon_micro),
                        rest,
                    );
                    if ores is Some {
                        assert(b@.subrange(p4 as int, p4 + 8) == spec_enc_i64(ores->Some_0.0));
                        let a: i64 = ores->Some_0.0;
                        let c: i64 = position.lon_micro;
                        assert(spec_u64_from_le_bytes(spec_u64_to_le_bytes(a as u64)) == a as u64);
                        assert(spec_u64_from_le_bytes(spec_u64_to_le_bytes(c as u64)) == c as u64);
                        assert(a as u64 == c as u64);
                        assert(a == c) by (bit_vector)
                            requires
                                a as u64 == c as u64,
                        ;
                    }
                }
            }
        }
        let (lon_micro, p5) = match ores {
            Some(x) => x,
            None => {
                return None;
            },
        };
        let bounds_ok = check_i64_bounds(&embedding, VALUE_LIMIT);
        let geo_ok = !(lat_micro > 90_000_000 || lat_micro < -90_000_000 || lon_micro
            > 180_000_000 || lon_micro < -180_000_000);
        proof {
            assert forall|m: GgsMessage, rest: Seq<u8>|
                m.wf() && b@.subrange(pos as int, blen) == spec_enc_message(m)
                    + rest implies bounds_ok && geo_ok by {
                lemma_msg_hyp_probe(b@, pos as int, m, rest);
            }
        }
        if !bounds_ok || !geo_ok {
            return None;
        }
        let position = GeoPoint { lat_micro, lon_micro };
        let m = GgsMessage::SimilarityProbe { embedding, position, sender };
        proof {
            assert(b@.subrange(pos as int, p5 as int) =~= b@.subrange(pos as int, pos + 1)
                + b@.subrange(p1 as int, p2 as int) + b@.subrange(p2 as int, p3 as int)
                + b@.subrange(p3 as int, p4 as int) + b@.subrange(p4 as int, p5 as int));
            assert forall|mm: GgsMessage, rest: Seq<u8>|
                mm.wf() && b@.subrange(pos as int, blen) == spec_enc_message(mm)
                    + rest implies p5 == pos + spec_enc_message(mm).len() by {
                lemma_msg_hyp_probe(b@, pos as int, mm, rest);
            }
        }
        Some((m, p5))
    } else {
        proof {
            assert forall|m: GgsMessage, rest: Seq<u8>|
                m.wf() && b@.subrange(pos as int, blen) == spec_enc_message(m)
                    + rest implies false by {
                assert(b@.subrange(pos as int, blen)[0] == (spec_enc_message(m) + rest)[0]);
                match m {
                    GgsMessage::Heartbeat { .. } => {
                        assert((spec_enc_message(m) + rest)[0] == 0u8);
                    },
                    GgsMessage::SparseUpdate { .. } => {
                        assert((spec_enc_message(m) + rest)[0] == 1u8);
                    },
                    GgsMessage::DenseSnapshot { .. } => {
                        assert((spec_enc_message(m) + rest)[0] == 2u8);
                    },
                    GgsMessage::SimilarityProbe { .. } => {
                        assert((spec_enc_message(m) + rest)[0] == 3u8);
                    },
                }
            }
        }
        None
    }
}

/// The bytes the tensor hash digests: dimension, version, values.
pub fn tensor_hash_input(t: &TensorSnapshot) -> (r: Vec<u8>)
    ensures
        r@ == spec_enc_tensor(*t),
{
    let mut out: Vec<u8> = Vec::new();
    push_u64(&mut out, t.dim as u64);
    push_u64(&mut out, t.version);
    push_i64s(&mut out, &t.values);
    proof {
        assert(out@ =~= spec_enc_tensor(*t));
    }
    out
}

/// The deterministic content hash of a snapshot: 0x-prefixed lowercase hex of
/// the Keccak-256 digest of its canonical bytes. Equal snapshots hash alike.
pub open spec fn spec_tensor_hash(t: TensorSnapshot) -> Seq<char> {
    seq!['0', 'x'] + crate::crypto::spec_hex_encode(
        crate::crypto::keccak256_of(spec_enc_tensor(t)),
    )
}

impl TensorSnapshot {
    /// The deterministic content hash (see `spec_tensor_hash`).
    pub fn hash(&self) -> (r: String)
        ensures
            r@ == spec_tensor_hash(*self),
    {
        let input = tensor_hash_input(self);
        let digest = crate::crypto::keccak256(&input);
        let hex_part = crate::crypto::hex_encode(&digest);
        let mut out = crate::crypto::hex_prefix_string();
        out.append(hex_part.as_str());
        out
    }
}

} // verus!
