//! The wire format for literal values: a tag byte followed by a
//! tag-specific payload, big-endian throughout. This module holds the
//! mathematical encoding and decoding functions, the executable decoder,
//! and the proof that decoding inverts encoding.

use vstd::prelude::*;
use vstd::utf8::{decode_utf8, encode_utf8, valid_utf8};

use crate::error::LitError;
use crate::types::{BytecodeObject, SpecObject};

verus! {

pub const TAG_NUMERIC8: u8 = 1;

pub const TAG_NUMERIC16: u8 = 2;

pub const TAG_NUMERIC32: u8 = 3;

pub const TAG_STR: u8 = 4;

pub const TAG_TUPLE: u8 = 5;

pub const TAG_VAR: u8 = 6;

/// The two big-endian bytes of a 16-bit word.
pub open spec fn be16(v: u16) -> Seq<u8> {
    seq![(v / 256) as u8, (v % 256) as u8]
}

/// The four big-endian bytes of a 32-bit word.
pub open spec fn be32(v: u32) -> Seq<u8> {
    seq![
        (v / 0x1000000) as u8,
        ((v / 0x10000) % 256) as u8,
        ((v / 256) % 256) as u8,
        (v % 256) as u8,
    ]
}

/// The 16-bit word spelled by two big-endian bytes.
pub open spec fn word16(hi: u8, lo: u8) -> u16 {
    (hi as u16 * 256 + lo as u16) as u16
}

/// The 32-bit word spelled by four big-endian bytes.
pub open spec fn word32(b0: u8, b1: u8, b2: u8, b3: u8) -> u32 {
    (b0 as u32 * 0x1000000 + b1 as u32 * 0x10000 + b2 as u32 * 256 + b3 as u32) as u32
}

pub proof fn lemma_be16_word16(v: u16)
    ensures
        word16(be16(v)[0], be16(v)[1]) == v,
{
    assert((v / 256) as u8 as u16 * 256 + (v % 256) as u8 as u16 == v) by (bit_vector);
}

pub proof fn lemma_be32_word32(v: u32)
    ensures
        word32(be32(v)[0], be32(v)[1], be32(v)[2], be32(v)[3]) == v,
{
    assert((v / 0x1000000) as u8 as u32 * 0x1000000 + ((v / 0x10000) % 256) as u8 as u32 * 0x10000
        + ((v / 256) % 256) as u8 as u32 * 256 + (v % 256) as u8 as u32 == v) by (bit_vector);
}

/// Whether a value can be written to the wire: materials cannot, string
/// payloads and tuples must fit a one-byte length, and tuple elements must
/// themselves be encodable.
pub open spec fn encodable(o: SpecObject) -> bool
    decreases o,
{
    match o {
        SpecObject::N8(_) => true,
        SpecObject::N16(_) => true,
        SpecObject::N32(_) => true,
        SpecObject::Str(s) => encode_utf8(s).len() <= 255,
        SpecObject::Tuple(t) => t.len() <= 255 && encodable_seq(t),
        SpecObject::Var(_) => true,
        SpecObject::Material(_) => false,
    }
}

pub open spec fn encodable_seq(t: Seq<SpecObject>) -> bool
    decreases t,
{
    if t.len() == 0 {
        true
    } else {
        encodable(t[0]) && encodable_seq(t.drop_first())
    }
}

/// The bytes a value encodes to. Meaningful only for `encodable` values;
/// a material contributes nothing.
pub open spec fn spec_encode(o: SpecObject) -> Seq<u8>
    decreases o, 1int,
{
    match o {
        SpecObject::N8(n) => seq![TAG_NUMERIC8, n],
        SpecObject::N16(n) => seq![TAG_NUMERIC16] + be16(n as u16),
        SpecObject::N32(n) => seq![TAG_NUMERIC32] + be32(n as u32),
        SpecObject::Str(s) => seq![TAG_STR, encode_utf8(s).len() as u8] + encode_utf8(s),
        SpecObject::Tuple(t) => seq![TAG_TUPLE, t.len() as u8] + spec_encode_seq(t),
        SpecObject::Var(id) => seq![TAG_VAR] + be32(id),
        SpecObject::Material(_) => Seq::empty(),
    }
}

pub open spec fn spec_encode_seq(t: Seq<SpecObject>) -> Seq<u8>
    decreases t, 0int,
{
    if t.len() == 0 {
        Seq::empty()
    } else {
        spec_encode(t[0]) + spec_encode_seq(t.drop_first())
    }
}

/// Decoding one value at `pos`: the decoded value and the position after
/// it, or the exact error the stream deserves. Reading past the end is
/// `UnexpectedEof`; an unknown tag is `BytecodeRead8`; a tag-4 payload
/// that is not UTF-8 is `FromUtf8`.
pub open spec fn spec_decode(b: Seq<u8>, pos: int) -> Result<(SpecObject, int), LitError>
    decreases b.len() - pos, 0int,
{
    if pos < 0 || pos >= b.len() {
        Err(LitError::UnexpectedEof)
    } else {
        let tag = b[pos];
        if tag == TAG_NUMERIC8 {
            if pos + 2 <= b.len() {
                Ok((SpecObject::N8(b[pos + 1]), pos + 2))
            } else {
                Err(LitError::UnexpectedEof)
            }
        } else if tag == TAG_NUMERIC16 {
            if pos + 3 <= b.len() {
                Ok((SpecObject::N16(word16(b[pos + 1], b[pos + 2]) as i16), pos + 3))
            } else {
                Err(LitError::UnexpectedEof)
            }
        } else if tag == TAG_NUMERIC32 {
            if pos + 5 <= b.len() {
                Ok(
                    (
                        SpecObject::N32(
                            word32(b[pos + 1], b[pos + 2], b[pos + 3], b[pos + 4]) as i32,
                        ),
                        pos + 5,
                    ),
                )
            } else {
                Err(LitError::UnexpectedEof)
            }
        } else if tag == TAG_STR {
            if pos + 2 > b.len() {
                Err(LitError::UnexpectedEof)
            } else {
                let n = b[pos + 1] as int;
                if pos + 2 + n > b.len() {
                    Err(LitError::UnexpectedEof)
                } else {
                    let payload = b.subrange(pos + 2, pos + 2 + n);
                    if valid_utf8(payload) {
                        Ok((SpecObject::Str(decode_utf8(payload)), pos + 2 + n))
                    } else {
                        Err(LitError::FromUtf8)
                    }
                }
            }
        } else if tag == TAG_TUPLE {
            if pos + 2 > b.len() {
                Err(LitError::UnexpectedEof)
            } else {
                match spec_decode_n(b, pos + 2, b[pos + 1] as int) {
                    Ok((elems, end)) => Ok((SpecObject::Tuple(elems), end)),
                    Err(e) => Err(e),
                }
            }
        } else if tag == TAG_VAR {
            if pos + 5 <= b.len() {
                Ok(
                    (
                        SpecObject::Var(word32(b[pos + 1], b[pos + 2], b[pos + 3], b[pos + 4])),
                        pos + 5,
                    ),
                )
            } else {
                Err(LitError::UnexpectedEof)
            }
        } else {
            Err(LitError::BytecodeRead8(tag))
        }
    }
}

/// Decoding exactly `n` consecutive values starting at `pos`.
pub open spec fn spec_decode_n(b: Seq<u8>, pos: int, n: int) -> Result<
    (Seq<SpecObject>, int),
    LitError,
>
    decreases b.len() - pos, n, 1int,
{
    if n <= 0 {
        Ok((Seq::empty(), pos))
    } else {
        match spec_decode(b, pos) {
            Ok((o, p1)) => if pos < p1 <= b.len() {
                match spec_decode_n(b, p1, n - 1) {
                    Ok((rest, end)) => Ok((seq![o] + rest, end)),
                    Err(e) => Err(e),
                }
            } else {
                // decoding always advances; this branch is never taken
                Err(LitError::UnexpectedEof)
            },
            Err(e) => Err(e),
        }
    }
}

/// A successful decode lands strictly past `pos` and within the stream.
pub proof fn lemma_decode_advances(b: Seq<u8>, pos: int)
    ensures
        spec_decode(b, pos) matches Ok((o, p)) ==> pos < p <= b.len(),
    decreases b.len() - pos, 0int,
{
    if 0 <= pos < b.len() && b[pos] == TAG_TUPLE && pos + 2 <= b.len() {
        lemma_decode_n_advances(b, pos + 2, b[pos + 1] as int);
    }
}

pub proof fn lemma_decode_n_advances(b: Seq<u8>, pos: int, n: int)
    ensures
        spec_decode_n(b, pos, n) matches Ok((t, p)) ==> pos <= p,
        n > 0 ==> (spec_decode_n(b, pos, n) matches Ok((t, p)) ==> pos < p <= b.len()),
        spec_decode_n(b, pos, n) matches Ok((t, p)) ==> t.len() == if n <= 0 {
            0int
        } else {
            n
        },
    decreases b.len() - pos, n, 1int,
{
    if n > 0 {
        lemma_decode_advances(b, pos);
        if let Ok((o, p1)) = spec_decode(b, pos) {
            if pos < p1 <= b.len() {
                lemma_decode_n_advances(b, p1, n - 1);
            }
        }
    }
}

/// Relies on `String::from_utf8`: it succeeds exactly on the byte sequences
/// that are valid UTF-8, and the string it returns spells exactly those
/// bytes.
#[verifier::external_body]
fn string_from_utf8(bytes: Vec<u8>) -> (r: Option<String>)
    ensures
        r is Some <==> valid_utf8(bytes@),
        r matches Some(s) ==> s@ == decode_utf8(bytes@),
{
    String::from_utf8(bytes).ok()
}

/// `model_seq` turns a push into an appended model.
proof fn lemma_model_seq_push(s: Seq<BytecodeObject>, x: BytecodeObject)
    ensures
        BytecodeObject::model_seq(s.push(x)) == BytecodeObject::model_seq(s) + seq![x.model()],
{
    BytecodeObject::lemma_model_seq(s.push(x));
    BytecodeObject::lemma_model_seq(s);
    assert forall|i: int| 0 <= i < s.len() + 1 implies BytecodeObject::model_seq(s.push(x))[i] == (
    BytecodeObject::model_seq(s) + seq![x.model()])[i] by {
        assert(BytecodeObject::model_seq(s.push(x))[i] == s.push(x)[i].model());
        if i < s.len() {
            assert(s.push(x)[i] == s[i]);
            assert(BytecodeObject::model_seq(s)[i] == s[i].model());
        } else {
            assert(s.push(x)[i] == x);
        }
    }
    assert(BytecodeObject::model_seq(s.push(x)) =~= BytecodeObject::model_seq(s) + seq![
        x.model(),
    ]);
}

impl BytecodeObject {
    /// Decodes one object at `*pos`, advancing `*pos` past its bytes; on an
    /// ill-formed stream, returns exactly the error `spec_decode` assigns.
    #[verifier::loop_isolation(false)]
    pub fn read(bytes: &Vec<u8>, pos: &mut usize) -> (r: Result<BytecodeObject, LitError>)
        ensures
            match r {
                Ok(o) => spec_decode(bytes@, *old(pos) as int) == Ok::<(SpecObject, int), LitError>(
                    (o@, *final(pos) as int),
                ) && *old(pos) < *final(pos) <= bytes@.len(),
                Err(e) => spec_decode(bytes@, *old(pos) as int) == Err::<
                    (SpecObject, int),
                    LitError,
                >(e),
            },
        decreases bytes@.len() - *old(pos),
    {
        let len = bytes.len();
        if *pos >= len {
            return Err(LitError::UnexpectedEof);
        }
        let tag = bytes[*pos];
        if tag == TAG_NUMERIC8 {
            if len - *pos >= 2 {
                let v = bytes[*pos + 1];
                *pos = *pos + 2;
                Ok(BytecodeObject::Numeric8(v))
            } else {
                Err(LitError::UnexpectedEof)
            }
        } else if tag == TAG_NUMERIC16 {
            if len - *pos >= 3 {
                let hi = bytes[*pos + 1];
                let lo = bytes[*pos + 2];
                let w: u16 = hi as u16 * 256 + lo as u16;
                *pos = *pos + 3;
                Ok(BytecodeObject::Numeric16(w as i16))
            } else {
                Err(LitError::UnexpectedEof)
            }
        } else if tag == TAG_NUMERIC32 {
            if len - *pos >= 5 {
                let w = word32_from(
                    bytes[*pos + 1],
                    bytes[*pos + 2],
                    bytes[*pos + 3],
                    bytes[*pos + 4],
                );
                *pos = *pos + 5;
                Ok(BytecodeObject::Numeric32(w as i32))
            } else {
                Err(LitError::UnexpectedEof)
            }
        } else if tag == TAG_STR {
            if len - *pos < 2 {
                return Err(LitError::UnexpectedEof);
            }
            let n = bytes[*pos + 1] as usize;
            if len - (*pos + 2) < n {
                return Err(LitError::UnexpectedEof);
            }
            let start = *pos + 2;
            let mut payload: Vec<u8> = Vec::new();
            let mut i: usize = 0;
            while i < n
                invariant
                    i <= n,
                    start + n <= bytes@.len(),
                    payload@ == bytes@.subrange(start as int, start + i),
                decreases n - i,
            {
                payload.push(bytes[start + i]);
                proof {
                    assert(payload@ =~= bytes@.subrange(start as int, start + i + 1));
                }
                i = i + 1;
            }
            proof {
                assert(payload@ == bytes@.subrange(*old(pos) + 2, *old(pos) + 2 + n));
            }
            match string_from_utf8(payload) {
                Some(s) => {
                    *pos = *pos + 2 + n;
                    Ok(BytecodeObject::Str(s))
                },
                None => Err(LitError::FromUtf8),
            }
        } else if tag == TAG_TUPLE {
            if len - *pos < 2 {
                return Err(LitError::UnexpectedEof);
            }
            let count = bytes[*pos + 1] as usize;
            let ghost pos0 = *pos as int;
            *pos = *pos + 2;
            let ghost start = *pos as int;
            let mut elems: Vec<BytecodeObject> = Vec::new();
            let mut i: usize = 0;
            proof {
                assert(BytecodeObject::model_seq(elems@) =~= Seq::<SpecObject>::empty());
            }
            while i < count
                invariant
                    i <= count,
                    pos0 + 2 == start <= *pos <= bytes@.len(),
                    elems@.len() == i,
                    spec_decode_n(bytes@, start, count as int) == (match spec_decode_n(
                        bytes@,
                        *pos as int,
                        count - i,
                    ) {
                        Ok((rest, end)) => Ok::<(Seq<SpecObject>, int), LitError>(
                            (BytecodeObject::model_seq(elems@) + rest, end),
                        ),
                        Err(e) => Err(e),
                    }),
                decreases count - i,
            {
                let ghost pos_before = *pos as int;
                let ghost elems_before = elems@;
                match Self::read(bytes, pos) {
                    Ok(o) => {
                        proof {
                            lemma_model_seq_push(elems_before, o);
                            assert(BytecodeObject::model_seq(elems_before.push(o))
                                + spec_decode_n(bytes@, *pos as int, count - i - 1)->Ok_0.0
                                =~= BytecodeObject::model_seq(elems_before) + (seq![o@]
                                + spec_decode_n(bytes@, *pos as int, count - i - 1)->Ok_0.0));
                        }
                        elems.push(o);
                    },
                    Err(e) => {
                        return Err(e);
                    },
                }
                i = i + 1;
            }
            proof {
                assert(BytecodeObject::model_seq(elems@) + Seq::<SpecObject>::empty()
                    =~= BytecodeObject::model_seq(elems@));
            }
            Ok(BytecodeObject::Tuple(elems))
        } else if tag == TAG_VAR {
            if len - *pos >= 5 {
                let w = word32_from(
                    bytes[*pos + 1],
                    bytes[*pos + 2],
                    bytes[*pos + 3],
                    bytes[*pos + 4],
                );
                *pos = *pos + 5;
                Ok(BytecodeObject::VarInvocation(w))
            } else {
                Err(LitError::UnexpectedEof)
            }
        } else {
            Err(LitError::BytecodeRead8(tag))
        }
    }
}

/// The executable form of `word32`.
fn word32_from(b0: u8, b1: u8, b2: u8, b3: u8) -> (w: u32)
    ensures
        w == word32(b0, b1, b2, b3),
{
    b0 as u32 * 0x1000000 + b1 as u32 * 0x10000 + b2 as u32 * 256 + b3 as u32
}

/// Appending a value appends its encoding.
pub proof fn lemma_encode_seq_push(t: Seq<SpecObject>, o: SpecObject)
    ensures
        spec_encode_seq(t.push(o)) == spec_encode_seq(t) + spec_encode(o),
    decreases t,
{
    if t.len() == 0 {
        reveal_with_fuel(spec_encode_seq, 3);
        assert(t.push(o).drop_first() =~= Seq::<SpecObject>::empty());
        assert(t.push(o)[0] == o);
        assert(spec_encode_seq(t.push(o)) =~= spec_encode_seq(t) + spec_encode(o));
    } else {
        lemma_encode_seq_push(t.drop_first(), o);
        assert(t.push(o).drop_first() =~= t.drop_first().push(o));
        assert(t.push(o)[0] == t[0]);
        assert(spec_encode_seq(t.push(o)) == spec_encode(t[0]) + spec_encode_seq(
            t.drop_first().push(o),
        ));
        assert(spec_encode_seq(t.push(o)) =~= spec_encode_seq(t) + spec_encode(o));
    }
}

/// A sequence with one more value is encodable exactly when both parts are.
pub proof fn lemma_encodable_seq_push(t: Seq<SpecObject>, o: SpecObject)
    ensures
        encodable_seq(t.push(o)) <==> (encodable_seq(t) && encodable(o)),
    decreases t,
{
    if t.len() == 0 {
        reveal_with_fuel(encodable_seq, 3);
        assert(t.push(o).drop_first() =~= Seq::<SpecObject>::empty());
        assert(t.push(o)[0] == o);
    } else {
        lemma_encodable_seq_push(t.drop_first(), o);
        assert(t.push(o).drop_first() =~= t.drop_first().push(o));
        assert(t.push(o)[0] == t[0]);
        assert(encodable_seq(t.push(o)) == (encodable(t[0]) && encodable_seq(
            t.drop_first().push(o),
        )));
        assert(encodable_seq(t) == (encodable(t[0]) && encodable_seq(t.drop_first())));
    }
}

/// Decoding inverts encoding: wherever the bytes of an encodable value sit
/// in a stream, decoding there yields exactly that value and stops exactly
/// after its bytes.
pub proof fn lemma_roundtrip_at(o: SpecObject, b: Seq<u8>, pos: int)
    requires
        encodable(o),
        0 <= pos,
        pos + spec_encode(o).len() <= b.len(),
        b.subrange(pos, pos + spec_encode(o).len() as int) == spec_encode(o),
    ensures
        spec_decode(b, pos) == Ok::<(SpecObject, int), LitError>(
            (o, pos + spec_encode(o).len()),
        ),
    decreases o, 1int,
{
    let enc = spec_encode(o);
    assert forall|i: int| 0 <= i < enc.len() implies b[pos + i] == enc[i] by {
        assert(b.subrange(pos, pos + enc.len() as int)[i] == b[pos + i]);
    }
    if enc.len() > 0 {
        assert(b[pos + 0] == enc[0]);
        assert(b[pos] == enc[0]);
    }
    match o {
        SpecObject::N8(n) => {
            assert(b[pos + 1] == enc[1]);
        },
        SpecObject::N16(n) => {
            assert(b[pos + 1] == enc[1] && b[pos + 2] == enc[2]);
            assert(enc[1] == be16(n as u16)[0] && enc[2] == be16(n as u16)[1]);
            lemma_be16_word16(n as u16);
            assert(((n as u16) as i16) == n) by (bit_vector);
        },
        SpecObject::N32(n) => {
            assert(b[pos + 1] == enc[1] && b[pos + 2] == enc[2] && b[pos + 3] == enc[3] && b[pos
                + 4] == enc[4]);
            assert(enc[1] == be32(n as u32)[0] && enc[2] == be32(n as u32)[1] && enc[3] == be32(
                n as u32,
            )[2] && enc[4] == be32(n as u32)[3]);
            lemma_be32_word32(n as u32);
            assert(((n as u32) as i32) == n) by (bit_vector);
        },
        SpecObject::Str(s) => {
            let payload = encode_utf8(s);
            let n = payload.len() as int;
            assert(b[pos + 1] == enc[1]);
            assert(enc[1] == n as u8);
            assert forall|i: int| 0 <= i < n implies b.subrange(pos + 2, pos + 2 + n)[i]
                == payload[i] by {
                assert(b[pos + (2 + i)] == enc[2 + i]);
                assert(enc[2 + i] == payload[i]);
            }
            assert(b.subrange(pos + 2, pos + 2 + n) =~= payload);
            vstd::utf8::encode_utf8_valid_utf8(s);
            vstd::utf8::encode_utf8_decode_utf8(s);
        },
        SpecObject::Tuple(t) => {
            let es = spec_encode_seq(t);
            assert(b[pos + 1] == enc[1]);
            assert(enc[1] == t.len() as u8);
            assert forall|i: int| 0 <= i < es.len() implies b.subrange(
                pos + 2,
                pos + 2 + es.len() as int,
            )[i] == es[i] by {
                assert(b[pos + (2 + i)] == enc[2 + i]);
                assert(enc[2 + i] == es[i]);
            }
            assert(b.subrange(pos + 2, pos + 2 + es.len() as int) =~= es);
            lemma_roundtrip_seq_at(t, b, pos + 2);
        },
        SpecObject::Var(id) => {
            assert(b[pos + 1] == enc[1] && b[pos + 2] == enc[2] && b[pos + 3] == enc[3] && b[pos
                + 4] == enc[4]);
            assert(enc[1] == be32(id)[0] && enc[2] == be32(id)[1] && enc[3] == be32(id)[2] && enc[4]
                == be32(id)[3]);
            lemma_be32_word32(id);
        },
        SpecObject::Material(_) => {
        },
    }
}

/// The sequence form of `lemma_roundtrip_at`, for tuple payloads.
pub proof fn lemma_roundtrip_seq_at(t: Seq<SpecObject>, b: Seq<u8>, pos: int)
    requires
        encodable_seq(t),
        0 <= pos,
        pos + spec_encode_seq(t).len() <= b.len(),
        b.subrange(pos, pos + spec_encode_seq(t).len() as int) == spec_encode_seq(t),
    ensures
        spec_decode_n(b, pos, t.len() as int) == Ok::<(Seq<SpecObject>, int), LitError>(
            (t, pos + spec_encode_seq(t).len()),
        ),
    decreases t, 0int,
{
    if t.len() == 0 {
        assert(t =~= Seq::<SpecObject>::empty());
    } else {
        let head = t[0];
        let rest = t.drop_first();
        let e0 = spec_encode(head);
        let erest = spec_encode_seq(rest);
        assert(spec_encode_seq(t) == e0 + erest);
        assert forall|i: int| 0 <= i < e0.len() + erest.len() implies b[pos + i] == (e0 + erest)[i] by {
            assert(b.subrange(pos, pos + spec_encode_seq(t).len() as int)[i] == b[pos + i]);
        }
        assert(b.subrange(pos, pos + e0.len() as int) =~= e0);
        lemma_roundtrip_at(head, b, pos);
        let p1 = pos + e0.len() as int;
        assert forall|i: int| 0 <= i < erest.len() implies b.subrange(
            p1,
            p1 + erest.len() as int,
        )[i] == erest[i] by {
            assert(b[pos + (e0.len() + i)] == (e0 + erest)[e0.len() + i]);
            assert((e0 + erest)[e0.len() + i] == erest[i]);
        }
        assert(b.subrange(p1, p1 + erest.len() as int) =~= erest);
        lemma_roundtrip_seq_at(rest, b, p1);
        assert(seq![head] + rest =~= t);
    }
}

/// Round trip at the whole-stream level: the encoding of any encodable
/// value decodes back to exactly that value, consuming all of its bytes.
pub proof fn lemma_round_trip(o: SpecObject)
    requires
        encodable(o),
    ensures
        spec_decode(spec_encode(o), 0) == Ok::<(SpecObject, int), LitError>(
            (o, spec_encode(o).len() as int),
        ),
{
    let enc = spec_encode(o);
    assert(enc.subrange(0, enc.len() as int) =~= enc);
    lemma_roundtrip_at(o, enc, 0);
}

} // verus!
