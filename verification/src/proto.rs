//! Protocol-buffer wire format primitives.
//!
//! The envelope payloads carried by the protocol are protobuf-encoded
//! messages.  This module holds the generic wire layer: base-128 varints,
//! tagged fields, and the parsing of a byte string into a field sequence,
//! together with the lemmas showing that parsing inverts encoding.

use vstd::prelude::*;

verus! {

/// Little-endian base-128 encoding of `n`: seven value bits per byte, the
/// high bit set on every byte but the last.
pub open spec fn spec_varint(n: u64) -> Seq<u8>
    decreases n,
{
    if n < 128 {
        seq![n as u8]
    } else {
        seq![(n % 128 + 128) as u8] + spec_varint((n / 128) as u64)
    }
}

/// Decode a varint at position `i` of `s`; the result pairs the value with
/// the position one past the last byte read.  Values that do not fit in 64
/// bits are rejected.
pub open spec fn spec_varint_dec(s: Seq<u8>, i: int) -> Option<(u64, int)>
    decreases s.len() - i,
{
    if i < 0 || i >= s.len() {
        None
    } else {
        let b = s[i];
        if b < 128 {
            Some((b as u64, i + 1))
        } else {
            match spec_varint_dec(s, i + 1) {
                None => None,
                Some((v, j)) => {
                    if (b - 128) + 128 * (v as int) <= u64::MAX {
                        Some((((b - 128) + 128 * (v as int)) as u64, j))
                    } else {
                        None
                    }
                }
            }
        }
    }
}

pub proof fn lemma_varint_len(n: u64)
    ensures
        1 <= spec_varint(n).len(),
{
}

/// A varint decodes to the value it encodes, wherever it stands in a larger
/// byte string.
pub proof fn lemma_varint_roundtrip(s: Seq<u8>, i: int, n: u64)
    requires
        0 <= i,
        i + spec_varint(n).len() <= s.len(),
        s.subrange(i, i + spec_varint(n).len() as int) == spec_varint(n),
    ensures
        spec_varint_dec(s, i) == Some((n, i + spec_varint(n).len() as int)),
    decreases n,
{
    let e = spec_varint(n);
    assert(s[i] == s.subrange(i, i + e.len() as int)[0]);
    if n < 128 {
        assert(s[i] == n as u8);
    } else {
        let m = (n / 128) as u64;
        let tail = spec_varint(m);
        assert(e == seq![(n % 128 + 128) as u8] + tail);
        assert(s[i] == (n % 128 + 128) as u8);
        assert(s.subrange(i + 1, i + 1 + tail.len() as int) == tail) by {
            assert forall|k: int| 0 <= k < tail.len() implies s.subrange(
                i + 1,
                i + 1 + tail.len() as int,
            )[k] == tail[k] by {
                assert(s.subrange(i, i + e.len() as int)[k + 1] == e[k + 1]);
            }
            assert(s.subrange(i + 1, i + 1 + tail.len() as int) =~= tail);
        }
        lemma_varint_roundtrip(s, i + 1, m);
        let b = s[i];
        assert((b - 128) + 128 * (m as int) == n % 128 + 128 * (n / 128));
        assert(n % 128 + 128 * (n / 128) == n) by (nonlinear_arith);
    }
}

/// Decoding always moves forward.
pub proof fn lemma_varint_dec_advance(s: Seq<u8>, i: int)
    ensures
        spec_varint_dec(s, i) matches Some((v, j)) ==> i < j <= s.len(),
    decreases s.len() - i,
{
    if 0 <= i < s.len() && s[i] >= 128 {
        lemma_varint_dec_advance(s, i + 1);
    }
}

/// Append a varint encoding of `n` to `buf`.
pub fn emit_varint(buf: &mut Vec<u8>, n: u64)
    ensures
        final(buf)@ == old(buf)@ + spec_varint(n),
    decreases n,
{
    if n < 128 {
        buf.push(n as u8);
    } else {
        buf.push((n % 128 + 128) as u8);
        let ghost mid = buf@;
        emit_varint(buf, n / 128);
        assert(buf@ =~= old(buf)@ + spec_varint(n));
    }
}

/// A run of continuation bytes that never ends decodes to nothing.
proof fn lemma_varint_dec_all_cont(s: Seq<u8>, i: int)
    requires
        forall|k: int| i <= k < s.len() ==> (#[trigger] s[k]) >= 128,
    ensures
        spec_varint_dec(s, i) is None,
    decreases s.len() - i,
{
    if 0 <= i < s.len() {
        lemma_varint_dec_all_cont(s, i + 1);
    }
}

/// A failed decode behind a run of continuation bytes fails at their start.
proof fn lemma_varint_dec_none_prop(s: Seq<u8>, i: int, j: int)
    requires
        0 <= i <= j <= s.len(),
        spec_varint_dec(s, j) is None,
        forall|k: int| i <= k < j ==> (#[trigger] s[k]) >= 128,
    ensures
        spec_varint_dec(s, i) is None,
    decreases j - i,
{
    if i < j {
        lemma_varint_dec_none_prop(s, i + 1, j);
    }
}

/// Read a varint at `pos`, returning the value and the position one past
/// it: scan forward to the terminating byte, then fold the value backwards,
/// rejecting a value over 64 bits.
pub fn read_varint(s: &[u8], pos: usize) -> (r: Option<(u64, usize)>)
    ensures
        match r {
            Some((v, j)) => spec_varint_dec(s@, pos as int) == Some((v, j as int)),
            None => spec_varint_dec(s@, pos as int) is None,
        },
{
    if pos >= s.len() {
        return None;
    }
    let mut end = pos;
    while end < s.len() && *vstd::slice::slice_index_get(s, end) >= 128
        invariant
            pos <= end <= s@.len(),
            forall|k: int| pos <= k < end ==> (#[trigger] s@[k]) >= 128,
        decreases s@.len() - end,
    {
        end = end + 1;
    }
    if end >= s.len() {
        proof {
            lemma_varint_dec_all_cont(s@, pos as int);
        }
        return None;
    }
    let mut v: u64 = *vstd::slice::slice_index_get(s, end) as u64;
    let mut j: usize = end;
    while j > pos
        invariant
            pos <= j <= end < s@.len(),
            forall|k: int| pos <= k < end ==> (#[trigger] s@[k]) >= 128,
            spec_varint_dec(s@, j as int) == Some((v, end + 1)),
        decreases j,
    {
        j = j - 1;
        let b = *vstd::slice::slice_index_get(s, j);
        let bb = (b - 128) as u64;
        if v <= (u64::MAX - bb) / 128 {
            assert(bb + 128 * v <= u64::MAX) by (nonlinear_arith)
                requires
                    v <= (u64::MAX - bb) / 128,
                    bb < 128,
            ;
            v = bb + 128 * v;
        } else {
            assert(bb + 128 * v > u64::MAX) by (nonlinear_arith)
                requires
                    v > (u64::MAX - bb) / 128,
                    bb < 128,
            ;
            proof {
                lemma_varint_dec_none_prop(s@, pos as int, j as int);
            }
            return None;
        }
    }
    Some((v, end + 1))
}

// ---------------------------------------------------------------------------
// Tagged fields
// ---------------------------------------------------------------------------

/// The decoded payload of one wire field.
pub enum FieldVal {
    /// Wire type 0: a varint.
    Var(u64),
    /// Wire type 2: a length-delimited byte string.
    Len(Seq<u8>),
    /// Wire type 5: four fixed bytes.
    Fix32(Seq<u8>),
    /// Wire type 1: eight fixed bytes.
    Fix64(Seq<u8>),
}

pub open spec fn wire_type_of(v: FieldVal) -> u64 {
    match v {
        FieldVal::Var(_) => 0,
        FieldVal::Len(_) => 2,
        FieldVal::Fix32(_) => 5,
        FieldVal::Fix64(_) => 1,
    }
}

pub open spec fn body_of(v: FieldVal) -> Seq<u8> {
    match v {
        FieldVal::Var(n) => spec_varint(n),
        FieldVal::Len(b) => spec_varint(b.len() as u64) + b,
        FieldVal::Fix32(b) => b,
        FieldVal::Fix64(b) => b,
    }
}

/// A field that the encoding layer can represent.
pub open spec fn field_wf(tag: u64, v: FieldVal) -> bool {
    &&& 1 <= tag
    &&& tag * 8 + 7 <= u64::MAX
    &&& (v matches FieldVal::Len(b) ==> b.len() <= u64::MAX)
    &&& (v matches FieldVal::Fix32(b) ==> b.len() == 4)
    &&& (v matches FieldVal::Fix64(b) ==> b.len() == 8)
}

/// The wire encoding of one field: its key varint followed by its body.
pub open spec fn enc_field(tag: u64, v: FieldVal) -> Seq<u8> {
    spec_varint((tag * 8 + wire_type_of(v)) as u64) + body_of(v)
}

/// The concatenated encoding of a field sequence.
pub open spec fn enc_fields(fs: Seq<(u64, FieldVal)>) -> Seq<u8>
    decreases fs.len(),
{
    if fs.len() == 0 {
        Seq::empty()
    } else {
        enc_field(fs[0].0, fs[0].1) + enc_fields(fs.drop_first())
    }
}

pub open spec fn fields_wf(fs: Seq<(u64, FieldVal)>) -> bool {
    forall|k: int| 0 <= k < fs.len() ==> #[trigger] field_wf(fs[k].0, fs[k].1)
}

/// Parse one field at position `i`: the key varint, then the body that its
/// wire type dictates.  Field number zero and the group wire types are
/// rejected.
pub open spec fn parse_field(s: Seq<u8>, i: int) -> Option<((u64, FieldVal), int)> {
    match spec_varint_dec(s, i) {
        None => None,
        Some((key, j)) => {
            let tag = key / 8;
            let wt = key % 8;
            if tag == 0 {
                None
            } else if wt == 0 {
                match spec_varint_dec(s, j) {
                    None => None,
                    Some((n, k)) => Some(((tag, FieldVal::Var(n)), k)),
                }
            } else if wt == 2 {
                match spec_varint_dec(s, j) {
                    None => None,
                    Some((l, k)) => if k + l <= s.len() {
                        Some(((tag, FieldVal::Len(s.subrange(k, k + l))), k + l))
                    } else {
                        None
                    },
                }
            } else if wt == 5 {
                if j + 4 <= s.len() {
                    Some(((tag, FieldVal::Fix32(s.subrange(j, j + 4))), j + 4))
                } else {
                    None
                }
            } else if wt == 1 {
                if j + 8 <= s.len() {
                    Some(((tag, FieldVal::Fix64(s.subrange(j, j + 8))), j + 8))
                } else {
                    None
                }
            } else {
                None
            }
        }
    }
}

pub proof fn lemma_parse_field_advance(s: Seq<u8>, i: int)
    ensures
        parse_field(s, i) matches Some((f, j)) ==> i < j <= s.len(),
{
    lemma_varint_dec_advance(s, i);
    match spec_varint_dec(s, i) {
        Some((key, j)) => lemma_varint_dec_advance(s, j),
        None => (),
    }
}

/// Parse the whole tail of `s` from `i` into a field sequence.
pub open spec fn parse_fields(s: Seq<u8>, i: int) -> Option<Seq<(u64, FieldVal)>>
    decreases s.len() - i,
{
    if i >= s.len() {
        Some(Seq::empty())
    } else {
        match parse_field(s, i) {
            None => None,
            Some((f, j)) => if i < j && j <= s.len() {
                match parse_fields(s, j) {
                    None => None,
                    Some(fs) => Some(seq![f] + fs),
                }
            } else {
                None
            },
        }
    }
}

/// An encoded field parses back to itself, wherever it stands.
pub proof fn lemma_parse_field_of_enc(s: Seq<u8>, i: int, tag: u64, v: FieldVal)
    requires
        field_wf(tag, v),
        0 <= i,
        i + enc_field(tag, v).len() <= s.len(),
        s.subrange(i, i + enc_field(tag, v).len() as int) == enc_field(tag, v),
    ensures
        parse_field(s, i) == Some(((tag, v), i + enc_field(tag, v).len() as int)),
{
    let wt = wire_type_of(v);
    let key = (tag * 8 + wt) as u64;
    let kb = spec_varint(key);
    let body = body_of(v);
    let e = enc_field(tag, v);
    assert(e == kb + body);
    let j = i + kb.len() as int;
    lemma_subrange_sub(s, i, i + e.len(), kb, body);
    lemma_varint_roundtrip(s, i, key);
    assert(key / 8 == tag && key % 8 == wt) by (nonlinear_arith)
        requires
            key == tag * 8 + wt,
            0 <= wt < 8,
            tag * 8 + 7 <= u64::MAX,
    ;
    match v {
        FieldVal::Var(n) => {
            lemma_varint_roundtrip(s, j, n);
        }
        FieldVal::Len(b) => {
            let lb = spec_varint(b.len() as u64);
            lemma_subrange_sub(s, j, i + e.len(), lb, b);
            lemma_varint_roundtrip(s, j, b.len() as u64);
            let k = j + lb.len() as int;
            assert(s.subrange(k, k + b.len() as int) == b);
        }
        FieldVal::Fix32(b) => {
            assert(s.subrange(j, j + 4) == b);
        }
        FieldVal::Fix64(b) => {
            assert(s.subrange(j, j + 8) == b);
        }
    }
}

/// If `s[i..k]` is `a + b`, then `a` and `b` each stand at their own range.
proof fn lemma_subrange_sub(s: Seq<u8>, i: int, k: int, a: Seq<u8>, b: Seq<u8>)
    requires
        0 <= i,
        k <= s.len(),
        k - i == a.len() + b.len(),
        s.subrange(i, k) == a + b,
    ensures
        s.subrange(i, i + a.len() as int) == a,
        s.subrange(i + a.len(), k) == b,
{
    assert forall|t: int| 0 <= t < a.len() implies s.subrange(i, i + a.len() as int)[t]
        == a[t] by {
        assert(s.subrange(i, k)[t] == (a + b)[t]);
    }
    assert(s.subrange(i, i + a.len() as int) =~= a);
    assert forall|t: int| 0 <= t < b.len() implies s.subrange(i + a.len(), k)[t] == b[t] by {
        assert(s.subrange(i, k)[t + a.len()] == (a + b)[t + a.len()]);
        assert(s.subrange(i + a.len(), k)[t] == s[i + a.len() + t]);
        assert(s.subrange(i, k)[t + a.len()] == s[i + t + a.len()]);
        assert((a + b)[t + a.len()] == b[t]);
    }
    assert(s.subrange(i + a.len(), k) =~= b);
}

/// Concatenated encoded fields parse back to the field sequence, followed by
/// whatever parses after them.
pub proof fn lemma_parse_fields_of_enc(
    s: Seq<u8>,
    i: int,
    fs: Seq<(u64, FieldVal)>,
    rest: Seq<(u64, FieldVal)>,
)
    requires
        fields_wf(fs),
        0 <= i,
        i + enc_fields(fs).len() <= s.len(),
        s.subrange(i, i + enc_fields(fs).len() as int) == enc_fields(fs),
        parse_fields(s, i + enc_fields(fs).len() as int) == Some(rest),
    ensures
        parse_fields(s, i) == Some(fs + rest),
    decreases fs.len(),
{
    if fs.len() == 0 {
        assert(fs + rest =~= rest);
    } else {
        let (tag, v) = fs[0];
        assert(field_wf(tag, v));
        let e0 = enc_field(tag, v);
        let etail = enc_fields(fs.drop_first());
        assert(enc_fields(fs) == e0 + etail);
        lemma_subrange_sub(s, i, i + enc_fields(fs).len(), e0, etail);
        let j = i + e0.len() as int;
        lemma_parse_field_of_enc(s, i, tag, v);
        lemma_parse_field_advance(s, i);
        lemma_parse_fields_of_enc(s, j, fs.drop_first(), rest);
        assert(seq![fs[0]] + (fs.drop_first() + rest) =~= fs + rest);
    }
}

/// A well-formed field sequence round-trips through the wire layer.
pub proof fn lemma_fields_roundtrip(fs: Seq<(u64, FieldVal)>)
    requires
        fields_wf(fs),
    ensures
        parse_fields(enc_fields(fs), 0) == Some(fs),
{
    let s = enc_fields(fs);
    assert(s.subrange(0, s.len() as int) =~= s);
    lemma_parse_fields_of_enc(s, 0, fs, Seq::empty());
    assert(fs + Seq::<(u64, FieldVal)>::empty() =~= fs);
}

// ---------------------------------------------------------------------------
// int32 values on the wire
// ---------------------------------------------------------------------------

/// A protobuf `int32` travels as the varint of its 64-bit two's-complement
/// value.
pub open spec fn int32_to_u64(v: i32) -> u64 {
    if v >= 0 {
        v as u64
    } else {
        (v + 0x1_0000_0000_0000_0000) as u64
    }
}

/// Reading an `int32` keeps the low 32 bits of the varint, as a signed value.
pub open spec fn u64_to_int32(n: u64) -> i32 {
    let low = n % 0x1_0000_0000;
    if low < 0x8000_0000 {
        low as i32
    } else {
        (low - 0x1_0000_0000) as i32
    }
}

pub proof fn lemma_int32_roundtrip(v: i32)
    ensures
        u64_to_int32(int32_to_u64(v)) == v,
{
    if v >= 0 {
        assert((v as u64) % 0x1_0000_0000 == v) by (nonlinear_arith)
            requires
                0 <= v < 0x8000_0000,
        ;
    } else {
        let n = int32_to_u64(v) as int;
        assert(n % 0x1_0000_0000 == v + 0x1_0000_0000) by (nonlinear_arith)
            requires
                n == v + 0x1_0000_0000_0000_0000,
                -0x8000_0000 <= v < 0,
        ;
    }
}

// ---------------------------------------------------------------------------
// Field sequences of common field shapes
// ---------------------------------------------------------------------------

/// A string field: absent when the string is empty, as proto3 encoders skip
/// default values.
pub open spec fn str_fields(tag: u64, s: Seq<char>) -> Seq<(u64, FieldVal)> {
    if s.len() == 0 {
        Seq::empty()
    } else {
        seq![(tag, FieldVal::Len(vstd::utf8::encode_utf8(s)))]
    }
}

/// An `int32` field: absent when the value is zero.
pub open spec fn i32_fields(tag: u64, v: i32) -> Seq<(u64, FieldVal)> {
    if v == 0 {
        Seq::empty()
    } else {
        seq![(tag, FieldVal::Var(int32_to_u64(v)))]
    }
}

/// A present length-delimited field, as an embedded message uses.
pub open spec fn len_fields(tag: u64, b: Seq<u8>) -> Seq<(u64, FieldVal)> {
    seq![(tag, FieldVal::Len(b))]
}


/// The encoding of a one-field sequence is that field's encoding.
pub proof fn lemma_enc_fields_singleton(tag: u64, v: FieldVal)
    ensures
        enc_fields(seq![(tag, v)]) == enc_field(tag, v),
{
    let fs = seq![(tag, v)];
    assert(fs.len() == 1);
    assert(fs[0] == (tag, v));
    assert(fs.drop_first() =~= Seq::<(u64, FieldVal)>::empty());
    assert(enc_fields(Seq::<(u64, FieldVal)>::empty()) == Seq::<u8>::empty());
    assert(enc_fields(fs) == enc_field(tag, v) + enc_fields(fs.drop_first()));
    assert(enc_field(tag, v) + Seq::<u8>::empty() =~= enc_field(tag, v));
}

/// Append the encoding of a string field to `buf`.
pub fn emit_string_field(buf: &mut Vec<u8>, tag: u64, s: &str)
    requires
        1 <= tag,
        tag * 8 + 7 <= u64::MAX,
    ensures
        final(buf)@ == old(buf)@ + enc_fields(str_fields(tag, s@)),
{
    if s.is_empty() {
        assert(final(buf)@ =~= old(buf)@ + enc_fields(str_fields(tag, s@)));
        return;
    }
    let mut bytes = vstd::string::StrSliceExecFns::as_bytes_vec(s);
    emit_varint(buf, tag * 8 + 2);
    emit_varint(buf, bytes.len() as u64);
    let ghost bv = bytes@;
    buf.append(&mut bytes);
    proof {
        let f = (tag, FieldVal::Len(bv));
        lemma_enc_fields_singleton(f.0, f.1);
        assert(str_fields(tag, s@) =~= seq![f]);
        assert(buf@ =~= old(buf)@ + enc_field(f.0, f.1));
    }
}

/// Append the encoding of an `int32` field to `buf`.
pub fn emit_int32_field(buf: &mut Vec<u8>, tag: u64, v: i32)
    requires
        1 <= tag,
        tag * 8 + 7 <= u64::MAX,
    ensures
        final(buf)@ == old(buf)@ + enc_fields(i32_fields(tag, v)),
{
    if v == 0 {
        assert(final(buf)@ =~= old(buf)@ + enc_fields(i32_fields(tag, v)));
        return;
    }
    emit_varint(buf, tag * 8);
    let n: u64 = if v >= 0 {
        v as u64
    } else {
        u64::MAX - ((-(v as i64)) as u64) + 1
    };
    assert(n == int32_to_u64(v));
    emit_varint(buf, n);
    proof {
        let f = (tag, FieldVal::Var(int32_to_u64(v)));
        lemma_enc_fields_singleton(f.0, f.1);
        assert(i32_fields(tag, v) =~= seq![f]);
        assert(buf@ =~= old(buf)@ + enc_field(f.0, f.1));
    }
}

/// Append the encoding of a length-delimited field holding `payload`.
pub fn emit_len_field(buf: &mut Vec<u8>, tag: u64, payload: &Vec<u8>)
    requires
        1 <= tag,
        tag * 8 + 7 <= u64::MAX,
    ensures
        final(buf)@ == old(buf)@ + enc_fields(len_fields(tag, payload@)),
{
    emit_varint(buf, tag * 8 + 2);
    emit_varint(buf, payload.len() as u64);
    buf.extend_from_slice(payload.as_slice());
    proof {
        let f = (tag, FieldVal::Len(payload@));
        lemma_enc_fields_singleton(f.0, f.1);
        assert(len_fields(tag, payload@) =~= seq![f]);
        assert(buf@ =~= old(buf)@ + enc_field(f.0, f.1));
    }
}

// ---------------------------------------------------------------------------
// Reading fields
// ---------------------------------------------------------------------------

/// One wire field as the decoder hands it out: length-delimited bodies are
/// byte ranges of the input, fixed-width bodies are only skipped over.
pub enum RawVal {
    Var(u64),
    Len(usize, usize),
    Fix32,
    Fix64,
}

/// Read the field at `pos`, mirroring [`parse_field`].
pub fn read_field(s: &[u8], pos: usize) -> (r: Option<(u64, RawVal, usize)>)
    ensures
        match parse_field(s@, pos as int) {
            None => r is None,
            Some(((tag, fv), j)) => {
                &&& r matches Some((rt, rv, rj)) && rt == tag && rj == j
                &&& match fv {
                    FieldVal::Var(n) => r matches Some((rt, rv, rj)) && rv == RawVal::Var(n),
                    FieldVal::Len(b) => r matches Some((rt, rv, rj)) && rv matches RawVal::Len(
                        a2,
                        b2,
                    ) && a2 <= b2 <= s@.len() && s@.subrange(a2 as int, b2 as int) == b,
                    FieldVal::Fix32(_) => r matches Some((rt, rv, rj)) && rv == RawVal::Fix32,
                    FieldVal::Fix64(_) => r matches Some((rt, rv, rj)) && rv == RawVal::Fix64,
                }
            },
        },
{
    match read_varint(s, pos) {
        None => None,
        Some((key, j)) => {
            proof {
                lemma_varint_dec_advance(s@, pos as int);
            }
            let tag = key / 8;
            let wt = key % 8;
            if tag == 0 {
                None
            } else if wt == 0 {
                match read_varint(s, j) {
                    None => None,
                    Some((n, k)) => Some((tag, RawVal::Var(n), k)),
                }
            } else if wt == 2 {
                match read_varint(s, j) {
                    None => None,
                    Some((l, k)) => {
                        proof {
                            lemma_varint_dec_advance(s@, j as int);
                        }
                        if l <= (s.len() - k) as u64 {
                            let e = k + l as usize;
                            Some((tag, RawVal::Len(k, e), e))
                        } else {
                            None
                        }
                    }
                }
            } else if wt == 5 {
                if s.len() - j >= 4 {
                    Some((tag, RawVal::Fix32, j + 4))
                } else {
                    None
                }
            } else if wt == 1 {
                if s.len() - j >= 8 {
                    Some((tag, RawVal::Fix64, j + 8))
                } else {
                    None
                }
            } else {
                None
            }
        }
    }
}

/// Copy the bytes of `s` between `a` and `b` into a fresh vector.
pub fn copy_range(s: &[u8], a: usize, b: usize) -> (r: Vec<u8>)
    requires
        a <= b <= s@.len(),
    ensures
        r@ == s@.subrange(a as int, b as int),
{
    let mut v: Vec<u8> = Vec::new();
    let mut i = a;
    while i < b
        invariant
            a <= i <= b <= s@.len(),
            v@ == s@.subrange(a as int, i as int),
        decreases b - i,
    {
        v.push(*vstd::slice::slice_index_get(s, i));
        i = i + 1;
        assert(v@ =~= s@.subrange(a as int, i as int));
    }
    v
}

/// Relies on std's `str::from_utf8`, which succeeds exactly on UTF-8 input
/// and yields the characters it encodes; `to_owned` copies them.
#[verifier::external_body]
pub fn bytes_to_string(v: &[u8]) -> (r: Option<String>)
    ensures
        match r {
            Some(s) => vstd::utf8::valid_utf8(v@) && s@ == vstd::utf8::decode_utf8(v@),
            None => !vstd::utf8::valid_utf8(v@),
        },
{
    match core::str::from_utf8(v) {
        Ok(s) => Some(s.to_owned()),
        Err(_) => None,
    }
}

// ---------------------------------------------------------------------------
// Folding fields into a message
// ---------------------------------------------------------------------------

/// Run a message's field action over a field sequence, starting from its
/// default value; `None` marks a malformed field.
pub open spec fn fold_fields<M>(
    m: M,
    fs: Seq<(u64, FieldVal)>,
    f: spec_fn(M, u64, FieldVal) -> Option<M>,
) -> Option<M>
    decreases fs.len(),
{
    if fs.len() == 0 {
        Some(m)
    } else {
        match f(m, fs[0].0, fs[0].1) {
            None => None,
            Some(m2) => fold_fields(m2, fs.drop_first(), f),
        }
    }
}

pub proof fn lemma_fold_fields_app<M>(
    m: M,
    a: Seq<(u64, FieldVal)>,
    b: Seq<(u64, FieldVal)>,
    f: spec_fn(M, u64, FieldVal) -> Option<M>,
)
    ensures
        fold_fields(m, a + b, f) == (match fold_fields(m, a, f) {
            None => None,
            Some(m1) => fold_fields(m1, b, f),
        }),
    decreases a.len(),
{
    if a.len() == 0 {
        assert(a + b =~= b);
    } else {
        assert((a + b)[0] == a[0]);
        match f(m, a[0].0, a[0].1) {
            None => {}
            Some(m2) => {
                assert((a + b).drop_first() =~= a.drop_first() + b);
                lemma_fold_fields_app(m2, a.drop_first(), b, f);
            }
        }
    }
}

/// Decode a whole message: parse the field sequence, then fold it from the
/// message's default value.
pub open spec fn spec_dec_msg<M>(
    s: Seq<u8>,
    init: M,
    f: spec_fn(M, u64, FieldVal) -> Option<M>,
) -> Option<M> {
    match parse_fields(s, 0) {
        None => None,
        Some(fs) => fold_fields(init, fs, f),
    }
}

/// Field encoding distributes over concatenation.
pub proof fn lemma_enc_fields_app(a: Seq<(u64, FieldVal)>, b: Seq<(u64, FieldVal)>)
    ensures
        enc_fields(a + b) == enc_fields(a) + enc_fields(b),
    decreases a.len(),
{
    if a.len() == 0 {
        assert(a + b =~= b);
        assert(enc_fields(a) =~= Seq::<u8>::empty());
        assert(enc_fields(a) + enc_fields(b) =~= enc_fields(b));
    } else {
        assert((a + b)[0] == a[0]);
        assert((a + b).drop_first() =~= a.drop_first() + b);
        lemma_enc_fields_app(a.drop_first(), b);
        assert(enc_field(a[0].0, a[0].1) + (enc_fields(a.drop_first()) + enc_fields(b)) =~= (
        enc_field(a[0].0, a[0].1) + enc_fields(a.drop_first())) + enc_fields(b));
    }
}

pub proof fn lemma_fields_wf_app(a: Seq<(u64, FieldVal)>, b: Seq<(u64, FieldVal)>)
    requires
        fields_wf(a),
        fields_wf(b),
    ensures
        fields_wf(a + b),
{
    assert forall|k: int| 0 <= k < (a + b).len() implies #[trigger] field_wf(
        (a + b)[k].0,
        (a + b)[k].1,
    ) by {
        if k < a.len() {
            assert(field_wf(a[k].0, a[k].1));
        } else {
            assert(field_wf(b[k - a.len()].0, b[k - a.len()].1));
        }
    }
}

/// Folding a one-field sequence is one application of the field action.
pub proof fn lemma_fold_fields_singleton<M>(
    m: M,
    tag: u64,
    v: FieldVal,
    f: spec_fn(M, u64, FieldVal) -> Option<M>,
)
    ensures
        fold_fields(m, seq![(tag, v)], f) == f(m, tag, v),
{
    let fs = seq![(tag, v)];
    assert(fs[0] == (tag, v));
    assert(fs.drop_first() =~= Seq::<(u64, FieldVal)>::empty());
    match f(m, tag, v) {
        None => {}
        Some(m2) => {
            assert(fold_fields(m2, Seq::<(u64, FieldVal)>::empty(), f) == Some(m2));
        }
    }
}

/// Folding a string-field segment sets the field, or does nothing for the
/// empty string that the encoder skipped.
pub proof fn lemma_fold_str_fields<M>(
    m: M,
    tag: u64,
    s: Seq<char>,
    f: spec_fn(M, u64, FieldVal) -> Option<M>,
    m2: M,
)
    requires
        s.len() == 0 ==> m2 == m,
        s.len() > 0 ==> f(m, tag, FieldVal::Len(vstd::utf8::encode_utf8(s))) == Some(m2),
    ensures
        fold_fields(m, str_fields(tag, s), f) == Some(m2),
{
    if s.len() == 0 {
        assert(str_fields(tag, s) =~= Seq::<(u64, FieldVal)>::empty());
        assert(fold_fields(m, Seq::<(u64, FieldVal)>::empty(), f) == Some(m));
    } else {
        lemma_fold_fields_singleton(m, tag, FieldVal::Len(vstd::utf8::encode_utf8(s)), f);
    }
}

/// Folding an `int32`-field segment sets the field, or does nothing for the
/// zero value that the encoder skipped.
pub proof fn lemma_fold_i32_fields<M>(
    m: M,
    tag: u64,
    v: i32,
    f: spec_fn(M, u64, FieldVal) -> Option<M>,
    m2: M,
)
    requires
        v == 0 ==> m2 == m,
        v != 0 ==> f(m, tag, FieldVal::Var(int32_to_u64(v))) == Some(m2),
    ensures
        fold_fields(m, i32_fields(tag, v), f) == Some(m2),
{
    if v == 0 {
        assert(i32_fields(tag, v) =~= Seq::<(u64, FieldVal)>::empty());
        assert(fold_fields(m, Seq::<(u64, FieldVal)>::empty(), f) == Some(m));
    } else {
        lemma_fold_fields_singleton(m, tag, FieldVal::Var(int32_to_u64(v)), f);
    }
}

pub proof fn lemma_fields_wf_str(tag: u64, s: Seq<char>)
    requires
        1 <= tag,
        tag * 8 + 7 <= u64::MAX,
        vstd::utf8::encode_utf8(s).len() <= u64::MAX,
    ensures
        fields_wf(str_fields(tag, s)),
{
    let fs = str_fields(tag, s);
    assert forall|k: int| 0 <= k < fs.len() implies #[trigger] field_wf(fs[k].0, fs[k].1) by {
        assert(fs[0] == (tag, FieldVal::Len(vstd::utf8::encode_utf8(s))));
    }
}

pub proof fn lemma_fields_wf_i32(tag: u64, v: i32)
    requires
        1 <= tag,
        tag * 8 + 7 <= u64::MAX,
    ensures
        fields_wf(i32_fields(tag, v)),
{
    let fs = i32_fields(tag, v);
    assert forall|k: int| 0 <= k < fs.len() implies #[trigger] field_wf(fs[k].0, fs[k].1) by {
        assert(fs[0] == (tag, FieldVal::Var(int32_to_u64(v))));
    }
}

pub proof fn lemma_fields_wf_len(tag: u64, b: Seq<u8>)
    requires
        1 <= tag,
        tag * 8 + 7 <= u64::MAX,
        b.len() <= u64::MAX,
    ensures
        fields_wf(len_fields(tag, b)),
{
    let fs = len_fields(tag, b);
    assert forall|k: int| 0 <= k < fs.len() implies #[trigger] field_wf(fs[k].0, fs[k].1) by {
        assert(fs[0] == (tag, FieldVal::Len(b)));
    }
}

/// One decoding step: consuming a parsed field keeps the message's fold
/// result, with the field applied to the accumulator.
pub proof fn lemma_dec_step<M>(
    s: Seq<u8>,
    pos: int,
    npos: int,
    tag: u64,
    fv: FieldVal,
    m: M,
    m2: M,
    f: spec_fn(M, u64, FieldVal) -> Option<M>,
)
    requires
        parse_field(s, pos) == Some(((tag, fv), npos)),
        pos < npos <= s.len(),
        f(m, tag, fv) == Some(m2),
    ensures
        (match parse_fields(s, pos) {
            None => None::<M>,
            Some(fs) => fold_fields(m, fs, f),
        }) == (match parse_fields(s, npos) {
            None => None::<M>,
            Some(fs) => fold_fields(m2, fs, f),
        }),
{
    match parse_fields(s, npos) {
        None => {}
        Some(fs2) => {
            assert(parse_fields(s, pos) == Some(seq![(tag, fv)] + fs2));
            assert((seq![(tag, fv)] + fs2)[0] == (tag, fv));
            assert((seq![(tag, fv)] + fs2).drop_first() =~= fs2);
        }
    }
}

/// One failing decoding step: a field the message rejects fails the whole
/// fold, whatever follows.
pub proof fn lemma_dec_step_fail<M>(
    s: Seq<u8>,
    pos: int,
    npos: int,
    tag: u64,
    fv: FieldVal,
    m: M,
    f: spec_fn(M, u64, FieldVal) -> Option<M>,
)
    requires
        parse_field(s, pos) == Some(((tag, fv), npos)),
        pos < npos <= s.len(),
        f(m, tag, fv) is None,
    ensures
        (match parse_fields(s, pos) {
            None => None::<M>,
            Some(fs) => fold_fields(m, fs, f),
        }) is None,
{
    match parse_fields(s, npos) {
        None => {}
        Some(fs2) => {
            assert(parse_fields(s, pos) == Some(seq![(tag, fv)] + fs2));
            assert((seq![(tag, fv)] + fs2)[0] == (tag, fv));
        }
    }
}

/// Read the low 32 bits of a varint value as a signed `int32`.
pub fn u64_low32_to_i32(n: u64) -> (r: i32)
    ensures
        r == u64_to_int32(n),
{
    let low = n % 0x1_0000_0000;
    if low < 0x8000_0000 {
        low as i32
    } else {
        ((low as i64) - 0x1_0000_0000i64) as i32
    }
}

/// Decoding an encoded field sequence reduces to folding that sequence.
pub proof fn lemma_dec_msg_of_enc<M>(
    fs: Seq<(u64, FieldVal)>,
    init: M,
    f: spec_fn(M, u64, FieldVal) -> Option<M>,
)
    requires
        fields_wf(fs),
    ensures
        spec_dec_msg(enc_fields(fs), init, f) == fold_fields(init, fs, f),
{
    lemma_fields_roundtrip(fs);
}

} // verus!
