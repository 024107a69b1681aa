//! The envelope codec contract.
//!
//! Every polymorphic payload travels as an [`Envelope`]: a type-url string
//! and the encoded bytes.  A closed variant set (one case per concrete
//! message type) implements [`AnyMessage`]: decoding matches the type url
//! against each case's package-qualified type name — exact match first, in
//! declared case order, then suffix match as a fallback for senders that
//! omit package information — and then parses the payload as the matched
//! wire type.

use vstd::prelude::*;

verus! {

/// The generic wire representation of any command, event, snapshot or
/// response value.
#[derive(Debug, Clone, PartialEq)]
pub struct Envelope {
    pub type_url: String,
    pub value: Vec<u8>,
}

/// A closed variant set keyed by type-url.
///
/// `decode` returns `None` when no case matches the type url or the payload
/// does not parse as the matched wire type; it never fails any other way.
/// `encode` returns `None` only on an internal serialization failure.
pub trait AnyMessage: View + Sized {
    /// What `decode` returns, at the level of views.
    spec fn spec_decode(type_url: Seq<char>, bytes: Seq<u8>) -> Option<Self::V>;

    /// What `encode` returns, at the level of views.
    spec fn spec_encode(v: Self::V) -> Option<(Seq<char>, Seq<u8>)>;

    fn decode(type_url: &str, bytes: &[u8]) -> (r: Option<Self>)
        ensures
            match r {
                Some(m) => Self::spec_decode(type_url@, bytes@) == Some(m@),
                None => Self::spec_decode(type_url@, bytes@) is None,
            },
    ;

    fn encode(&self) -> (r: Option<(String, Vec<u8>)>)
        ensures
            match r {
                Some((u, b)) => Self::spec_encode(self@) == Some((u@, b@)),
                None => Self::spec_encode(self@) is None,
            },
    ;
}

/// Append the bytes of `more` to `s`, returning the concatenation.
pub fn string_concat(s: String, more: &str) -> (r: String)
    ensures
        r@ == s@ + more@,
{
    vstd::string::StringExecFns::concat(s, more)
}

/// String equality at the level of character sequences.
pub fn str_eq_str(a: &str, b: &str) -> (r: bool)
    ensures
        r == (a@ == b@),
{
    let ab = a.as_bytes();
    let bb = b.as_bytes();
    if ab.len() != bb.len() {
        proof {
            if a@ == b@ {
                assert(ab@ == bb@);
            }
        }
        return false;
    }
    let n = ab.len();
    let mut i: usize = 0;
    while i < n
        invariant
            i <= n,
            n == ab@.len() == bb@.len(),
            ab@ == vstd::string::StringSliceAdditionalSpecFns::spec_bytes(a),
            bb@ == vstd::string::StringSliceAdditionalSpecFns::spec_bytes(b),
            forall|k: int| 0 <= k < i ==> ab@[k] == bb@[k],
        decreases n - i,
    {
        if *vstd::slice::slice_index_get(ab, i) != *vstd::slice::slice_index_get(bb, i) {
            proof {
                if a@ == b@ {
                    assert(ab@ == bb@);
                }
            }
            return false;
        }
        i = i + 1;
    }
    proof {
        assert(ab@ =~= bb@);
        vstd::utf8::encode_utf8_decode_utf8(a@);
        vstd::utf8::encode_utf8_decode_utf8(b@);
    }
    true
}

/// `n` is a suffix of `h`.
pub open spec fn spec_ends_with(h: Seq<char>, n: Seq<char>) -> bool {
    n.len() <= h.len() && h.subrange(h.len() - n.len(), h.len() as int) == n
}

/// Suffix test at the level of character sequences.
pub fn str_ends_with(hay: &str, needle: &str) -> (r: bool)
    ensures
        r == spec_ends_with(hay@, needle@),
{
    let hl = vstd::string::StrSliceExecFns::unicode_len(hay);
    let nl = vstd::string::StrSliceExecFns::unicode_len(needle);
    if nl > hl {
        return false;
    }
    let mut i: usize = 0;
    while i < nl
        invariant
            i <= nl <= hl,
            hl == hay@.len(),
            nl == needle@.len(),
            forall|k: int| 0 <= k < i ==> hay@[hl - nl + k] == needle@[k],
        decreases nl - i,
    {
        let hc = vstd::string::StrSliceExecFns::get_char(hay, hl - nl + i);
        let nc = vstd::string::StrSliceExecFns::get_char(needle, i);
        if hc != nc {
            proof {
                if spec_ends_with(hay@, needle@) {
                    assert(hay@.subrange(hl - nl, hl as int)[i as int] == needle@[i as int]);
                }
            }
            return false;
        }
        i = i + 1;
    }
    proof {
        assert(hay@.subrange(hl - nl, hl as int) =~= needle@);
    }
    true
}


/// Byte-wise lexicographic order: the order `String` keys have in an
/// ordered map.
pub open spec fn bytes_lt(a: Seq<u8>, b: Seq<u8>) -> bool
    decreases a.len(),
{
    if b.len() == 0 {
        false
    } else if a.len() == 0 {
        true
    } else if a[0] < b[0] {
        true
    } else if a[0] > b[0] {
        false
    } else {
        bytes_lt(a.drop_first(), b.drop_first())
    }
}

/// The order on key strings, over their UTF-8 encodings.
pub open spec fn key_lt(a: Seq<char>, b: Seq<char>) -> bool {
    bytes_lt(vstd::utf8::encode_utf8(a), vstd::utf8::encode_utf8(b))
}

pub proof fn lemma_bytes_lt_connex(a: Seq<u8>, b: Seq<u8>)
    ensures
        bytes_lt(a, b) || bytes_lt(b, a) || a =~= b,
    decreases a.len(),
{
    if a.len() > 0 && b.len() > 0 && a[0] == b[0] {
        lemma_bytes_lt_connex(a.drop_first(), b.drop_first());
        if a.drop_first() =~= b.drop_first() {
            assert forall|k: int| 0 <= k < a.len() implies a[k] == b[k] by {
                if k > 0 {
                    assert(a.drop_first()[k - 1] == b.drop_first()[k - 1]);
                }
            }
            assert(a =~= b);
        }
    }
}

pub proof fn lemma_bytes_lt_asym(a: Seq<u8>, b: Seq<u8>)
    ensures
        bytes_lt(a, b) ==> !bytes_lt(b, a),
    decreases a.len(),
{
    if a.len() > 0 && b.len() > 0 && a[0] == b[0] {
        lemma_bytes_lt_asym(a.drop_first(), b.drop_first());
    }
}

pub proof fn lemma_bytes_lt_trans(a: Seq<u8>, b: Seq<u8>, c: Seq<u8>)
    ensures
        bytes_lt(a, b) && bytes_lt(b, c) ==> bytes_lt(a, c),
    decreases a.len(),
{
    if a.len() > 0 && b.len() > 0 && c.len() > 0 {
        lemma_bytes_lt_trans(a.drop_first(), b.drop_first(), c.drop_first());
    }
}

/// Totality of the key order: two keys compare one way, the other, or are
/// equal.
pub proof fn lemma_key_order_total(a: Seq<char>, b: Seq<char>)
    ensures
        key_lt(a, b) || key_lt(b, a) || a == b,
        key_lt(a, b) ==> !key_lt(b, a) && a != b,
{
    let ea = vstd::utf8::encode_utf8(a);
    let eb = vstd::utf8::encode_utf8(b);
    lemma_bytes_lt_connex(ea, eb);
    lemma_bytes_lt_asym(ea, eb);
    lemma_bytes_lt_asym(eb, ea);
    if ea =~= eb {
        vstd::utf8::encode_utf8_decode_utf8(a);
        vstd::utf8::encode_utf8_decode_utf8(b);
        assert(a == b);
    }
    if a == b {
        lemma_bytes_lt_asym(ea, ea);
    }
}

pub proof fn lemma_key_lt_trans(a: Seq<char>, b: Seq<char>, c: Seq<char>)
    ensures
        key_lt(a, b) && key_lt(b, c) ==> key_lt(a, c),
{
    lemma_bytes_lt_trans(
        vstd::utf8::encode_utf8(a),
        vstd::utf8::encode_utf8(b),
        vstd::utf8::encode_utf8(c),
    );
}

/// Dropping an equal prefix keeps the comparison.
proof fn lemma_bytes_lt_skip(a: Seq<u8>, b: Seq<u8>, i: int)
    requires
        0 <= i <= a.len(),
        i <= b.len(),
        forall|k: int| 0 <= k < i ==> a[k] == b[k],
    ensures
        bytes_lt(a, b) == bytes_lt(a.skip(i), b.skip(i)),
    decreases i,
{
    if i > 0 {
        assert(a.len() > 0 && b.len() > 0 && a[0] == b[0]);
        assert forall|k: int| 0 <= k < i - 1 implies a.drop_first()[k] == b.drop_first()[k] by {
            assert(a[k + 1] == b[k + 1]);
        }
        lemma_bytes_lt_skip(a.drop_first(), b.drop_first(), i - 1);
        assert(a.drop_first().skip(i - 1) =~= a.skip(i));
        assert(b.drop_first().skip(i - 1) =~= b.skip(i));
    } else {
        assert(a.skip(0) =~= a);
        assert(b.skip(0) =~= b);
    }
}

/// Whether `a` orders strictly before `b`, as ordered-map `String` keys do.
pub fn str_key_before(a: &str, b: &str) -> (r: bool)
    ensures
        r == key_lt(a@, b@),
{
    let ab = a.as_bytes();
    let bb = b.as_bytes();
    let an = ab.len();
    let bn = bb.len();
    let n = if an < bn {
        an
    } else {
        bn
    };
    let mut i: usize = 0;
    while i < n
        invariant
            i <= n,
            n == if an < bn {
                an
            } else {
                bn
            },
            an == ab@.len(),
            bn == bb@.len(),
            ab@ == vstd::string::StringSliceAdditionalSpecFns::spec_bytes(a),
            bb@ == vstd::string::StringSliceAdditionalSpecFns::spec_bytes(b),
            forall|k: int| 0 <= k < i ==> ab@[k] == bb@[k],
        decreases n - i,
    {
        let x = *vstd::slice::slice_index_get(ab, i);
        let y = *vstd::slice::slice_index_get(bb, i);
        if x != y {
            proof {
                lemma_bytes_lt_skip(ab@, bb@, i as int);
                assert(ab@.skip(i as int)[0] == ab@[i as int]);
                assert(bb@.skip(i as int)[0] == bb@[i as int]);
            }
            return x < y;
        }
        i = i + 1;
    }
    proof {
        lemma_bytes_lt_skip(ab@, bb@, n as int);
        if an < bn {
            assert(ab@.skip(n as int).len() == 0);
            assert(bb@.skip(n as int).len() > 0);
        } else {
            assert(bb@.skip(n as int).len() == 0);
        }
    }
    an < bn
}

} // verus!
