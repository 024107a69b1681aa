//! The wire messages of the shopping cart schema.
//!
//! Hand-written codecs for the concrete message types the shopping cart
//! entity exchanges.  Each message has an encoding spec, a decoding spec
//! over the generic field layer, executable codecs proved against them, and
//! a proof that decoding inverts encoding.

use vstd::prelude::*;

use vstd::utf8::{decode_utf8, encode_utf8, encode_utf8_decode_utf8, encode_utf8_valid_utf8,
    valid_utf8};

use crate::proto::{
    copy_range, bytes_to_string, enc_fields, field_wf, fields_wf, fold_fields, i32_fields,
    len_fields, lemma_dec_msg_of_enc, lemma_dec_step, lemma_dec_step_fail, lemma_enc_fields_app,
    lemma_fields_wf_app, lemma_fields_wf_i32, lemma_fields_wf_len, lemma_fields_wf_str,
    lemma_fold_fields_app, lemma_fold_fields_singleton, lemma_fold_i32_fields,
    lemma_fold_str_fields, lemma_int32_roundtrip, lemma_parse_field_advance, parse_field,
    parse_fields, read_field, spec_dec_msg, str_fields, u64_low32_to_i32, u64_to_int32,
    emit_int32_field, emit_len_field, emit_string_field, FieldVal, RawVal,
};

verus! {

/// A string field's value, when the field has the right wire shape.
pub open spec fn str_field_val(fv: FieldVal) -> Option<Seq<char>> {
    match fv {
        FieldVal::Len(b) => if valid_utf8(b) {
            Some(decode_utf8(b))
        } else {
            None
        },
        _ => None,
    }
}

/// An `int32` field's value, when the field has the right wire shape.
pub open spec fn i32_field_val(fv: FieldVal) -> Option<i32> {
    match fv {
        FieldVal::Var(n) => Some(u64_to_int32(n)),
        _ => None,
    }
}

// ---------------------------------------------------------------------------
// LineItem
// ---------------------------------------------------------------------------

/// One line of a cart.
#[derive(Debug, Clone, PartialEq)]
pub struct LineItem {
    pub product_id: String,
    pub name: String,
    pub quantity: i32,
}

/// The view of a [`LineItem`].
pub struct LineItemV {
    pub product_id: Seq<char>,
    pub name: Seq<char>,
    pub quantity: i32,
}

impl View for LineItem {
    type V = LineItemV;

    open spec fn view(&self) -> LineItemV {
        LineItemV { product_id: self.product_id@, name: self.name@, quantity: self.quantity }
    }
}

pub open spec fn line_item_default() -> LineItemV {
    LineItemV { product_id: Seq::empty(), name: Seq::empty(), quantity: 0 }
}

pub open spec fn line_item_fields(v: LineItemV) -> Seq<(u64, FieldVal)> {
    str_fields(1, v.product_id) + str_fields(2, v.name) + i32_fields(3, v.quantity)
}

pub open spec fn spec_enc_line_item(v: LineItemV) -> Seq<u8> {
    enc_fields(line_item_fields(v))
}

pub open spec fn line_item_apply(m: LineItemV, tag: u64, fv: FieldVal) -> Option<LineItemV> {
    if tag == 1 {
        match str_field_val(fv) {
            Some(s) => Some(LineItemV { product_id: s, name: m.name, quantity: m.quantity }),
            None => None,
        }
    } else if tag == 2 {
        match str_field_val(fv) {
            Some(s) => Some(LineItemV { product_id: m.product_id, name: s, quantity: m.quantity }),
            None => None,
        }
    } else if tag == 3 {
        match i32_field_val(fv) {
            Some(q) => Some(LineItemV { product_id: m.product_id, name: m.name, quantity: q }),
            None => None,
        }
    } else {
        Some(m)
    }
}

pub open spec fn line_item_action() -> spec_fn(LineItemV, u64, FieldVal) -> Option<LineItemV> {
    |m: LineItemV, tag: u64, fv: FieldVal| line_item_apply(m, tag, fv)
}

pub open spec fn spec_dec_line_item(s: Seq<u8>) -> Option<LineItemV> {
    spec_dec_msg(s, line_item_default(), line_item_action())
}

/// The bounds under which a value is encodable.
pub open spec fn line_item_wf(v: LineItemV) -> bool {
    &&& encode_utf8(v.product_id).len() <= u64::MAX
    &&& encode_utf8(v.name).len() <= u64::MAX
}

pub proof fn lemma_line_item_fields_wf(v: LineItemV)
    requires
        line_item_wf(v),
    ensures
        fields_wf(line_item_fields(v)),
{
    lemma_fields_wf_str(1, v.product_id);
    lemma_fields_wf_str(2, v.name);
    lemma_fields_wf_i32(3, v.quantity);
    lemma_fields_wf_app(str_fields(1, v.product_id), str_fields(2, v.name));
    lemma_fields_wf_app(str_fields(1, v.product_id) + str_fields(2, v.name), i32_fields(3, v.quantity));
}

/// Decoding a line item's encoding yields the line item back.
pub proof fn lemma_line_item_roundtrip(v: LineItemV)
    requires
        line_item_wf(v),
    ensures
        spec_dec_line_item(spec_enc_line_item(v)) == Some(v),
{
    let act = line_item_action();
    let f1 = str_fields(1, v.product_id);
    let f2 = str_fields(2, v.name);
    let f3 = i32_fields(3, v.quantity);
    let d0 = line_item_default();
    let d1 = LineItemV { product_id: v.product_id, name: Seq::empty(), quantity: 0 };
    let d2 = LineItemV { product_id: v.product_id, name: v.name, quantity: 0 };
    lemma_line_item_fields_wf(v);
    lemma_dec_msg_of_enc(line_item_fields(v), d0, act);
    lemma_fold_fields_app(d0, f1 + f2, f3, act);
    lemma_fold_fields_app(d0, f1, f2, act);
    encode_utf8_valid_utf8(v.product_id);
    encode_utf8_decode_utf8(v.product_id);
    lemma_fold_str_fields(d0, 1, v.product_id, act, d1);
    encode_utf8_valid_utf8(v.name);
    encode_utf8_decode_utf8(v.name);
    lemma_fold_str_fields(d1, 2, v.name, act, d2);
    lemma_int32_roundtrip(v.quantity);
    lemma_fold_i32_fields(d2, 3, v.quantity, act, v);
}

/// Encode a line item: product id, name, quantity under tags 1 to 3,
/// default values skipped.
pub fn encode_line_item(m: &LineItem) -> (r: Vec<u8>)
    ensures
        r@ == spec_enc_line_item(m@),
{
    let mut buf: Vec<u8> = Vec::new();
    emit_string_field(&mut buf, 1, m.product_id.as_str());
    emit_string_field(&mut buf, 2, m.name.as_str());
    emit_int32_field(&mut buf, 3, m.quantity);
    proof {
        let f1 = str_fields(1, m.product_id@);
        let f2 = str_fields(2, m.name@);
        let f3 = i32_fields(3, m.quantity);
        lemma_enc_fields_app(f1, f2);
        lemma_enc_fields_app(f1 + f2, f3);
        assert(buf@ =~= enc_fields(f1 + f2 + f3));
    }
    buf
}

/// Decode a line item: later occurrences of a field replace earlier ones,
/// unknown fields are skipped, and a known field of the wrong wire shape or
/// a string field that is not UTF-8 fails the decode.
pub fn decode_line_item(s: &[u8]) -> (r: Option<LineItem>)
    ensures
        match r {
            Some(m) => spec_dec_line_item(s@) == Some(m@),
            None => spec_dec_line_item(s@) is None,
        },
{
    let act = Ghost(line_item_action());
    let mut m = LineItem { product_id: String::new(), name: String::new(), quantity: 0 };
    let mut pos: usize = 0;
    proof {
        assert(m@ == line_item_default());
    }
    while pos < s.len()
        invariant
            pos <= s@.len(),
            spec_dec_line_item(s@) == (match parse_fields(s@, pos as int) {
                None => None::<LineItemV>,
                Some(fs) => fold_fields(m@, fs, act@),
            }),
            act@ == line_item_action(),
        decreases s@.len() - pos,
    {
        let ghost m0 = m@;
        match read_field(s, pos) {
            None => {
                return None;
            }
            Some((tag, rv, npos)) => {
                proof {
                    lemma_parse_field_advance(s@, pos as int);
                }
                let ghost fv = parse_field(s@, pos as int)->Some_0.0.1;
                if tag == 1 {
                    match rv {
                        RawVal::Len(a, b) => {
                            let seg = copy_range(s, a, b);
                            match bytes_to_string(seg.as_slice()) {
                                Some(st) => {
                                    m.product_id = st;
                                    proof {
                                        assert(line_item_apply(m0, tag, fv) == Some(m@));
                                        lemma_dec_step(s@, pos as int, npos as int, tag, fv, m0, m@, act@);
                                    }
                                }
                                None => {
                                    proof {
                                        lemma_dec_step_fail(s@, pos as int, npos as int, tag, fv, m0, act@);
                                    }
                                    return None;
                                }
                            }
                        }
                        _ => {
                            proof {
                                lemma_dec_step_fail(s@, pos as int, npos as int, tag, fv, m0, act@);
                            }
                            return None;
                        }
                    }
                } else if tag == 2 {
                    match rv {
                        RawVal::Len(a, b) => {
                            let seg = copy_range(s, a, b);
                            match bytes_to_string(seg.as_slice()) {
                                Some(st) => {
                                    m.name = st;
                                    proof {
                                        assert(line_item_apply(m0, tag, fv) == Some(m@));
                                        lemma_dec_step(s@, pos as int, npos as int, tag, fv, m0, m@, act@);
                                    }
                                }
                                None => {
                                    proof {
                                        lemma_dec_step_fail(s@, pos as int, npos as int, tag, fv, m0, act@);
                                    }
                                    return None;
                                }
                            }
                        }
                        _ => {
                            proof {
                                lemma_dec_step_fail(s@, pos as int, npos as int, tag, fv, m0, act@);
                            }
                            return None;
                        }
                    }
                } else if tag == 3 {
                    match rv {
                        RawVal::Var(n) => {
                            m.quantity = u64_low32_to_i32(n);
                            proof {
                                assert(line_item_apply(m0, tag, fv) == Some(m@));
                                lemma_dec_step(s@, pos as int, npos as int, tag, fv, m0, m@, act@);
                            }
                        }
                        _ => {
                            proof {
                                lemma_dec_step_fail(s@, pos as int, npos as int, tag, fv, m0, act@);
                            }
                            return None;
                        }
                    }
                } else {
                    proof {
                        assert(line_item_apply(m0, tag, fv) == Some(m0));
                        lemma_dec_step(s@, pos as int, npos as int, tag, fv, m0, m0, act@);
                    }
                }
                pos = npos;
            }
        }
    }
    proof {
        assert(parse_fields(s@, pos as int) == Some(Seq::<(u64, FieldVal)>::empty()));
        assert(fold_fields(m@, Seq::<(u64, FieldVal)>::empty(), act@) == Some(m@));
    }
    Some(m)
}

// ---------------------------------------------------------------------------
// AddLineItem
// ---------------------------------------------------------------------------

/// A request to add a quantity of one product to a cart.
#[derive(Debug, Clone, PartialEq)]
pub struct AddLineItem {
    pub user_id: String,
    pub product_id: String,
    pub name: String,
    pub quantity: i32,
}

/// The view of a [`AddLineItem`].
pub struct AddLineItemV {
    pub user_id: Seq<char>,
    pub product_id: Seq<char>,
    pub name: Seq<char>,
    pub quantity: i32,
}

impl View for AddLineItem {
    type V = AddLineItemV;

    open spec fn view(&self) -> AddLineItemV {
        AddLineItemV { user_id: self.user_id@, product_id: self.product_id@, name: self.name@, quantity: self.quantity }
    }
}

pub open spec fn add_line_item_default() -> AddLineItemV {
    AddLineItemV { user_id: Seq::empty(), product_id: Seq::empty(), name: Seq::empty(), quantity: 0 }
}

pub open spec fn add_line_item_fields(v: AddLineItemV) -> Seq<(u64, FieldVal)> {
    str_fields(1, v.user_id) + str_fields(2, v.product_id) + str_fields(3, v.name) + i32_fields(4, v.quantity)
}

pub open spec fn spec_enc_add_line_item(v: AddLineItemV) -> Seq<u8> {
    enc_fields(add_line_item_fields(v))
}

pub open spec fn add_line_item_apply(m: AddLineItemV, tag: u64, fv: FieldVal) -> Option<AddLineItemV> {
    if tag == 1 {
        match str_field_val(fv) {
            Some(s) => Some(AddLineItemV { user_id: s, product_id: m.product_id, name: m.name, quantity: m.quantity }),
            None => None,
        }
    } else if tag == 2 {
        match str_field_val(fv) {
            Some(s) => Some(AddLineItemV { user_id: m.user_id, product_id: s, name: m.name, quantity: m.quantity }),
            None => None,
        }
    } else if tag == 3 {
        match str_field_val(fv) {
            Some(s) => Some(AddLineItemV { user_id: m.user_id, product_id: m.product_id, name: s, quantity: m.quantity }),
            None => None,
        }
    } else if tag == 4 {
        match i32_field_val(fv) {
            Some(s) => Some(AddLineItemV { user_id: m.user_id, product_id: m.product_id, name: m.name, quantity: s }),
            None => None,
        }
    } else {
        Some(m)
    }
}

pub open spec fn add_line_item_action() -> spec_fn(AddLineItemV, u64, FieldVal) -> Option<AddLineItemV> {
    |m: AddLineItemV, tag: u64, fv: FieldVal| add_line_item_apply(m, tag, fv)
}

pub open spec fn spec_dec_add_line_item(s: Seq<u8>) -> Option<AddLineItemV> {
    spec_dec_msg(s, add_line_item_default(), add_line_item_action())
}

/// The bounds under which a value is encodable.
pub open spec fn add_line_item_wf(v: AddLineItemV) -> bool {
    &&& encode_utf8(v.user_id).len() <= u64::MAX
    &&& encode_utf8(v.product_id).len() <= u64::MAX
    &&& encode_utf8(v.name).len() <= u64::MAX
}

pub proof fn lemma_add_line_item_fields_wf(v: AddLineItemV)
    requires
        add_line_item_wf(v),
    ensures
        fields_wf(add_line_item_fields(v)),
{
    lemma_fields_wf_str(1, v.user_id);
    lemma_fields_wf_str(2, v.product_id);
    lemma_fields_wf_str(3, v.name);
    lemma_fields_wf_i32(4, v.quantity);
    lemma_fields_wf_app(str_fields(1, v.user_id), str_fields(2, v.product_id));
    lemma_fields_wf_app((str_fields(1, v.user_id) + str_fields(2, v.product_id)), str_fields(3, v.name));
    lemma_fields_wf_app(((str_fields(1, v.user_id) + str_fields(2, v.product_id)) + str_fields(3, v.name)), i32_fields(4, v.quantity));
}

/// Decoding an encoding of `v` yields `v` back.
pub proof fn lemma_add_line_item_roundtrip(v: AddLineItemV)
    requires
        add_line_item_wf(v),
    ensures
        spec_dec_add_line_item(spec_enc_add_line_item(v)) == Some(v),
{
    let act = add_line_item_action();
    let f1 = str_fields(1, v.user_id);
    let f2 = str_fields(2, v.product_id);
    let f3 = str_fields(3, v.name);
    let f4 = i32_fields(4, v.quantity);
    let d0 = add_line_item_default();
    let d1 = AddLineItemV { user_id: v.user_id, product_id: Seq::empty(), name: Seq::empty(), quantity: 0 };
    let d2 = AddLineItemV { user_id: v.user_id, product_id: v.product_id, name: Seq::empty(), quantity: 0 };
    let d3 = AddLineItemV { user_id: v.user_id, product_id: v.product_id, name: v.name, quantity: 0 };
    lemma_add_line_item_fields_wf(v);
    lemma_dec_msg_of_enc(add_line_item_fields(v), d0, act);
    lemma_fold_fields_app(d0, f1 + f2 + f3, f4, act);
    lemma_fold_fields_app(d0, f1 + f2, f3, act);
    lemma_fold_fields_app(d0, f1, f2, act);
    encode_utf8_valid_utf8(v.user_id);
    encode_utf8_decode_utf8(v.user_id);
    lemma_fold_str_fields(d0, 1, v.user_id, act, d1);
    encode_utf8_valid_utf8(v.product_id);
    encode_utf8_decode_utf8(v.product_id);
    lemma_fold_str_fields(d1, 2, v.product_id, act, d2);
    encode_utf8_valid_utf8(v.name);
    encode_utf8_decode_utf8(v.name);
    lemma_fold_str_fields(d2, 3, v.name, act, d3);
    lemma_int32_roundtrip(v.quantity);
    lemma_fold_i32_fields(d3, 4, v.quantity, act, v);
}

/// Encode the message, default-valued fields skipped.
pub fn encode_add_line_item(m: &AddLineItem) -> (r: Vec<u8>)
    ensures
        r@ == spec_enc_add_line_item(m@),
{
    let mut buf: Vec<u8> = Vec::new();
    emit_string_field(&mut buf, 1, m.user_id.as_str());
    emit_string_field(&mut buf, 2, m.product_id.as_str());
    emit_string_field(&mut buf, 3, m.name.as_str());
    emit_int32_field(&mut buf, 4, m.quantity);
    proof {
        let f1 = str_fields(1, m.user_id@);
        let f2 = str_fields(2, m.product_id@);
        let f3 = str_fields(3, m.name@);
        let f4 = i32_fields(4, m.quantity);
        lemma_enc_fields_app(f1, f2);
        lemma_enc_fields_app(f1 + f2, f3);
        lemma_enc_fields_app(f1 + f2 + f3, f4);
        assert(buf@ =~= enc_fields(f1 + f2 + f3 + f4));
    }
    buf
}

/// Decode the message; see [`decode_line_item`] for the field rules.
pub fn decode_add_line_item(s: &[u8]) -> (r: Option<AddLineItem>)
    ensures
        match r {
            Some(m) => spec_dec_add_line_item(s@) == Some(m@),
            None => spec_dec_add_line_item(s@) is None,
        },
{
    let act = Ghost(add_line_item_action());
    let mut m = AddLineItem { user_id: String::new(), product_id: String::new(), name: String::new(), quantity: 0 };
    let mut pos: usize = 0;
    proof {
        assert(m@ == add_line_item_default());
    }
    while pos < s.len()
        invariant
            pos <= s@.len(),
            spec_dec_add_line_item(s@) == (match parse_fields(s@, pos as int) {
                None => None::<AddLineItemV>,
                Some(fs) => fold_fields(m@, fs, act@),
            }),
            act@ == add_line_item_action(),
        decreases s@.len() - pos,
    {
        let ghost m0 = m@;
        match read_field(s, pos) {
            None => {
                return None;
            }
            Some((tag, rv, npos)) => {
                proof {
                    lemma_parse_field_advance(s@, pos as int);
                }
                let ghost fv = parse_field(s@, pos as int)->Some_0.0.1;
                if tag == 1 {
                    match rv {
                        RawVal::Len(a, b) => {
                            let seg = copy_range(s, a, b);
                            match bytes_to_string(seg.as_slice()) {
                                Some(st) => {
                                    m.user_id = st;
                                    proof {
                                        assert(add_line_item_apply(m0, tag, fv) == Some(m@));
                                        lemma_dec_step(s@, pos as int, npos as int, tag, fv, m0, m@, act@);
                                    }
                                }
                                None => {
                                    proof {
                                        lemma_dec_step_fail(s@, pos as int, npos as int, tag, fv, m0, act@);
                                    }
                                    return None;
                                }
                            }
                        }
                        _ => {
                            proof {
                                lemma_dec_step_fail(s@, pos as int, npos as int, tag, fv, m0, act@);
                            }
                            return None;
                        }
                    }
                } else if tag == 2 {
                    match rv {
                        RawVal::Len(a, b) => {
                            let seg = copy_range(s, a, b);
                            match bytes_to_string(seg.as_slice()) {
                                Some(st) => {
                                    m.product_id = st;
                                    proof {
                                        assert(add_line_item_apply(m0, tag, fv) == Some(m@));
                                        lemma_dec_step(s@, pos as int, npos as int, tag, fv, m0, m@, act@);
                                    }
                                }
                                None => {
                                    proof {
                                        lemma_dec_step_fail(s@, pos as int, npos as int, tag, fv, m0, act@);
                                    }
                                    return None;
                                }
                            }
                        }
                        _ => {
                            proof {
                                lemma_dec_step_fail(s@, pos as int, npos as int, tag, fv, m0, act@);
                            }
                            return None;
                        }
                    }
                } else if tag == 3 {
                    match rv {
                        RawVal::Len(a, b) => {
                            let seg = copy_range(s, a, b);
                            match bytes_to_string(seg.as_slice()) {
                                Some(st) => {
                                    m.name = st;
                                    proof {
                                        assert(add_line_item_apply(m0, tag, fv) == Some(m@));
                                        lemma_dec_step(s@, pos as int, npos as int, tag, fv, m0, m@, act@);
                                    }
                                }
                                None => {
                                    proof {
                                        lemma_dec_step_fail(s@, pos as int, npos as int, tag, fv, m0, act@);
                                    }
                                    return None;
                                }
                            }
                        }
                        _ => {
                            proof {
                                lemma_dec_step_fail(s@, pos as int, npos as int, tag, fv, m0, act@);
                            }
                            return None;
                        }
                    }
                } else if tag == 4 {
                    match rv {
                        RawVal::Var(n) => {
                            m.quantity = u64_low32_to_i32(n);
                            proof {
                                assert(add_line_item_apply(m0, tag, fv) == Some(m@));
                                lemma_dec_step(s@, pos as int, npos as int, tag, fv, m0, m@, act@);
                            }
                        }
                        _ => {
                            proof {
                                lemma_dec_step_fail(s@, pos as int, npos as int, tag, fv, m0, act@);
                            }
                            return None;
                        }
                    }
                } else {
                    proof {
                        assert(add_line_item_apply(m0, tag, fv) == Some(m0));
                        lemma_dec_step(s@, pos as int, npos as int, tag, fv, m0, m0, act@);
                    }
                }
                pos = npos;
            }
        }
    }
    proof {
        assert(parse_fields(s@, pos as int) == Some(Seq::<(u64, FieldVal)>::empty()));
        assert(fold_fields(m@, Seq::<(u64, FieldVal)>::empty(), act@) == Some(m@));
    }
    Some(m)
}
// ---------------------------------------------------------------------------
// RemoveLineItem
// ---------------------------------------------------------------------------

/// A request to remove one product from a cart.
#[derive(Debug, Clone, PartialEq)]
pub struct RemoveLineItem {
    pub user_id: String,
    pub product_id: String,
}

/// The view of a [`RemoveLineItem`].
pub struct RemoveLineItemV {
    pub user_id: Seq<char>,
    pub product_id: Seq<char>,
}

impl View for RemoveLineItem {
    type V = RemoveLineItemV;

    open spec fn view(&self) -> RemoveLineItemV {
        RemoveLineItemV { user_id: self.user_id@, product_id: self.product_id@ }
    }
}

pub open spec fn remove_line_item_default() -> RemoveLineItemV {
    RemoveLineItemV { user_id: Seq::empty(), product_id: Seq::empty() }
}

pub open spec fn remove_line_item_fields(v: RemoveLineItemV) -> Seq<(u64, FieldVal)> {
    str_fields(1, v.user_id) + str_fields(2, v.product_id)
}

pub open spec fn spec_enc_remove_line_item(v: RemoveLineItemV) -> Seq<u8> {
    enc_fields(remove_line_item_fields(v))
}

pub open spec fn remove_line_item_apply(m: RemoveLineItemV, tag: u64, fv: FieldVal) -> Option<RemoveLineItemV> {
    if tag == 1 {
        match str_field_val(fv) {
            Some(s) => Some(RemoveLineItemV { user_id: s, product_id: m.product_id }),
            None => None,
        }
    } else if tag == 2 {
        match str_field_val(fv) {
            Some(s) => Some(RemoveLineItemV { user_id: m.user_id, product_id: s }),
            None => None,
        }
    } else {
        Some(m)
    }
}

pub open spec fn remove_line_item_action() -> spec_fn(RemoveLineItemV, u64, FieldVal) -> Option<RemoveLineItemV> {
    |m: RemoveLineItemV, tag: u64, fv: FieldVal| remove_line_item_apply(m, tag, fv)
}

pub open spec fn spec_dec_remove_line_item(s: Seq<u8>) -> Option<RemoveLineItemV> {
    spec_dec_msg(s, remove_line_item_default(), remove_line_item_action())
}

/// The bounds under which a value is encodable.
pub open spec fn remove_line_item_wf(v: RemoveLineItemV) -> bool {
    &&& encode_utf8(v.user_id).len() <= u64::MAX
    &&& encode_utf8(v.product_id).len() <= u64::MAX
}

pub proof fn lemma_remove_line_item_fields_wf(v: RemoveLineItemV)
    requires
        remove_line_item_wf(v),
    ensures
        fields_wf(remove_line_item_fields(v)),
{
    lemma_fields_wf_str(1, v.user_id);
    lemma_fields_wf_str(2, v.product_id);
    lemma_fields_wf_app(str_fields(1, v.user_id), str_fields(2, v.product_id));
}

/// Decoding an encoding of `v` yields `v` back.
pub proof fn lemma_remove_line_item_roundtrip(v: RemoveLineItemV)
    requires
        remove_line_item_wf(v),
    ensures
        spec_dec_remove_line_item(spec_enc_remove_line_item(v)) == Some(v),
{
    let act = remove_line_item_action();
    let f1 = str_fields(1, v.user_id);
    let f2 = str_fields(2, v.product_id);
    let d0 = remove_line_item_default();
    let d1 = RemoveLineItemV { user_id: v.user_id, product_id: Seq::empty() };
    lemma_remove_line_item_fields_wf(v);
    lemma_dec_msg_of_enc(remove_line_item_fields(v), d0, act);
    lemma_fold_fields_app(d0, f1, f2, act);
    encode_utf8_valid_utf8(v.user_id);
    encode_utf8_decode_utf8(v.user_id);
    lemma_fold_str_fields(d0, 1, v.user_id, act, d1);
    encode_utf8_valid_utf8(v.product_id);
    encode_utf8_decode_utf8(v.product_id);
    lemma_fold_str_fields(d1, 2, v.product_id, act, v);
}

/// Encode the message, default-valued fields skipped.
pub fn encode_remove_line_item(m: &RemoveLineItem) -> (r: Vec<u8>)
    ensures
        r@ == spec_enc_remove_line_item(m@),
{
    let mut buf: Vec<u8> = Vec::new();
    emit_string_field(&mut buf, 1, m.user_id.as_str());
    emit_string_field(&mut buf, 2, m.product_id.as_str());
    proof {
        let f1 = str_fields(1, m.user_id@);
        let f2 = str_fields(2, m.product_id@);
        lemma_enc_fields_app(f1, f2);
        assert(buf@ =~= enc_fields(f1 + f2));
    }
    buf
}

/// Decode the message; see [`decode_line_item`] for the field rules.
pub fn decode_remove_line_item(s: &[u8]) -> (r: Option<RemoveLineItem>)
    ensures
        match r {
            Some(m) => spec_dec_remove_line_item(s@) == Some(m@),
            None => spec_dec_remove_line_item(s@) is None,
        },
{
    let act = Ghost(remove_line_item_action());
    let mut m = RemoveLineItem { user_id: String::new(), product_id: String::new() };
    let mut pos: usize = 0;
    proof {
        assert(m@ == remove_line_item_default());
    }
    while pos < s.len()
        invariant
            pos <= s@.len(),
            spec_dec_remove_line_item(s@) == (match parse_fields(s@, pos as int) {
                None => None::<RemoveLineItemV>,
                Some(fs) => fold_fields(m@, fs, act@),
            }),
            act@ == remove_line_item_action(),
        decreases s@.len() - pos,
    {
        let ghost m0 = m@;
        match read_field(s, pos) {
            None => {
                return None;
            }
            Some((tag, rv, npos)) => {
                proof {
                    lemma_parse_field_advance(s@, pos as int);
                }
                let ghost fv = parse_field(s@, pos as int)->Some_0.0.1;
                if tag == 1 {
                    match rv {
                        RawVal::Len(a, b) => {
                            let seg = copy_range(s, a, b);
                            match bytes_to_string(seg.as_slice()) {
                                Some(st) => {
                                    m.user_id = st;
                                    proof {
                                        assert(remove_line_item_apply(m0, tag, fv) == Some(m@));
                                        lemma_dec_step(s@, pos as int, npos as int, tag, fv, m0, m@, act@);
                                    }
                                }
                                None => {
                                    proof {
                                        lemma_dec_step_fail(s@, pos as int, npos as int, tag, fv, m0, act@);
                                    }
                                    return None;
                                }
                            }
                        }
                        _ => {
                            proof {
                                lemma_dec_step_fail(s@, pos as int, npos as int, tag, fv, m0, act@);
                            }
                            return None;
                        }
                    }
                } else if tag == 2 {
                    match rv {
                        RawVal::Len(a, b) => {
                            let seg = copy_range(s, a, b);
                            match bytes_to_string(seg.as_slice()) {
                                Some(st) => {
                                    m.product_id = st;
                                    proof {
                                        assert(remove_line_item_apply(m0, tag, fv) == Some(m@));
                                        lemma_dec_step(s@, pos as int, npos as int, tag, fv, m0, m@, act@);
                                    }
                                }
                                None => {
                                    proof {
                                        lemma_dec_step_fail(s@, pos as int, npos as int, tag, fv, m0, act@);
                                    }
                                    return None;
                                }
                            }
                        }
                        _ => {
                            proof {
                                lemma_dec_step_fail(s@, pos as int, npos as int, tag, fv, m0, act@);
                            }
                            return None;
                        }
                    }
                } else {
                    proof {
                        assert(remove_line_item_apply(m0, tag, fv) == Some(m0));
                        lemma_dec_step(s@, pos as int, npos as int, tag, fv, m0, m0, act@);
                    }
                }
                pos = npos;
            }
        }
    }
    proof {
        assert(parse_fields(s@, pos as int) == Some(Seq::<(u64, FieldVal)>::empty()));
        assert(fold_fields(m@, Seq::<(u64, FieldVal)>::empty(), act@) == Some(m@));
    }
    Some(m)
}
// ---------------------------------------------------------------------------
// GetShoppingCart
// ---------------------------------------------------------------------------

/// A request to read a cart.
#[derive(Debug, Clone, PartialEq)]
pub struct GetShoppingCart {
    pub user_id: String,
}

/// The view of a [`GetShoppingCart`].
pub struct GetShoppingCartV {
    pub user_id: Seq<char>,
}

impl View for GetShoppingCart {
    type V = GetShoppingCartV;

    open spec fn view(&self) -> GetShoppingCartV {
        GetShoppingCartV { user_id: self.user_id@ }
    }
}

pub open spec fn get_shopping_cart_default() -> GetShoppingCartV {
    GetShoppingCartV { user_id: Seq::empty() }
}

pub open spec fn get_shopping_cart_fields(v: GetShoppingCartV) -> Seq<(u64, FieldVal)> {
    str_fields(1, v.user_id)
}

pub open spec fn spec_enc_get_shopping_cart(v: GetShoppingCartV) -> Seq<u8> {
    enc_fields(get_shopping_cart_fields(v))
}

pub open spec fn get_shopping_cart_apply(m: GetShoppingCartV, tag: u64, fv: FieldVal) -> Option<GetShoppingCartV> {
    if tag == 1 {
        match str_field_val(fv) {
            Some(s) => Some(GetShoppingCartV { user_id: s }),
            None => None,
        }
    } else {
        Some(m)
    }
}

pub open spec fn get_shopping_cart_action() -> spec_fn(GetShoppingCartV, u64, FieldVal) -> Option<GetShoppingCartV> {
    |m: GetShoppingCartV, tag: u64, fv: FieldVal| get_shopping_cart_apply(m, tag, fv)
}

pub open spec fn spec_dec_get_shopping_cart(s: Seq<u8>) -> Option<GetShoppingCartV> {
    spec_dec_msg(s, get_shopping_cart_default(), get_shopping_cart_action())
}

/// The bounds under which a value is encodable.
pub open spec fn get_shopping_cart_wf(v: GetShoppingCartV) -> bool {
    encode_utf8(v.user_id).len() <= u64::MAX
}

pub proof fn lemma_get_shopping_cart_fields_wf(v: GetShoppingCartV)
    requires
        get_shopping_cart_wf(v),
    ensures
        fields_wf(get_shopping_cart_fields(v)),
{
    lemma_fields_wf_str(1, v.user_id);
}

/// Decoding an encoding of `v` yields `v` back.
pub proof fn lemma_get_shopping_cart_roundtrip(v: GetShoppingCartV)
    requires
        get_shopping_cart_wf(v),
    ensures
        spec_dec_get_shopping_cart(spec_enc_get_shopping_cart(v)) == Some(v),
{
    let act = get_shopping_cart_action();
    let f1 = str_fields(1, v.user_id);
    let d0 = get_shopping_cart_default();
    lemma_get_shopping_cart_fields_wf(v);
    lemma_dec_msg_of_enc(get_shopping_cart_fields(v), d0, act);
    encode_utf8_valid_utf8(v.user_id);
    encode_utf8_decode_utf8(v.user_id);
    lemma_fold_str_fields(d0, 1, v.user_id, act, v);
}

/// Encode the message, default-valued fields skipped.
pub fn encode_get_shopping_cart(m: &GetShoppingCart) -> (r: Vec<u8>)
    ensures
        r@ == spec_enc_get_shopping_cart(m@),
{
    let mut buf: Vec<u8> = Vec::new();
    emit_string_field(&mut buf, 1, m.user_id.as_str());
    proof {
        let f1 = str_fields(1, m.user_id@);
        assert(buf@ =~= enc_fields(f1));
    }
    buf
}

/// Decode the message; see [`decode_line_item`] for the field rules.
pub fn decode_get_shopping_cart(s: &[u8]) -> (r: Option<GetShoppingCart>)
    ensures
        match r {
            Some(m) => spec_dec_get_shopping_cart(s@) == Some(m@),
            None => spec_dec_get_shopping_cart(s@) is None,
        },
{
    let act = Ghost(get_shopping_cart_action());
    let mut m = GetShoppingCart { user_id: String::new() };
    let mut pos: usize = 0;
    proof {
        assert(m@ == get_shopping_cart_default());
    }
    while pos < s.len()
        invariant
            pos <= s@.len(),
            spec_dec_get_shopping_cart(s@) == (match parse_fields(s@, pos as int) {
                None => None::<GetShoppingCartV>,
                Some(fs) => fold_fields(m@, fs, act@),
            }),
            act@ == get_shopping_cart_action(),
        decreases s@.len() - pos,
    {
        let ghost m0 = m@;
        match read_field(s, pos) {
            None => {
                return None;
            }
            Some((tag, rv, npos)) => {
                proof {
                    lemma_parse_field_advance(s@, pos as int);
                }
                let ghost fv = parse_field(s@, pos as int)->Some_0.0.1;
                if tag == 1 {
                    match rv {
                        RawVal::Len(a, b) => {
                            let seg = copy_range(s, a, b);
                            match bytes_to_string(seg.as_slice()) {
                                Some(st) => {
                                    m.user_id = st;
                                    proof {
                                        assert(get_shopping_cart_apply(m0, tag, fv) == Some(m@));
                                        lemma_dec_step(s@, pos as int, npos as int, tag, fv, m0, m@, act@);
                                    }
                                }
                                None => {
                                    proof {
                                        lemma_dec_step_fail(s@, pos as int, npos as int, tag, fv, m0, act@);
                                    }
                                    return None;
                                }
                            }
                        }
                        _ => {
                            proof {
                                lemma_dec_step_fail(s@, pos as int, npos as int, tag, fv, m0, act@);
                            }
                            return None;
                        }
                    }
                } else {
                    proof {
                        assert(get_shopping_cart_apply(m0, tag, fv) == Some(m0));
                        lemma_dec_step(s@, pos as int, npos as int, tag, fv, m0, m0, act@);
                    }
                }
                pos = npos;
            }
        }
    }
    proof {
        assert(parse_fields(s@, pos as int) == Some(Seq::<(u64, FieldVal)>::empty()));
        assert(fold_fields(m@, Seq::<(u64, FieldVal)>::empty(), act@) == Some(m@));
    }
    Some(m)
}
// ---------------------------------------------------------------------------
// ItemRemoved
// ---------------------------------------------------------------------------

/// The event recording that a product left the cart.
#[derive(Debug, Clone, PartialEq)]
pub struct ItemRemoved {
    pub product_id: String,
}

/// The view of a [`ItemRemoved`].
pub struct ItemRemovedV {
    pub product_id: Seq<char>,
}

impl View for ItemRemoved {
    type V = ItemRemovedV;

    open spec fn view(&self) -> ItemRemovedV {
        ItemRemovedV { product_id: self.product_id@ }
    }
}

pub open spec fn item_removed_default() -> ItemRemovedV {
    ItemRemovedV { product_id: Seq::empty() }
}

pub open spec fn item_removed_fields(v: ItemRemovedV) -> Seq<(u64, FieldVal)> {
    str_fields(1, v.product_id)
}

pub open spec fn spec_enc_item_removed(v: ItemRemovedV) -> Seq<u8> {
    enc_fields(item_removed_fields(v))
}

pub open spec fn item_removed_apply(m: ItemRemovedV, tag: u64, fv: FieldVal) -> Option<ItemRemovedV> {
    if tag == 1 {
        match str_field_val(fv) {
            Some(s) => Some(ItemRemovedV { product_id: s }),
            None => None,
        }
    } else {
        Some(m)
    }
}

pub open spec fn item_removed_action() -> spec_fn(ItemRemovedV, u64, FieldVal) -> Option<ItemRemovedV> {
    |m: ItemRemovedV, tag: u64, fv: FieldVal| item_removed_apply(m, tag, fv)
}

pub open spec fn spec_dec_item_removed(s: Seq<u8>) -> Option<ItemRemovedV> {
    spec_dec_msg(s, item_removed_default(), item_removed_action())
}

/// The bounds under which a value is encodable.
pub open spec fn item_removed_wf(v: ItemRemovedV) -> bool {
    encode_utf8(v.product_id).len() <= u64::MAX
}

pub proof fn lemma_item_removed_fields_wf(v: ItemRemovedV)
    requires
        item_removed_wf(v),
    ensures
        fields_wf(item_removed_fields(v)),
{
    lemma_fields_wf_str(1, v.product_id);
}

/// Decoding an encoding of `v` yields `v` back.
pub proof fn lemma_item_removed_roundtrip(v: ItemRemovedV)
    requires
        item_removed_wf(v),
    ensures
        spec_dec_item_removed(spec_enc_item_removed(v)) == Some(v),
{
    let act = item_removed_action();
    let f1 = str_fields(1, v.product_id);
    let d0 = item_removed_default();
    lemma_item_removed_fields_wf(v);
    lemma_dec_msg_of_enc(item_removed_fields(v), d0, act);
    encode_utf8_valid_utf8(v.product_id);
    encode_utf8_decode_utf8(v.product_id);
    lemma_fold_str_fields(d0, 1, v.product_id, act, v);
}

/// Encode the message, default-valued fields skipped.
pub fn encode_item_removed(m: &ItemRemoved) -> (r: Vec<u8>)
    ensures
        r@ == spec_enc_item_removed(m@),
{
    let mut buf: Vec<u8> = Vec::new();
    emit_string_field(&mut buf, 1, m.product_id.as_str());
    proof {
        let f1 = str_fields(1, m.product_id@);
        assert(buf@ =~= enc_fields(f1));
    }
    buf
}

/// Decode the message; see [`decode_line_item`] for the field rules.
pub fn decode_item_removed(s: &[u8]) -> (r: Option<ItemRemoved>)
    ensures
        match r {
            Some(m) => spec_dec_item_removed(s@) == Some(m@),
            None => spec_dec_item_removed(s@) is None,
        },
{
    let act = Ghost(item_removed_action());
    let mut m = ItemRemoved { product_id: String::new() };
    let mut pos: usize = 0;
    proof {
        assert(m@ == item_removed_default());
    }
    while pos < s.len()
        invariant
            pos <= s@.len(),
            spec_dec_item_removed(s@) == (match parse_fields(s@, pos as int) {
                None => None::<ItemRemovedV>,
                Some(fs) => fold_fields(m@, fs, act@),
            }),
            act@ == item_removed_action(),
        decreases s@.len() - pos,
    {
        let ghost m0 = m@;
        match read_field(s, pos) {
            None => {
                return None;
            }
            Some((tag, rv, npos)) => {
                proof {
                    lemma_parse_field_advance(s@, pos as int);
                }
                let ghost fv = parse_field(s@, pos as int)->Some_0.0.1;
                if tag == 1 {
                    match rv {
                        RawVal::Len(a, b) => {
                            let seg = copy_range(s, a, b);
                            match bytes_to_string(seg.as_slice()) {
                                Some(st) => {
                                    m.product_id = st;
                                    proof {
                                        assert(item_removed_apply(m0, tag, fv) == Some(m@));
                                        lemma_dec_step(s@, pos as int, npos as int, tag, fv, m0, m@, act@);
                                    }
                                }
                                None => {
                                    proof {
                                        lemma_dec_step_fail(s@, pos as int, npos as int, tag, fv, m0, act@);
                                    }
                                    return None;
                                }
                            }
                        }
                        _ => {
                            proof {
                                lemma_dec_step_fail(s@, pos as int, npos as int, tag, fv, m0, act@);
                            }
                            return None;
                        }
                    }
                } else {
                    proof {
                        assert(item_removed_apply(m0, tag, fv) == Some(m0));
                        lemma_dec_step(s@, pos as int, npos as int, tag, fv, m0, m0, act@);
                    }
                }
                pos = npos;
            }
        }
    }
    proof {
        assert(parse_fields(s@, pos as int) == Some(Seq::<(u64, FieldVal)>::empty()));
        assert(fold_fields(m@, Seq::<(u64, FieldVal)>::empty(), act@) == Some(m@));
    }
    Some(m)
}

// ---------------------------------------------------------------------------
// Cart
// ---------------------------------------------------------------------------

/// The contents of a cart: its line items, in order.
#[derive(Debug, Clone, PartialEq)]
pub struct Cart {
    pub items: Vec<LineItem>,
}

/// The view of a [`Cart`].
pub struct CartV {
    pub items: Seq<LineItemV>,
}

impl View for Cart {
    type V = CartV;

    open spec fn view(&self) -> CartV {
        CartV { items: Seq::new(self.items@.len(), |i: int| self.items@[i]@) }
    }
}

pub open spec fn cart_default() -> CartV {
    CartV { items: Seq::empty() }
}

/// One embedded-message field per item, in order, under tag 1.
pub open spec fn cart_item_fields(items: Seq<LineItemV>) -> Seq<(u64, FieldVal)> {
    Seq::new(items.len(), |k: int| (1u64, FieldVal::Len(spec_enc_line_item(items[k]))))
}

pub open spec fn cart_fields(v: CartV) -> Seq<(u64, FieldVal)> {
    cart_item_fields(v.items)
}

pub open spec fn spec_enc_cart(v: CartV) -> Seq<u8> {
    enc_fields(cart_fields(v))
}

pub open spec fn cart_apply(m: CartV, tag: u64, fv: FieldVal) -> Option<CartV> {
    if tag == 1 {
        match fv {
            FieldVal::Len(b) => match spec_dec_line_item(b) {
                Some(li) => Some(CartV { items: m.items.push(li) }),
                None => None,
            },
            _ => None,
        }
    } else {
        Some(m)
    }
}

pub open spec fn cart_action() -> spec_fn(CartV, u64, FieldVal) -> Option<CartV> {
    |m: CartV, tag: u64, fv: FieldVal| cart_apply(m, tag, fv)
}

pub open spec fn spec_dec_cart(s: Seq<u8>) -> Option<CartV> {
    spec_dec_msg(s, cart_default(), cart_action())
}

/// The bounds under which a value is encodable.
pub open spec fn cart_wf(v: CartV) -> bool {
    forall|k: int|
        0 <= k < v.items.len() ==> #[trigger] line_item_wf(v.items[k]) && spec_enc_line_item(
            v.items[k],
        ).len() <= u64::MAX
}

pub proof fn lemma_cart_fields_wf(v: CartV)
    requires
        cart_wf(v),
    ensures
        fields_wf(cart_fields(v)),
{
    let fs = cart_fields(v);
    assert forall|k: int| 0 <= k < fs.len() implies #[trigger] field_wf(fs[k].0, fs[k].1) by {
        assert(line_item_wf(v.items[k]));
        assert(fs[k] == (1u64, FieldVal::Len(spec_enc_line_item(v.items[k]))));
    }
}

/// Folding the item fields appends the items, in order.
proof fn lemma_fold_cart_items(acc: Seq<LineItemV>, items: Seq<LineItemV>)
    requires
        forall|k: int|
            0 <= k < items.len() ==> #[trigger] line_item_wf(items[k]) && spec_enc_line_item(
                items[k],
            ).len() <= u64::MAX,
    ensures
        fold_fields(CartV { items: acc }, cart_item_fields(items), cart_action()) == Some(
            CartV { items: acc + items },
        ),
    decreases items.len(),
{
    let act = cart_action();
    if items.len() == 0 {
        assert(cart_item_fields(items) =~= Seq::<(u64, FieldVal)>::empty());
        assert(fold_fields(CartV { items: acc }, Seq::<(u64, FieldVal)>::empty(), act) == Some(
            CartV { items: acc },
        ));
        assert(acc + items =~= acc);
    } else {
        let f0 = (1u64, FieldVal::Len(spec_enc_line_item(items[0])));
        let rest = cart_item_fields(items.drop_first());
        assert(cart_item_fields(items) =~= seq![f0] + rest);
        lemma_fold_fields_app(CartV { items: acc }, seq![f0], rest, act);
        lemma_fold_fields_singleton(CartV { items: acc }, f0.0, f0.1, act);
        assert(line_item_wf(items[0]));
        lemma_line_item_roundtrip(items[0]);
        assert(forall|k: int|
            0 <= k < items.drop_first().len() ==> #[trigger] line_item_wf(items.drop_first()[k])
                && spec_enc_line_item(items.drop_first()[k]).len() <= u64::MAX);
        lemma_fold_cart_items(acc.push(items[0]), items.drop_first());
        assert(acc.push(items[0]) + items.drop_first() =~= acc + items);
    }
}

/// Decoding a cart's encoding yields the cart back.
pub proof fn lemma_cart_roundtrip(v: CartV)
    requires
        cart_wf(v),
    ensures
        spec_dec_cart(spec_enc_cart(v)) == Some(v),
{
    lemma_cart_fields_wf(v);
    lemma_dec_msg_of_enc(cart_fields(v), cart_default(), cart_action());
    lemma_fold_cart_items(Seq::empty(), v.items);
    assert(Seq::<LineItemV>::empty() + v.items =~= v.items);
}

/// Encode a cart: each item as one embedded message under tag 1.
pub fn encode_cart(m: &Cart) -> (r: Vec<u8>)
    ensures
        r@ == spec_enc_cart(m@),
{
    let mut buf: Vec<u8> = Vec::new();
    let n = m.items.len();
    let mut i: usize = 0;
    proof {
        assert(cart_item_fields(m@.items.take(0)) =~= Seq::<(u64, FieldVal)>::empty());
        assert(buf@ =~= enc_fields(cart_item_fields(m@.items.take(0))));
    }
    while i < n
        invariant
            i <= n,
            n == m.items@.len(),
            m@.items.len() == n,
            buf@ == enc_fields(cart_item_fields(m@.items.take(i as int))),
        decreases n - i,
    {
        let payload = encode_line_item(&m.items[i]);
        emit_len_field(&mut buf, 1, &payload);
        proof {
            let pre = cart_item_fields(m@.items.take(i as int));
            let f = (1u64, FieldVal::Len(spec_enc_line_item(m@.items[i as int])));
            assert(cart_item_fields(m@.items.take(i + 1)) =~= pre + seq![f]);
            lemma_enc_fields_app(pre, seq![f]);
            assert(len_fields(1, payload@) =~= seq![f]);
            assert(buf@ =~= enc_fields(pre) + enc_fields(seq![f]));
        }
        i = i + 1;
    }
    proof {
        assert(m@.items.take(n as int) =~= m@.items);
    }
    buf
}

/// Decode a cart: each tag-1 field appends one item; a malformed item
/// fails the decode, unknown fields are skipped.
pub fn decode_cart(s: &[u8]) -> (r: Option<Cart>)
    ensures
        match r {
            Some(m) => spec_dec_cart(s@) == Some(m@),
            None => spec_dec_cart(s@) is None,
        },
{
    let act = Ghost(cart_action());
    let mut m = Cart { items: Vec::new() };
    let mut pos: usize = 0;
    proof {
        assert(m@.items =~= cart_default().items);
        assert(m@ == cart_default());
    }
    while pos < s.len()
        invariant
            pos <= s@.len(),
            spec_dec_cart(s@) == (match parse_fields(s@, pos as int) {
                None => None::<CartV>,
                Some(fs) => fold_fields(m@, fs, act@),
            }),
            act@ == cart_action(),
        decreases s@.len() - pos,
    {
        let ghost m0 = m@;
        match read_field(s, pos) {
            None => {
                return None;
            }
            Some((tag, rv, npos)) => {
                proof {
                    lemma_parse_field_advance(s@, pos as int);
                }
                let ghost fv = parse_field(s@, pos as int)->Some_0.0.1;
                if tag == 1 {
                    match rv {
                        RawVal::Len(a, b) => {
                            let seg = copy_range(s, a, b);
                            match decode_line_item(seg.as_slice()) {
                                Some(li) => {
                                    let ghost liv = li@;
                                    m.items.push(li);
                                    proof {
                                        assert(m@.items =~= m0.items.push(liv));
                                        assert(cart_apply(m0, tag, fv) == Some(m@));
                                        lemma_dec_step(s@, pos as int, npos as int, tag, fv, m0, m@, act@);
                                    }
                                }
                                None => {
                                    proof {
                                        lemma_dec_step_fail(s@, pos as int, npos as int, tag, fv, m0, act@);
                                    }
                                    return None;
                                }
                            }
                        }
                        _ => {
                            proof {
                                lemma_dec_step_fail(s@, pos as int, npos as int, tag, fv, m0, act@);
                            }
                            return None;
                        }
                    }
                } else {
                    proof {
                        assert(cart_apply(m0, tag, fv) == Some(m0));
                        lemma_dec_step(s@, pos as int, npos as int, tag, fv, m0, m0, act@);
                    }
                }
                pos = npos;
            }
        }
    }
    proof {
        assert(parse_fields(s@, pos as int) == Some(Seq::<(u64, FieldVal)>::empty()));
        assert(fold_fields(m@, Seq::<(u64, FieldVal)>::empty(), act@) == Some(m@));
    }
    Some(m)
}

// ---------------------------------------------------------------------------
// ItemAdded
// ---------------------------------------------------------------------------

/// The event recording that a line item entered the cart.
#[derive(Debug, Clone, PartialEq)]
pub struct ItemAdded {
    pub item: Option<LineItem>,
}

/// The view of an [`ItemAdded`].
pub struct ItemAddedV {
    pub item: Option<LineItemV>,
}

impl View for ItemAdded {
    type V = ItemAddedV;

    open spec fn view(&self) -> ItemAddedV {
        ItemAddedV {
            item: match self.item {
                Some(li) => Some(li@),
                None => None,
            },
        }
    }
}

pub open spec fn item_added_default() -> ItemAddedV {
    ItemAddedV { item: None }
}

pub open spec fn item_added_fields(v: ItemAddedV) -> Seq<(u64, FieldVal)> {
    match v.item {
        Some(li) => len_fields(1, spec_enc_line_item(li)),
        None => Seq::empty(),
    }
}

pub open spec fn spec_enc_item_added(v: ItemAddedV) -> Seq<u8> {
    enc_fields(item_added_fields(v))
}

pub open spec fn item_added_apply(m: ItemAddedV, tag: u64, fv: FieldVal) -> Option<ItemAddedV> {
    if tag == 1 {
        match fv {
            FieldVal::Len(b) => match spec_dec_line_item(b) {
                Some(li) => Some(ItemAddedV { item: Some(li) }),
                None => None,
            },
            _ => None,
        }
    } else {
        Some(m)
    }
}

pub open spec fn item_added_action() -> spec_fn(ItemAddedV, u64, FieldVal) -> Option<ItemAddedV> {
    |m: ItemAddedV, tag: u64, fv: FieldVal| item_added_apply(m, tag, fv)
}

pub open spec fn spec_dec_item_added(s: Seq<u8>) -> Option<ItemAddedV> {
    spec_dec_msg(s, item_added_default(), item_added_action())
}

/// The bounds under which a value is encodable.
pub open spec fn item_added_wf(v: ItemAddedV) -> bool {
    v.item matches Some(li) ==> line_item_wf(li) && spec_enc_line_item(li).len() <= u64::MAX
}

/// Decoding an encoding of `v` yields `v` back.
pub proof fn lemma_item_added_roundtrip(v: ItemAddedV)
    requires
        item_added_wf(v),
    ensures
        spec_dec_item_added(spec_enc_item_added(v)) == Some(v),
{
    let act = item_added_action();
    let d0 = item_added_default();
    match v.item {
        None => {
            assert(item_added_fields(v) =~= Seq::<(u64, FieldVal)>::empty());
            assert(fields_wf(item_added_fields(v)));
            lemma_dec_msg_of_enc(item_added_fields(v), d0, act);
            assert(fold_fields(d0, Seq::<(u64, FieldVal)>::empty(), act) == Some(d0));
        }
        Some(li) => {
            lemma_fields_wf_len(1, spec_enc_line_item(li));
            lemma_dec_msg_of_enc(item_added_fields(v), d0, act);
            lemma_fold_fields_singleton(d0, 1u64, FieldVal::Len(spec_enc_line_item(li)), act);
            lemma_line_item_roundtrip(li);
        }
    }
}

/// Encode the event: the item as one embedded message under tag 1, when
/// present.
pub fn encode_item_added(m: &ItemAdded) -> (r: Vec<u8>)
    ensures
        r@ == spec_enc_item_added(m@),
{
    let mut buf: Vec<u8> = Vec::new();
    match &m.item {
        Some(li) => {
            let payload = encode_line_item(li);
            emit_len_field(&mut buf, 1, &payload);
            proof {
                assert(len_fields(1, payload@) =~= item_added_fields(m@));
            }
        }
        None => {
            proof {
                assert(item_added_fields(m@) =~= Seq::<(u64, FieldVal)>::empty());
                assert(buf@ =~= enc_fields(item_added_fields(m@)));
            }
        }
    }
    buf
}

/// Decode the event; a malformed embedded item fails the decode.
pub fn decode_item_added(s: &[u8]) -> (r: Option<ItemAdded>)
    ensures
        match r {
            Some(m) => spec_dec_item_added(s@) == Some(m@),
            None => spec_dec_item_added(s@) is None,
        },
{
    let act = Ghost(item_added_action());
    let mut m = ItemAdded { item: None };
    let mut pos: usize = 0;
    proof {
        assert(m@ == item_added_default());
    }
    while pos < s.len()
        invariant
            pos <= s@.len(),
            spec_dec_item_added(s@) == (match parse_fields(s@, pos as int) {
                None => None::<ItemAddedV>,
                Some(fs) => fold_fields(m@, fs, act@),
            }),
            act@ == item_added_action(),
        decreases s@.len() - pos,
    {
        let ghost m0 = m@;
        match read_field(s, pos) {
            None => {
                return None;
            }
            Some((tag, rv, npos)) => {
                proof {
                    lemma_parse_field_advance(s@, pos as int);
                }
                let ghost fv = parse_field(s@, pos as int)->Some_0.0.1;
                if tag == 1 {
                    match rv {
                        RawVal::Len(a, b) => {
                            let seg = copy_range(s, a, b);
                            match decode_line_item(seg.as_slice()) {
                                Some(li) => {
                                    m.item = Some(li);
                                    proof {
                                        assert(item_added_apply(m0, tag, fv) == Some(m@));
                                        lemma_dec_step(s@, pos as int, npos as int, tag, fv, m0, m@, act@);
                                    }
                                }
                                None => {
                                    proof {
                                        lemma_dec_step_fail(s@, pos as int, npos as int, tag, fv, m0, act@);
                                    }
                                    return None;
                                }
                            }
                        }
                        _ => {
                            proof {
                                lemma_dec_step_fail(s@, pos as int, npos as int, tag, fv, m0, act@);
                            }
                            return None;
                        }
                    }
                } else {
                    proof {
                        assert(item_added_apply(m0, tag, fv) == Some(m0));
                        lemma_dec_step(s@, pos as int, npos as int, tag, fv, m0, m0, act@);
                    }
                }
                pos = npos;
            }
        }
    }
    proof {
        assert(parse_fields(s@, pos as int) == Some(Seq::<(u64, FieldVal)>::empty()));
        assert(fold_fields(m@, Seq::<(u64, FieldVal)>::empty(), act@) == Some(m@));
    }
    Some(m)
}

} // verus!
