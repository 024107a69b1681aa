//! Round trips of every declared variant, and wire compatibility with an
//! independent protobuf encoder.

use bytes::BufMut;
use cloudstate::codec::AnyMessage;
use cloudstate::messages::{
    decode_add_line_item, decode_cart, decode_item_added, decode_line_item, encode_add_line_item,
    encode_cart, encode_line_item, AddLineItem, Cart, GetShoppingCart, ItemAdded, ItemRemoved,
    LineItem, RemoveLineItem,
};
use cloudstate::shopping_cart::{
    ShoppingCartCommand, ShoppingCartEvent, ShoppingCartReply, ShoppingCartSnapshot,
};

fn line_item(product_id: &str, name: &str, quantity: i32) -> LineItem {
    LineItem { product_id: product_id.to_owned(), name: name.to_owned(), quantity }
}

fn round_trip<M: AnyMessage + Clone + PartialEq + std::fmt::Debug>(v: M) {
    let (url, bytes) = v.encode().expect("encoding must not fail");
    let back = M::decode(url.as_str(), &bytes);
    assert_eq!(back, Some(v));
}

#[test]
fn command_variants_round_trip() {
    round_trip(ShoppingCartCommand::AddLine(AddLineItem {
        user_id: "u-1".to_owned(),
        product_id: "p-1".to_owned(),
        name: "Widget".to_owned(),
        quantity: 3,
    }));
    round_trip(ShoppingCartCommand::RemoveLine(RemoveLineItem {
        user_id: "u-1".to_owned(),
        product_id: "p-1".to_owned(),
    }));
    round_trip(ShoppingCartCommand::GetCart(GetShoppingCart { user_id: "u-1".to_owned() }));
}

#[test]
fn reply_variant_round_trips() {
    round_trip(ShoppingCartReply::Cart(Cart {
        items: vec![line_item("p-1", "Widget", 2), line_item("p-2", "Gadget", 7)],
    }));
}

#[test]
fn event_variants_round_trip() {
    round_trip(ShoppingCartEvent::ItemAdded(ItemAdded {
        item: Some(line_item("p-1", "Widget", 1)),
    }));
    round_trip(ShoppingCartEvent::ItemAdded(ItemAdded { item: None }));
    round_trip(ShoppingCartEvent::ItemRemoved(ItemRemoved { product_id: "p-1".to_owned() }));
}

#[test]
fn snapshot_variant_round_trips() {
    round_trip(ShoppingCartSnapshot::Snapshot(Cart { items: vec![line_item("soap33", "soap", 12)] }));
    round_trip(ShoppingCartSnapshot::Snapshot(Cart { items: vec![] }));
}

#[test]
fn default_values_round_trip() {
    // every field default: the encoding is empty
    let m = line_item("", "", 0);
    let bytes = encode_line_item(&m);
    assert!(bytes.is_empty());
    assert_eq!(decode_line_item(&bytes), Some(m));
}

#[test]
fn negative_quantity_round_trips() {
    // a negative int32 travels as a ten-byte varint
    let m = line_item("p", "n", -5);
    let bytes = encode_line_item(&m);
    assert_eq!(decode_line_item(&bytes), Some(m));
    assert_eq!(decode_line_item(&bytes).unwrap().quantity, -5);
}

#[test]
fn extreme_quantities_round_trip() {
    for q in [i32::MIN, -1, 1, i32::MAX] {
        let m = line_item("p", "n", q);
        let bytes = encode_line_item(&m);
        assert_eq!(decode_line_item(&bytes), Some(m));
    }
}

#[test]
fn unicode_strings_round_trip() {
    let m = line_item("séife-αβ", "救生圈 🛟", 2);
    let bytes = encode_line_item(&m);
    assert_eq!(decode_line_item(&bytes), Some(m));
}

#[test]
fn non_utf8_string_field_is_rejected() {
    // tag 1, length-delimited, two bytes that are not UTF-8
    let bytes = [0x0a, 0x02, 0xff, 0xfe];
    assert_eq!(decode_line_item(&bytes), None);
}

#[test]
fn wrong_wire_type_for_known_field_is_rejected() {
    // tag 1 as a varint instead of a string
    let bytes = [0x08, 0x01];
    assert_eq!(decode_line_item(&bytes), None);
}

#[test]
fn unknown_fields_are_skipped() {
    let mut bytes = encode_line_item(&line_item("p", "n", 4));
    // tag 9 varint, tag 10 fixed64, tag 11 fixed32, tag 12 length-delimited
    bytes.extend_from_slice(&[0x48, 0x2a]);
    bytes.extend_from_slice(&[0x51, 1, 2, 3, 4, 5, 6, 7, 8]);
    bytes.extend_from_slice(&[0x5d, 1, 2, 3, 4]);
    bytes.extend_from_slice(&[0x62, 0x01, 0xaa]);
    assert_eq!(decode_line_item(&bytes), Some(line_item("p", "n", 4)));
}

#[test]
fn truncated_payload_is_rejected() {
    let bytes = encode_cart(&Cart { items: vec![line_item("p-1", "Widget", 2)] });
    assert_eq!(decode_cart(&bytes[..bytes.len() - 1]), None);
}

#[test]
fn later_field_occurrence_replaces_earlier() {
    let mut bytes = encode_line_item(&line_item("first", "n", 1));
    bytes.extend_from_slice(&encode_line_item(&line_item("second", "", 0)));
    let decoded = decode_line_item(&bytes).unwrap();
    assert_eq!(decoded.product_id, "second");
    assert_eq!(decoded.name, "n");
    assert_eq!(decoded.quantity, 1);
}

// --- wire compatibility with prost's encoder -------------------------------

/// Encode an `AddLineItem` exactly as prost-generated code would: each
/// non-default field through prost's own encoding primitives.
fn prost_encode_add_line_item(m: &AddLineItem) -> Vec<u8> {
    let mut buf: Vec<u8> = vec![];
    if !m.user_id.is_empty() {
        prost::encoding::string::encode(1, &m.user_id, &mut buf);
    }
    if !m.product_id.is_empty() {
        prost::encoding::string::encode(2, &m.product_id, &mut buf);
    }
    if !m.name.is_empty() {
        prost::encoding::string::encode(3, &m.name, &mut buf);
    }
    if m.quantity != 0 {
        prost::encoding::int32::encode(4, &m.quantity, &mut buf);
    }
    buf
}

fn prost_encode_line_item(m: &LineItem) -> Vec<u8> {
    let mut buf: Vec<u8> = vec![];
    if !m.product_id.is_empty() {
        prost::encoding::string::encode(1, &m.product_id, &mut buf);
    }
    if !m.name.is_empty() {
        prost::encoding::string::encode(2, &m.name, &mut buf);
    }
    if m.quantity != 0 {
        prost::encoding::int32::encode(3, &m.quantity, &mut buf);
    }
    buf
}

#[test]
fn add_line_item_encoding_matches_prost() {
    let m = AddLineItem {
        user_id: "user_id".to_owned(),
        product_id: "product_id".to_owned(),
        name: "Widget".to_owned(),
        quantity: -42,
    };
    assert_eq!(encode_add_line_item(&m), prost_encode_add_line_item(&m));
}

#[test]
fn item_added_decodes_prost_bytes() {
    let li = line_item("p-9", "Thing", 5);
    let inner = prost_encode_line_item(&li);
    let mut buf: Vec<u8> = vec![];
    prost::encoding::encode_key(1, prost::encoding::WireType::LengthDelimited, &mut buf);
    prost::encoding::encode_varint(inner.len() as u64, &mut buf);
    buf.put_slice(&inner);
    assert_eq!(decode_item_added(&buf), Some(ItemAdded { item: Some(li) }));
}

#[test]
fn decoder_accepts_prost_field_order() {
    // prost accepts fields in any order; so does this decoder
    let m = line_item("p-1", "Widget", 9);
    let mut buf: Vec<u8> = vec![];
    prost::encoding::int32::encode(3, &m.quantity, &mut buf);
    prost::encoding::string::encode(2, &m.name, &mut buf);
    prost::encoding::string::encode(1, &m.product_id, &mut buf);
    assert_eq!(decode_line_item(&buf), Some(m));
}

#[test]
fn decoder_reads_prost_encoded_negative_int32() {
    let mut buf: Vec<u8> = vec![];
    prost::encoding::int32::encode(3, &-1, &mut buf);
    assert_eq!(decode_line_item(&buf), Some(line_item("", "", -1)));
}

#[test]
fn decoder_rejects_truncated_length() {
    // a declared length of five with one byte present
    let bad = [0x0a_u8, 0x05, 0x61];
    assert_eq!(decode_add_line_item(&bad), None);
}
