//! Type-url matching and command decoding.

use cloudstate::codec::AnyMessage;
use cloudstate::messages::{encode_add_line_item, AddLineItem};
use cloudstate::shopping_cart::ShoppingCartCommand;

#[test]
fn foo() {
    let type_url = "type.googleapis.com/com.example.shoppingcart.AddLineItem".to_owned();

    let match_with = ".".to_string() + "AddLineItem";

    let result = match type_url {
        s if s.ends_with(&match_with) => true,
        _ => false,
    };

    assert!(result);
}

#[test]
fn lib_foo() {
    let type_url = "type.googleapis.com/com.example.shoppingcart.AddLineItem".to_owned();

    let match_with = ".".to_string() + "AddLineItem";

    let result = match type_url {
        s if s.ends_with(&match_with) => true,
        _ => false,
    };

    assert!(result);
}

#[test]
fn bar() {
    let type_url = "yes".to_string();

    let result = match type_url.as_ref() {
        "yes" => true,
        _ => false,
    };

    assert!(result);
}

fn add_line_item() -> AddLineItem {
    AddLineItem {
        user_id: "user_id".to_owned(),
        product_id: "product_id".to_owned(),
        name: "name".to_owned(),
        quantity: 1,
    }
}

#[test]
fn shopping_cart_test_test_command_decoder() {
    let msg = add_line_item();

    let bytes = encode_add_line_item(&msg);

    let result = <ShoppingCartCommand as AnyMessage>::decode(
        "type.googleapis.com/com.example.shoppingcart.AddLineItem",
        &bytes,
    );

    assert_eq!(result, Some(ShoppingCartCommand::AddLine(msg)));
}

#[test]
fn shopping_cart_test_test_command_decoder_with_incorrect_type() {
    let msg = add_line_item();

    let bytes = encode_add_line_item(&msg);

    let result = <ShoppingCartCommand as AnyMessage>::decode("AddLineItem", &bytes);

    assert_eq!(result, None);
}

#[test]
fn suffix_match_decodes_when_package_is_missing() {
    let msg = add_line_item();
    let bytes = encode_add_line_item(&msg);

    let result = <ShoppingCartCommand as AnyMessage>::decode("some.other.package.AddLineItem", &bytes);

    assert_eq!(result, Some(ShoppingCartCommand::AddLine(msg)));
}

#[test]
fn unknown_type_url_is_rejected() {
    let msg = add_line_item();
    let bytes = encode_add_line_item(&msg);

    let result = <ShoppingCartCommand as AnyMessage>::decode(
        "type.googleapis.com/com.example.shoppingcart.Unknown",
        &bytes,
    );

    assert_eq!(result, None);
}

#[test]
fn malformed_payload_is_rejected() {
    // a lone continuation byte is a truncated varint
    let result = <ShoppingCartCommand as AnyMessage>::decode(
        "type.googleapis.com/com.example.shoppingcart.AddLineItem",
        &[0x80],
    );

    assert_eq!(result, None);
}

#[test]
fn suffix_match_requires_a_full_name_segment() {
    // the leading dot keeps a name that merely ends in another name's text
    // from matching it
    let msg = add_line_item();
    let bytes = encode_add_line_item(&msg);

    let result = <ShoppingCartCommand as AnyMessage>::decode("pkg.CreateAndAddLineItem", &bytes);

    assert_eq!(result, None);
}
