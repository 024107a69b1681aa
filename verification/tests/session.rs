//! The session state machine, driven through whole protocol scenarios.

use std::sync::Arc;

use cloudstate::codec::Envelope;
use cloudstate::messages::{
    decode_cart, decode_item_added, encode_add_line_item, encode_cart, encode_get_shopping_cart,
    encode_remove_line_item, AddLineItem, Cart, GetShoppingCart, LineItem, RemoveLineItem,
};
use cloudstate::registry::{EntityRegistry, RegistryError};
use cloudstate::session::{
    Action, Command, EventSourcedEvent, EventSourcedInit, EventSourcedReply, EventSourcedSession,
    EventSourcedSnapshot, EventSourcedStreamOut, InMessage, OutMessage,
};
use cloudstate::shopping_cart::ShoppingCartFactory;

const ADD_LINE_ITEM_URL: &str = "type.googleapis.com/com.example.shoppingcart.AddLineItem";
const REMOVE_LINE_ITEM_URL: &str = "type.googleapis.com/com.example.shoppingcart.RemoveLineItem";
const GET_CART_URL: &str = "type.googleapis.com/com.example.shoppingcart.GetShoppingCart";
const PERSISTENCE_CART_URL: &str = "type.googleapis.com/com.example.shoppingcart.persistence.Cart";
const ITEM_ADDED_URL: &str = "type.googleapis.com/com.example.shoppingcart.persistence.ItemAdded";
const EMPTY_URL: &str = "type.googleapis.com/google.protobuf.Empty";

fn line_item(product_id: &str, name: &str, quantity: i32) -> LineItem {
    LineItem { product_id: product_id.to_owned(), name: name.to_owned(), quantity }
}

fn cart_registry(service_name: &str) -> Arc<EntityRegistry<ShoppingCartFactory>> {
    let mut registry = EntityRegistry::new();
    registry
        .register_event_sourced_entity(
            service_name,
            "shopping-cart",
            ShoppingCartFactory { snapshot_every: None },
        )
        .expect("first registration must succeed");
    Arc::new(registry)
}

fn init_msg(service_name: &str, entity_id: &str, snapshot: Option<Cart>) -> InMessage {
    InMessage::Init(EventSourcedInit {
        service_name: service_name.to_owned(),
        entity_id: entity_id.to_owned(),
        snapshot: snapshot.map(|cart| EventSourcedSnapshot {
            snapshot_sequence: 42,
            snapshot: Some(Envelope {
                type_url: PERSISTENCE_CART_URL.to_owned(),
                value: encode_cart(&cart),
            }),
        }),
    })
}

fn command_msg(id: i64, type_url: &str, value: Vec<u8>) -> InMessage {
    InMessage::Command(Command {
        entity_id: "c1".to_owned(),
        id,
        name: "command_name".to_owned(),
        payload: Some(Envelope { type_url: type_url.to_owned(), value }),
        streamed: false,
    })
}

fn expect_reply(out: Option<EventSourcedStreamOut>) -> EventSourcedReply {
    match out {
        Some(EventSourcedStreamOut { message: Some(OutMessage::Reply(reply)) }) => reply,
        other => panic!("expected a reply, got {:?}", other),
    }
}

fn reply_payload(reply: &EventSourcedReply) -> Envelope {
    match reply.client_action.as_ref().and_then(|ca| ca.action.as_ref()) {
        Some(Action::Reply(r)) => r.payload.clone().expect("expected a reply payload"),
        other => panic!("expected a reply action, got {:?}", other),
    }
}

fn failure_description(reply: &EventSourcedReply) -> (i64, String) {
    match reply.client_action.as_ref().and_then(|ca| ca.action.as_ref()) {
        Some(Action::Failure(f)) => (f.command_id, f.description.clone()),
        other => panic!("expected a failure action, got {:?}", other),
    }
}

fn get_cart(session: &mut EventSourcedSession<ShoppingCartFactory>, id: i64) -> Vec<LineItem> {
    let out = session.handle_known_msg(command_msg(
        id,
        GET_CART_URL,
        encode_get_shopping_cart(&GetShoppingCart { user_id: "u".to_owned() }),
    ));
    let reply = expect_reply(out);
    let payload = reply_payload(&reply);
    let cart = decode_cart(&payload.value).expect("reply must hold a cart");
    cart.items
}

#[test]
fn registry_rejects_duplicate_service_name() {
    let mut registry: EntityRegistry<ShoppingCartFactory> = EntityRegistry::new();
    let first = registry.register_event_sourced_entity(
        "svc-a",
        "pid-a",
        ShoppingCartFactory { snapshot_every: None },
    );
    assert!(first.is_ok());
    let second = registry.register_event_sourced_entity(
        "svc-a",
        "pid-b",
        ShoppingCartFactory { snapshot_every: None },
    );
    match second {
        Err(RegistryError::DuplicateRegistration { service_name }) => {
            assert_eq!(service_name, "svc-a");
        }
        Ok(()) => panic!("the duplicate registration must be rejected"),
    }
    // other names are still accepted
    assert!(registry
        .register_event_sourced_entity("svc-b", "pid-b", ShoppingCartFactory {
            snapshot_every: None,
        })
        .is_ok());
}

#[test]
fn command_before_init_produces_no_reply_and_no_entity() {
    let registry = cart_registry("cart");
    let mut session = EventSourcedSession::new(registry);

    let out = session.handle_known_msg(command_msg(
        7,
        ADD_LINE_ITEM_URL,
        encode_add_line_item(&AddLineItem {
            user_id: "u".to_owned(),
            product_id: "p1".to_owned(),
            name: "Widget".to_owned(),
            quantity: 1,
        }),
    ));
    assert_eq!(out, None);

    // the session is still uninitialized: an event is dropped too
    let out = session.handle_known_msg(InMessage::Event(EventSourcedEvent { payload: None }));
    assert_eq!(out, None);

    // and an Init still works, proving no entity had been created
    let out = session.handle_known_msg(init_msg("cart", "c1", None));
    assert_eq!(out, None);
    assert!(get_cart(&mut session, 1).is_empty());
}

#[test]
fn init_with_unknown_service_name_is_ignored() {
    let registry = cart_registry("cart");
    let mut session = EventSourcedSession::new(registry);

    let out = session.handle_known_msg(init_msg("unknown-svc", "c1", None));
    assert_eq!(out, None);

    // still uninitialized: commands keep being dropped
    let out = session.handle_known_msg(command_msg(
        9,
        GET_CART_URL,
        encode_get_shopping_cart(&GetShoppingCart { user_id: "u".to_owned() }),
    ));
    assert_eq!(out, None);
}

#[test]
fn second_init_leaves_entity_state_unchanged() {
    let registry = cart_registry("cart");
    let mut session = EventSourcedSession::new(registry);

    let snapshot = Cart { items: vec![line_item("soap33", "soap", 12)] };
    assert_eq!(session.handle_known_msg(init_msg("cart", "c1", Some(snapshot))), None);

    // a second Init, carrying a different snapshot, is ignored
    let other = Cart { items: vec![line_item("other", "other", 1)] };
    assert_eq!(session.handle_known_msg(init_msg("cart", "c1", Some(other))), None);

    let items = get_cart(&mut session, 2);
    assert_eq!(items, vec![line_item("soap33", "soap", 12)]);
}

#[test]
fn failed_command_applies_no_events_and_reports_the_message() {
    let registry = cart_registry("cart");
    let mut session = EventSourcedSession::new(registry);
    assert_eq!(session.handle_known_msg(init_msg("cart", "c1", None)), None);

    let out = session.handle_known_msg(command_msg(
        5,
        REMOVE_LINE_ITEM_URL,
        encode_remove_line_item(&RemoveLineItem {
            user_id: "u".to_owned(),
            product_id: "ghost".to_owned(),
        }),
    ));
    let reply = expect_reply(out);
    assert_eq!(reply.command_id, 5);
    assert_eq!(reply.events, vec![]);
    assert_eq!(reply.snapshot, None);
    let (command_id, description) = failure_description(&reply);
    assert_eq!(command_id, 5);
    assert_eq!(description, "Cannot remove item ghost because it is not in the cart.");

    // the entity state is unchanged
    assert!(get_cart(&mut session, 6).is_empty());
}

#[test]
fn command_decode_failure_produces_a_failure_reply() {
    let registry = cart_registry("cart");
    let mut session = EventSourcedSession::new(registry);
    assert_eq!(session.handle_known_msg(init_msg("cart", "c1", None)), None);

    let out = session.handle_known_msg(command_msg(11, "not-a-command", vec![]));
    let reply = expect_reply(out);
    assert_eq!(reply.command_id, 11);
    assert_eq!(reply.events, vec![]);
    let (command_id, description) = failure_description(&reply);
    assert_eq!(command_id, 11);
    assert_eq!(description, "Server error: couldn't decode the command");
}

#[test]
fn standalone_event_replay_reaches_the_same_state() {
    // the same event envelope, arriving once through a command's apply loop
    // and once as a standalone replay, yields the same cart
    let add = AddLineItem {
        user_id: "u".to_owned(),
        product_id: "p1".to_owned(),
        name: "Widget".to_owned(),
        quantity: 3,
    };

    let registry = cart_registry("cart");
    let mut by_command = EventSourcedSession::new(registry.clone());
    assert_eq!(by_command.handle_known_msg(init_msg("cart", "c1", None)), None);
    let reply = expect_reply(by_command.handle_known_msg(command_msg(
        1,
        ADD_LINE_ITEM_URL,
        encode_add_line_item(&add),
    )));
    assert_eq!(reply.events.len(), 1);
    let emitted = reply.events[0].clone();

    let mut by_replay = EventSourcedSession::new(registry);
    assert_eq!(by_replay.handle_known_msg(init_msg("cart", "c2", None)), None);
    let out = by_replay.handle_known_msg(InMessage::Event(EventSourcedEvent {
        payload: Some(emitted),
    }));
    assert_eq!(out, None);

    assert_eq!(get_cart(&mut by_command, 2), get_cart(&mut by_replay, 2));
}

#[test]
fn end_to_end_cart_scenario() {
    let registry = cart_registry("cart");
    let mut session = EventSourcedSession::new(registry);

    // Init with a snapshot holding soap33, quantity 12
    let snapshot = Cart { items: vec![line_item("soap33", "soap", 12)] };
    assert_eq!(session.handle_known_msg(init_msg("cart", "c1", Some(snapshot))), None);

    // AddLineItem p1 "Widget" x1 under command id 56
    let out = session.handle_known_msg(command_msg(
        56,
        ADD_LINE_ITEM_URL,
        encode_add_line_item(&AddLineItem {
            user_id: "u".to_owned(),
            product_id: "p1".to_owned(),
            name: "Widget".to_owned(),
            quantity: 1,
        }),
    ));
    let reply = expect_reply(out);
    assert_eq!(reply.command_id, 56);
    assert_eq!(reply.snapshot, None);

    // the action is a Reply with the canonical empty payload
    let payload = reply_payload(&reply);
    assert_eq!(payload.type_url, EMPTY_URL);
    assert_eq!(payload.value, Vec::<u8>::new());

    // exactly one event: ItemAdded { p1, Widget, 1 }
    assert_eq!(reply.events.len(), 1);
    assert_eq!(reply.events[0].type_url, ITEM_ADDED_URL);
    let event = decode_item_added(&reply.events[0].value).expect("expected ItemAdded");
    assert_eq!(event.item, Some(line_item("p1", "Widget", 1)));

    // GetCart returns both soap33 (12) and p1 (1), ascending by product id
    let items = get_cart(&mut session, 57);
    assert_eq!(items, vec![line_item("p1", "Widget", 1), line_item("soap33", "soap", 12)]);
}
