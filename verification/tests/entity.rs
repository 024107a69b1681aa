//! The shopping cart entity's typed behaviour, and discovery.

use std::sync::Arc;

use cloudstate::discovery::{shopping_cart_descriptor_set, EntityDiscoveryServerImpl, ProxyInfo};
use cloudstate::eventsourced::{CommandContextData, EventSourcedEntity, Response};
use cloudstate::messages::{AddLineItem, Cart, GetShoppingCart, ItemAdded, ItemRemoved, LineItem,
    RemoveLineItem};
use cloudstate::registry::EntityRegistry;
use cloudstate::shopping_cart::{
    ShoppingCartCommand, ShoppingCartEntity, ShoppingCartEvent, ShoppingCartFactory,
    ShoppingCartReply, ShoppingCartSnapshot,
};

fn line_item(product_id: &str, name: &str, quantity: i32) -> LineItem {
    LineItem { product_id: product_id.to_owned(), name: name.to_owned(), quantity }
}

fn fresh_context() -> CommandContextData<ShoppingCartEvent> {
    CommandContextData { events: vec![], snapshot_every: None }
}

fn added(product_id: &str, name: &str, quantity: i32) -> ShoppingCartEvent {
    ShoppingCartEvent::ItemAdded(ItemAdded { item: Some(line_item(product_id, name, quantity)) })
}

fn cart_items(entity: &ShoppingCartEntity) -> Vec<LineItem> {
    let mut context = fresh_context();
    let reply = entity
        .handle_command(
            ShoppingCartCommand::GetCart(GetShoppingCart { user_id: "u".to_owned() }),
            &mut context,
        )
        .expect("GetCart must succeed");
    assert!(context.events.is_empty());
    match reply {
        Response::Reply(ShoppingCartReply::Cart(cart)) => cart.items,
        Response::EmptyReply => panic!("GetCart must carry a cart"),
    }
}

#[test]
fn add_line_emits_item_added_and_replies_empty() {
    let entity = ShoppingCartEntity::default();
    let mut context = fresh_context();
    let r = entity.handle_command(
        ShoppingCartCommand::AddLine(AddLineItem {
            user_id: "u".to_owned(),
            product_id: "p1".to_owned(),
            name: "Widget".to_owned(),
            quantity: 2,
        }),
        &mut context,
    );
    assert!(matches!(r, Ok(Response::EmptyReply)));
    assert_eq!(context.events, vec![added("p1", "Widget", 2)]);
}

#[test]
fn add_line_rejects_non_positive_quantity() {
    let entity = ShoppingCartEntity::default();
    for q in [0, -1, i32::MIN] {
        let mut context = fresh_context();
        let r = entity.handle_command(
            ShoppingCartCommand::AddLine(AddLineItem {
                user_id: "u".to_owned(),
                product_id: "p1".to_owned(),
                name: "Widget".to_owned(),
                quantity: q,
            }),
            &mut context,
        );
        assert_eq!(r.unwrap_err(), "Cannot add negative quantity of to item p1");
    }
}

#[test]
fn rejected_command_leaves_the_context_untouched() {
    let entity = ShoppingCartEntity::default();
    let mut context = CommandContextData {
        events: vec![added("prior", "Prior", 1)],
        snapshot_every: Some(3),
    };
    let r = entity.handle_command(
        ShoppingCartCommand::RemoveLine(RemoveLineItem {
            user_id: "u".to_owned(),
            product_id: "ghost".to_owned(),
        }),
        &mut context,
    );
    assert!(r.is_err());
    assert_eq!(context.events, vec![added("prior", "Prior", 1)]);
    assert_eq!(context.snapshot_every, Some(3));
}

#[test]
fn remove_line_rejects_absent_item() {
    let entity = ShoppingCartEntity::default();
    let mut context = fresh_context();
    let r = entity.handle_command(
        ShoppingCartCommand::RemoveLine(RemoveLineItem {
            user_id: "u".to_owned(),
            product_id: "p1".to_owned(),
        }),
        &mut context,
    );
    assert_eq!(r.unwrap_err(), "Cannot remove item p1 because it is not in the cart.");
}

#[test]
fn events_accumulate_and_remove() {
    let mut entity = ShoppingCartEntity::default();
    entity.handle_event(added("p1", "Widget", 2));
    entity.handle_event(added("p2", "Gadget", 1));
    // a second add of the same product adds quantities and keeps the name
    entity.handle_event(added("p1", "Renamed", 3));
    assert_eq!(
        cart_items(&entity),
        vec![line_item("p1", "Widget", 5), line_item("p2", "Gadget", 1)],
    );

    entity.handle_event(ShoppingCartEvent::ItemRemoved(ItemRemoved {
        product_id: "p1".to_owned(),
    }));
    assert_eq!(cart_items(&entity), vec![line_item("p2", "Gadget", 1)]);

    // removing what is not there changes nothing
    entity.handle_event(ShoppingCartEvent::ItemRemoved(ItemRemoved {
        product_id: "ghost".to_owned(),
    }));
    assert_eq!(cart_items(&entity), vec![line_item("p2", "Gadget", 1)]);
}

#[test]
fn cart_lists_items_in_ascending_product_id_order() {
    // whatever the arrival order, the reply follows the product-id order an
    // ordered map keeps
    let mut entity = ShoppingCartEntity::default();
    entity.handle_event(added("soap33", "soap", 12));
    entity.handle_event(added("banana", "Banana", 2));
    entity.handle_event(added("apple", "Apple", 1));
    assert_eq!(
        cart_items(&entity),
        vec![
            line_item("apple", "Apple", 1),
            line_item("banana", "Banana", 2),
            line_item("soap33", "soap", 12),
        ],
    );
}

#[test]
fn event_without_item_is_a_no_op() {
    let mut entity = ShoppingCartEntity::default();
    entity.handle_event(ShoppingCartEvent::ItemAdded(ItemAdded { item: None }));
    assert!(cart_items(&entity).is_empty());
}

#[test]
fn quantities_add_with_wrapping() {
    let mut entity = ShoppingCartEntity::default();
    entity.handle_event(added("p1", "Widget", i32::MAX));
    entity.handle_event(added("p1", "Widget", 1));
    assert_eq!(cart_items(&entity), vec![line_item("p1", "Widget", i32::MIN)]);
}

#[test]
fn snapshot_replaces_existing_state() {
    let mut entity = ShoppingCartEntity::default();
    entity.handle_event(added("old", "Old", 9));
    entity.handle_snapshot(ShoppingCartSnapshot::Snapshot(Cart {
        items: vec![line_item("soap33", "soap", 12), line_item("p2", "Gadget", 1)],
    }));
    // restored entries come back ascending by product id
    assert_eq!(
        cart_items(&entity),
        vec![line_item("p2", "Gadget", 1), line_item("soap33", "soap", 12)],
    );
}

#[test]
fn snapshot_with_equal_keys_keeps_the_last() {
    let mut entity = ShoppingCartEntity::default();
    entity.handle_snapshot(ShoppingCartSnapshot::Snapshot(Cart {
        items: vec![line_item("p1", "First", 1), line_item("p1", "Second", 7)],
    }));
    assert_eq!(cart_items(&entity), vec![line_item("p1", "Second", 7)]);
}

#[test]
fn new_entity_carries_its_snapshot_cadence() {
    let entity = ShoppingCartEntity::new(1);
    assert_eq!(entity.snapshot_every(), Some(1));
    assert!(cart_items(&entity).is_empty());

    let entity = ShoppingCartEntity::default();
    assert_eq!(entity.snapshot_every(), None);
}

#[test]
fn discovery_reports_every_registered_entity() {
    let mut registry = EntityRegistry::new();
    registry
        .register_event_sourced_entity(
            "com.example.shoppingcart.ShoppingCart",
            "shopping-cart",
            ShoppingCartFactory { snapshot_every: None },
        )
        .unwrap();
    registry
        .register_event_sourced_entity(
            "test-snapshot-every-time",
            "shopping-cart",
            ShoppingCartFactory { snapshot_every: Some(1) },
        )
        .unwrap();
    let discovery = EntityDiscoveryServerImpl {
        descriptor_set: shopping_cart_descriptor_set(),
        entity_registry: Arc::new(registry),
    };
    let spec = discovery.discover(&ProxyInfo {
        protocol_major_version: 0,
        protocol_minor_version: 1,
        proxy_name: "test".to_owned(),
        proxy_version: "0.1".to_owned(),
        supported_entity_types: vec!["cloudstate.eventsourced.EventSourced".to_owned()],
    });

    assert!(!spec.proto.is_empty());
    assert_eq!(spec.entities.len(), 2);
    let entity = &spec.entities[0];
    assert_eq!(entity.entity_type, "cloudstate.eventsourced.EventSourced");
    assert_eq!(entity.service_name, "com.example.shoppingcart.ShoppingCart");
    assert_eq!(entity.persistence_id, "shopping-cart");
    let info = spec.service_info.expect("service info is always present");
    assert_eq!(info.support_library_name, "cloudstate");
}
