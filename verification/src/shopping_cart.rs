//! The shopping cart entity and its variant sets.
//!
//! The four closed variant sets the cart commits to — commands, events,
//! snapshots and responses — each implement the envelope codec contract:
//! decoding matches the type url against each case's package-qualified
//! name, exact match first in declared case order, then suffix match, and
//! parses the payload as the matched wire type.

use vstd::prelude::*;

use crate::codec::{key_lt, lemma_key_lt_trans, lemma_key_order_total, spec_ends_with,
    str_ends_with, str_eq_str, str_key_before, AnyMessage};
use crate::eventsourced::{CommandContext, EventSourcedEntity, Response, ResponseV};
use crate::messages::{
    add_line_item_wf, cart_wf, decode_add_line_item, decode_cart, decode_get_shopping_cart,
    decode_item_added, decode_item_removed, decode_remove_line_item, encode_add_line_item,
    encode_cart, encode_get_shopping_cart, encode_item_added, encode_item_removed,
    encode_remove_line_item, get_shopping_cart_wf, item_added_wf, item_removed_wf,
    lemma_add_line_item_roundtrip, lemma_cart_roundtrip, lemma_get_shopping_cart_roundtrip,
    lemma_item_added_roundtrip, lemma_item_removed_roundtrip, lemma_remove_line_item_roundtrip,
    remove_line_item_wf, spec_dec_add_line_item, spec_dec_cart, spec_dec_get_shopping_cart,
    spec_dec_item_added, spec_dec_item_removed, spec_dec_remove_line_item,
    spec_enc_add_line_item, spec_enc_cart, spec_enc_get_shopping_cart, spec_enc_item_added,
    spec_enc_item_removed, spec_enc_remove_line_item, AddLineItem, AddLineItemV, Cart, CartV,
    GetShoppingCart, GetShoppingCartV, ItemAdded, ItemAddedV, ItemRemoved, ItemRemovedV,
    LineItem, LineItemV, RemoveLineItem, RemoveLineItemV,
};
use crate::registry::HandlerFactory;

verus! {

pub open spec fn url_add_line_item() -> Seq<char> {
    "type.googleapis.com/com.example.shoppingcart.AddLineItem"@
}

pub open spec fn url_cart() -> Seq<char> {
    "type.googleapis.com/com.example.shoppingcart.Cart"@
}

pub open spec fn url_get_shopping_cart() -> Seq<char> {
    "type.googleapis.com/com.example.shoppingcart.GetShoppingCart"@
}

pub open spec fn url_remove_line_item() -> Seq<char> {
    "type.googleapis.com/com.example.shoppingcart.RemoveLineItem"@
}

pub open spec fn url_persistence_cart() -> Seq<char> {
    "type.googleapis.com/com.example.shoppingcart.persistence.Cart"@
}

pub open spec fn url_item_added() -> Seq<char> {
    "type.googleapis.com/com.example.shoppingcart.persistence.ItemAdded"@
}

pub open spec fn url_item_removed() -> Seq<char> {
    "type.googleapis.com/com.example.shoppingcart.persistence.ItemRemoved"@
}

/// The command variant set of the shopping cart.
#[derive(Debug, Clone, PartialEq)]
pub enum ShoppingCartCommand {
    AddLine(AddLineItem),
    RemoveLine(RemoveLineItem),
    GetCart(GetShoppingCart),
}

/// The view of a [`ShoppingCartCommand`].
pub enum ShoppingCartCommandV {
    AddLine(AddLineItemV),
    RemoveLine(RemoveLineItemV),
    GetCart(GetShoppingCartV),
}

impl View for ShoppingCartCommand {
    type V = ShoppingCartCommandV;

    open spec fn view(&self) -> ShoppingCartCommandV {
        match self {
            ShoppingCartCommand::AddLine(m) => ShoppingCartCommandV::AddLine(m@),
            ShoppingCartCommand::RemoveLine(m) => ShoppingCartCommandV::RemoveLine(m@),
            ShoppingCartCommand::GetCart(m) => ShoppingCartCommandV::GetCart(m@),
        }
    }
}

/// The bounds under which a value is encodable.
pub open spec fn shopping_cart_command_wf(v: ShoppingCartCommandV) -> bool {
    match v {
        ShoppingCartCommandV::AddLine(m) => add_line_item_wf(m),
        ShoppingCartCommandV::RemoveLine(m) => remove_line_item_wf(m),
        ShoppingCartCommandV::GetCart(m) => get_shopping_cart_wf(m),
    }
}

impl AnyMessage for ShoppingCartCommand {
    open spec fn spec_decode(type_url: Seq<char>, bytes: Seq<u8>) -> Option<ShoppingCartCommandV> {
        if type_url == url_add_line_item() {
            match spec_dec_add_line_item(bytes) {
                Some(m) => Some(ShoppingCartCommandV::AddLine(m)),
                None => None,
            }
        } else if type_url == url_remove_line_item() {
            match spec_dec_remove_line_item(bytes) {
                Some(m) => Some(ShoppingCartCommandV::RemoveLine(m)),
                None => None,
            }
        } else if type_url == url_get_shopping_cart() {
            match spec_dec_get_shopping_cart(bytes) {
                Some(m) => Some(ShoppingCartCommandV::GetCart(m)),
                None => None,
            }
        } else if spec_ends_with(type_url, ".AddLineItem"@) {
            match spec_dec_add_line_item(bytes) {
                Some(m) => Some(ShoppingCartCommandV::AddLine(m)),
                None => None,
            }
        } else if spec_ends_with(type_url, ".RemoveLineItem"@) {
            match spec_dec_remove_line_item(bytes) {
                Some(m) => Some(ShoppingCartCommandV::RemoveLine(m)),
                None => None,
            }
        } else if spec_ends_with(type_url, ".GetShoppingCart"@) {
            match spec_dec_get_shopping_cart(bytes) {
                Some(m) => Some(ShoppingCartCommandV::GetCart(m)),
                None => None,
            }
        } else {
            None
        }
    }

    open spec fn spec_encode(v: ShoppingCartCommandV) -> Option<(Seq<char>, Seq<u8>)> {
        match v {
            ShoppingCartCommandV::AddLine(m) => Some((url_add_line_item(), spec_enc_add_line_item(m))),
            ShoppingCartCommandV::RemoveLine(m) => Some((url_remove_line_item(), spec_enc_remove_line_item(m))),
            ShoppingCartCommandV::GetCart(m) => Some((url_get_shopping_cart(), spec_enc_get_shopping_cart(m))),
        }
    }

    fn decode(type_url: &str, bytes: &[u8]) -> (r: Option<Self>) {
        if str_eq_str(type_url, "type.googleapis.com/com.example.shoppingcart.AddLineItem") {
            match decode_add_line_item(bytes) {
                Some(m) => Some(ShoppingCartCommand::AddLine(m)),
                None => None,
            }
        } else if str_eq_str(type_url, "type.googleapis.com/com.example.shoppingcart.RemoveLineItem") {
            match decode_remove_line_item(bytes) {
                Some(m) => Some(ShoppingCartCommand::RemoveLine(m)),
                None => None,
            }
        } else if str_eq_str(type_url, "type.googleapis.com/com.example.shoppingcart.GetShoppingCart") {
            match decode_get_shopping_cart(bytes) {
                Some(m) => Some(ShoppingCartCommand::GetCart(m)),
                None => None,
            }
        } else if str_ends_with(type_url, ".AddLineItem") {
            match decode_add_line_item(bytes) {
                Some(m) => Some(ShoppingCartCommand::AddLine(m)),
                None => None,
            }
        } else if str_ends_with(type_url, ".RemoveLineItem") {
            match decode_remove_line_item(bytes) {
                Some(m) => Some(ShoppingCartCommand::RemoveLine(m)),
                None => None,
            }
        } else if str_ends_with(type_url, ".GetShoppingCart") {
            match decode_get_shopping_cart(bytes) {
                Some(m) => Some(ShoppingCartCommand::GetCart(m)),
                None => None,
            }
        } else {
            None
        }
    }

    fn encode(&self) -> (r: Option<(String, Vec<u8>)>) {
        match self {
            ShoppingCartCommand::AddLine(m) => Some(("type.googleapis.com/com.example.shoppingcart.AddLineItem".to_owned(), encode_add_line_item(m))),
            ShoppingCartCommand::RemoveLine(m) => Some(("type.googleapis.com/com.example.shoppingcart.RemoveLineItem".to_owned(), encode_remove_line_item(m))),
            ShoppingCartCommand::GetCart(m) => Some(("type.googleapis.com/com.example.shoppingcart.GetShoppingCart".to_owned(), encode_get_shopping_cart(m))),
        }
    }
}

/// Round trip: every declared variant decodes back from its encoding.
pub proof fn lemma_shopping_cart_command_roundtrip(v: ShoppingCartCommandV)
    requires
        shopping_cart_command_wf(v),
    ensures
        ({
            let e = ShoppingCartCommand::spec_encode(v);
            e matches Some((u, b)) && ShoppingCartCommand::spec_decode(u, b) == Some(v)
        }),
{
    reveal_strlit("type.googleapis.com/com.example.shoppingcart.AddLineItem");
    reveal_strlit("type.googleapis.com/com.example.shoppingcart.RemoveLineItem");
    reveal_strlit("type.googleapis.com/com.example.shoppingcart.GetShoppingCart");
    assert(url_add_line_item().len() == 56);
    assert(url_remove_line_item().len() == 59);
    assert(url_get_shopping_cart().len() == 60);
    match v {
        ShoppingCartCommandV::AddLine(m) => lemma_add_line_item_roundtrip(m),
        ShoppingCartCommandV::RemoveLine(m) => lemma_remove_line_item_roundtrip(m),
        ShoppingCartCommandV::GetCart(m) => lemma_get_shopping_cart_roundtrip(m),
    }
}

/// The response variant set of the shopping cart.
#[derive(Debug, Clone, PartialEq)]
pub enum ShoppingCartReply {
    Cart(Cart),
}

/// The view of a [`ShoppingCartReply`].
pub enum ShoppingCartReplyV {
    Cart(CartV),
}

impl View for ShoppingCartReply {
    type V = ShoppingCartReplyV;

    open spec fn view(&self) -> ShoppingCartReplyV {
        match self {
            ShoppingCartReply::Cart(m) => ShoppingCartReplyV::Cart(m@),
        }
    }
}

/// The bounds under which a value is encodable.
pub open spec fn shopping_cart_reply_wf(v: ShoppingCartReplyV) -> bool {
    match v {
        ShoppingCartReplyV::Cart(m) => cart_wf(m),
    }
}

impl AnyMessage for ShoppingCartReply {
    open spec fn spec_decode(type_url: Seq<char>, bytes: Seq<u8>) -> Option<ShoppingCartReplyV> {
        if type_url == url_cart() {
            match spec_dec_cart(bytes) {
                Some(m) => Some(ShoppingCartReplyV::Cart(m)),
                None => None,
            }
        } else if spec_ends_with(type_url, ".Cart"@) {
            match spec_dec_cart(bytes) {
                Some(m) => Some(ShoppingCartReplyV::Cart(m)),
                None => None,
            }
        } else {
            None
        }
    }

    open spec fn spec_encode(v: ShoppingCartReplyV) -> Option<(Seq<char>, Seq<u8>)> {
        match v {
            ShoppingCartReplyV::Cart(m) => Some((url_cart(), spec_enc_cart(m))),
        }
    }

    fn decode(type_url: &str, bytes: &[u8]) -> (r: Option<Self>) {
        if str_eq_str(type_url, "type.googleapis.com/com.example.shoppingcart.Cart") {
            match decode_cart(bytes) {
                Some(m) => Some(ShoppingCartReply::Cart(m)),
                None => None,
            }
        } else if str_ends_with(type_url, ".Cart") {
            match decode_cart(bytes) {
                Some(m) => Some(ShoppingCartReply::Cart(m)),
                None => None,
            }
        } else {
            None
        }
    }

    fn encode(&self) -> (r: Option<(String, Vec<u8>)>) {
        match self {
            ShoppingCartReply::Cart(m) => Some(("type.googleapis.com/com.example.shoppingcart.Cart".to_owned(), encode_cart(m))),
        }
    }
}

/// Round trip: every declared variant decodes back from its encoding.
pub proof fn lemma_shopping_cart_reply_roundtrip(v: ShoppingCartReplyV)
    requires
        shopping_cart_reply_wf(v),
    ensures
        ({
            let e = ShoppingCartReply::spec_encode(v);
            e matches Some((u, b)) && ShoppingCartReply::spec_decode(u, b) == Some(v)
        }),
{
    reveal_strlit("type.googleapis.com/com.example.shoppingcart.Cart");
    match v {
        ShoppingCartReplyV::Cart(m) => lemma_cart_roundtrip(m),
    }
}

/// The event variant set of the shopping cart.
#[derive(Debug, Clone, PartialEq)]
pub enum ShoppingCartEvent {
    ItemAdded(ItemAdded),
    ItemRemoved(ItemRemoved),
}

/// The view of a [`ShoppingCartEvent`].
pub enum ShoppingCartEventV {
    ItemAdded(ItemAddedV),
    ItemRemoved(ItemRemovedV),
}

impl View for ShoppingCartEvent {
    type V = ShoppingCartEventV;

    open spec fn view(&self) -> ShoppingCartEventV {
        match self {
            ShoppingCartEvent::ItemAdded(m) => ShoppingCartEventV::ItemAdded(m@),
            ShoppingCartEvent::ItemRemoved(m) => ShoppingCartEventV::ItemRemoved(m@),
        }
    }
}

/// The bounds under which a value is encodable.
pub open spec fn shopping_cart_event_wf(v: ShoppingCartEventV) -> bool {
    match v {
        ShoppingCartEventV::ItemAdded(m) => item_added_wf(m),
        ShoppingCartEventV::ItemRemoved(m) => item_removed_wf(m),
    }
}

impl AnyMessage for ShoppingCartEvent {
    open spec fn spec_decode(type_url: Seq<char>, bytes: Seq<u8>) -> Option<ShoppingCartEventV> {
        if type_url == url_item_added() {
            match spec_dec_item_added(bytes) {
                Some(m) => Some(ShoppingCartEventV::ItemAdded(m)),
                None => None,
            }
        } else if type_url == url_item_removed() {
            match spec_dec_item_removed(bytes) {
                Some(m) => Some(ShoppingCartEventV::ItemRemoved(m)),
                None => None,
            }
        } else if spec_ends_with(type_url, ".ItemAdded"@) {
            match spec_dec_item_added(bytes) {
                Some(m) => Some(ShoppingCartEventV::ItemAdded(m)),
                None => None,
            }
        } else if spec_ends_with(type_url, ".ItemRemoved"@) {
            match spec_dec_item_removed(bytes) {
                Some(m) => Some(ShoppingCartEventV::ItemRemoved(m)),
                None => None,
            }
        } else {
            None
        }
    }

    open spec fn spec_encode(v: ShoppingCartEventV) -> Option<(Seq<char>, Seq<u8>)> {
        match v {
            ShoppingCartEventV::ItemAdded(m) => Some((url_item_added(), spec_enc_item_added(m))),
            ShoppingCartEventV::ItemRemoved(m) => Some((url_item_removed(), spec_enc_item_removed(m))),
        }
    }

    fn decode(type_url: &str, bytes: &[u8]) -> (r: Option<Self>) {
        if str_eq_str(type_url, "type.googleapis.com/com.example.shoppingcart.persistence.ItemAdded") {
            match decode_item_added(bytes) {
                Some(m) => Some(ShoppingCartEvent::ItemAdded(m)),
                None => None,
            }
        } else if str_eq_str(type_url, "type.googleapis.com/com.example.shoppingcart.persistence.ItemRemoved") {
            match decode_item_removed(bytes) {
                Some(m) => Some(ShoppingCartEvent::ItemRemoved(m)),
                None => None,
            }
        } else if str_ends_with(type_url, ".ItemAdded") {
            match decode_item_added(bytes) {
                Some(m) => Some(ShoppingCartEvent::ItemAdded(m)),
                None => None,
            }
        } else if str_ends_with(type_url, ".ItemRemoved") {
            match decode_item_removed(bytes) {
                Some(m) => Some(ShoppingCartEvent::ItemRemoved(m)),
                None => None,
            }
        } else {
            None
        }
    }

    fn encode(&self) -> (r: Option<(String, Vec<u8>)>) {
        match self {
            ShoppingCartEvent::ItemAdded(m) => Some(("type.googleapis.com/com.example.shoppingcart.persistence.ItemAdded".to_owned(), encode_item_added(m))),
            ShoppingCartEvent::ItemRemoved(m) => Some(("type.googleapis.com/com.example.shoppingcart.persistence.ItemRemoved".to_owned(), encode_item_removed(m))),
        }
    }
}

/// Round trip: every declared variant decodes back from its encoding.
pub proof fn lemma_shopping_cart_event_roundtrip(v: ShoppingCartEventV)
    requires
        shopping_cart_event_wf(v),
    ensures
        ({
            let e = ShoppingCartEvent::spec_encode(v);
            e matches Some((u, b)) && ShoppingCartEvent::spec_decode(u, b) == Some(v)
        }),
{
    reveal_strlit("type.googleapis.com/com.example.shoppingcart.persistence.ItemAdded");
    reveal_strlit("type.googleapis.com/com.example.shoppingcart.persistence.ItemRemoved");
    assert(url_item_added().len() == 66);
    assert(url_item_removed().len() == 68);
    match v {
        ShoppingCartEventV::ItemAdded(m) => lemma_item_added_roundtrip(m),
        ShoppingCartEventV::ItemRemoved(m) => lemma_item_removed_roundtrip(m),
    }
}

/// The snapshot variant set of the shopping cart.
#[derive(Debug, Clone, PartialEq)]
pub enum ShoppingCartSnapshot {
    Snapshot(Cart),
}

/// The view of a [`ShoppingCartSnapshot`].
pub enum ShoppingCartSnapshotV {
    Snapshot(CartV),
}

impl View for ShoppingCartSnapshot {
    type V = ShoppingCartSnapshotV;

    open spec fn view(&self) -> ShoppingCartSnapshotV {
        match self {
            ShoppingCartSnapshot::Snapshot(m) => ShoppingCartSnapshotV::Snapshot(m@),
        }
    }
}

/// The bounds under which a value is encodable.
pub open spec fn shopping_cart_snapshot_wf(v: ShoppingCartSnapshotV) -> bool {
    match v {
        ShoppingCartSnapshotV::Snapshot(m) => cart_wf(m),
    }
}

impl AnyMessage for ShoppingCartSnapshot {
    open spec fn spec_decode(type_url: Seq<char>, bytes: Seq<u8>) -> Option<ShoppingCartSnapshotV> {
        if type_url == url_persistence_cart() {
            match spec_dec_cart(bytes) {
                Some(m) => Some(ShoppingCartSnapshotV::Snapshot(m)),
                None => None,
            }
        } else if spec_ends_with(type_url, ".Cart"@) {
            match spec_dec_cart(bytes) {
                Some(m) => Some(ShoppingCartSnapshotV::Snapshot(m)),
                None => None,
            }
        } else {
            None
        }
    }

    open spec fn spec_encode(v: ShoppingCartSnapshotV) -> Option<(Seq<char>, Seq<u8>)> {
        match v {
            ShoppingCartSnapshotV::Snapshot(m) => Some((url_persistence_cart(), spec_enc_cart(m))),
        }
    }

    fn decode(type_url: &str, bytes: &[u8]) -> (r: Option<Self>) {
        if str_eq_str(type_url, "type.googleapis.com/com.example.shoppingcart.persistence.Cart") {
            match decode_cart(bytes) {
                Some(m) => Some(ShoppingCartSnapshot::Snapshot(m)),
                None => None,
            }
        } else if str_ends_with(type_url, ".Cart") {
            match decode_cart(bytes) {
                Some(m) => Some(ShoppingCartSnapshot::Snapshot(m)),
                None => None,
            }
        } else {
            None
        }
    }

    fn encode(&self) -> (r: Option<(String, Vec<u8>)>) {
        match self {
            ShoppingCartSnapshot::Snapshot(m) => Some(("type.googleapis.com/com.example.shoppingcart.persistence.Cart".to_owned(), encode_cart(m))),
        }
    }
}

/// Round trip: every declared variant decodes back from its encoding.
pub proof fn lemma_shopping_cart_snapshot_roundtrip(v: ShoppingCartSnapshotV)
    requires
        shopping_cart_snapshot_wf(v),
    ensures
        ({
            let e = ShoppingCartSnapshot::spec_encode(v);
            e matches Some((u, b)) && ShoppingCartSnapshot::spec_decode(u, b) == Some(v)
        }),
{
    reveal_strlit("type.googleapis.com/com.example.shoppingcart.persistence.Cart");
    match v {
        ShoppingCartSnapshotV::Snapshot(m) => lemma_cart_roundtrip(m),
    }
}


// ---------------------------------------------------------------------------
// The shopping cart entity
// ---------------------------------------------------------------------------

/// One entry of the cart state, keyed by product id.
#[derive(Debug, Clone, PartialEq)]
pub struct CartEntry {
    pub product_id: String,
    pub name: String,
    pub qty: i32,
}

/// The view of a [`CartEntry`].
pub struct CartEntryV {
    pub product_id: Seq<char>,
    pub name: Seq<char>,
    pub qty: i32,
}

impl View for CartEntry {
    type V = CartEntryV;

    open spec fn view(&self) -> CartEntryV {
        CartEntryV { product_id: self.product_id@, name: self.name@, qty: self.qty }
    }
}

/// The cart entity: its entries ascending by product id — the shape an
/// ordered map keyed by product id stores, so each id is held at most once —
/// and the snapshot cadence it was built with.
#[derive(Debug, Clone, PartialEq)]
pub struct ShoppingCartEntity {
    pub items: Vec<CartEntry>,
    pub snapshot_every: Option<u32>,
}

/// The views of a list of wire line items.
pub open spec fn line_views(v: Seq<LineItem>) -> Seq<LineItemV> {
    Seq::new(v.len(), |k: int| v[k]@)
}

/// The views of a list of cart entries.
pub open spec fn entry_views(v: Seq<CartEntry>) -> Seq<CartEntryV> {
    Seq::new(v.len(), |k: int| v[k]@)
}

/// The view of a [`ShoppingCartEntity`].
pub struct ShoppingCartEntityV {
    pub items: Seq<CartEntryV>,
    pub snapshot_every: Option<u32>,
}

impl View for ShoppingCartEntity {
    type V = ShoppingCartEntityV;

    open spec fn view(&self) -> ShoppingCartEntityV {
        ShoppingCartEntityV { items: entry_views(self.items@), snapshot_every: self.snapshot_every }
    }
}

/// The first entry at or after `i` holding `pid`.
pub open spec fn find_entry(items: Seq<CartEntryV>, pid: Seq<char>, i: int) -> Option<int>
    decreases items.len() - i,
{
    if i < 0 || i >= items.len() {
        None
    } else if items[i].product_id == pid {
        Some(i)
    } else {
        find_entry(items, pid, i + 1)
    }
}

/// The position where a new entry for `pid` belongs: past every entry
/// whose product id orders before it.
pub open spec fn insert_pos(items: Seq<CartEntryV>, pid: Seq<char>, i: int) -> int
    decreases items.len() - i,
{
    if i < 0 || i >= items.len() {
        items.len() as int
    } else if key_lt(items[i].product_id, pid) {
        insert_pos(items, pid, i + 1)
    } else {
        i
    }
}

/// The cart invariant: entries strictly ascending by product id, which
/// also holds each product id at most once.
pub open spec fn entries_sorted(items: Seq<CartEntryV>) -> bool {
    forall|i: int, j: int|
        0 <= i < j < items.len() ==> key_lt(
            (#[trigger] items[i]).product_id,
            (#[trigger] items[j]).product_id,
        )
}

pub open spec fn cart_entity_wf(s: ShoppingCartEntityV) -> bool {
    entries_sorted(s.items)
}

/// Ascending entries hold each product id at most once.
pub proof fn lemma_sorted_entries_unique(items: Seq<CartEntryV>)
    requires
        entries_sorted(items),
    ensures
        forall|i: int, j: int|
            0 <= i < j < items.len() ==> (#[trigger] items[i]).product_id != (
            #[trigger] items[j]).product_id,
{
    assert forall|i: int, j: int|
        0 <= i < j < items.len() implies (#[trigger] items[i]).product_id != (
    #[trigger] items[j]).product_id by {
        lemma_key_order_total(items[i].product_id, items[j].product_id);
    }
}

proof fn lemma_find_entry_none(items: Seq<CartEntryV>, pid: Seq<char>, i: int)
    requires
        0 <= i,
        find_entry(items, pid, i) is None,
    ensures
        forall|k: int| i <= k < items.len() ==> (#[trigger] items[k]).product_id != pid,
    decreases items.len() - i,
{
    if i < items.len() {
        lemma_find_entry_none(items, pid, i + 1);
    }
}

proof fn lemma_find_entry_some(items: Seq<CartEntryV>, pid: Seq<char>, i: int)
    requires
        0 <= i,
    ensures
        find_entry(items, pid, i) matches Some(j) ==> i <= j < items.len() && items[j].product_id
            == pid,
    decreases items.len() - i,
{
    if i < items.len() && items[i].product_id != pid {
        lemma_find_entry_some(items, pid, i + 1);
    }
}

proof fn lemma_insert_pos_facts(items: Seq<CartEntryV>, pid: Seq<char>, i: int)
    requires
        0 <= i <= items.len(),
    ensures
        ({
            let p = insert_pos(items, pid, i);
            &&& i <= p <= items.len()
            &&& forall|k: int| i <= k < p ==> key_lt((#[trigger] items[k]).product_id, pid)
            &&& p < items.len() ==> !key_lt(items[p].product_id, pid)
        }),
    decreases items.len() - i,
{
    if i < items.len() && key_lt(items[i].product_id, pid) {
        lemma_insert_pos_facts(items, pid, i + 1);
    }
}

/// Inserting an absent product id at its position keeps entries ascending.
proof fn lemma_insert_sorted(items: Seq<CartEntryV>, e: CartEntryV)
    requires
        entries_sorted(items),
        forall|k: int| 0 <= k < items.len() ==> (#[trigger] items[k]).product_id != e.product_id,
    ensures
        entries_sorted(items.insert(insert_pos(items, e.product_id, 0), e)),
{
    let p = insert_pos(items, e.product_id, 0);
    lemma_insert_pos_facts(items, e.product_id, 0);
    let r = items.insert(p, e);
    assert forall|k: int| p <= k < items.len() implies key_lt(
        e.product_id,
        (#[trigger] items[k]).product_id,
    ) by {
        lemma_key_order_total(e.product_id, items[p].product_id);
        if k > p {
            lemma_key_lt_trans(e.product_id, items[p].product_id, items[k].product_id);
        }
    }
    assert forall|i: int, j: int| 0 <= i < j < r.len() implies key_lt(
        (#[trigger] r[i]).product_id,
        (#[trigger] r[j]).product_id,
    ) by {
        if j < p {
            assert(r[i] == items[i] && r[j] == items[j]);
        } else if j == p {
            assert(r[i] == items[i] && r[j] == e);
        } else if i < p {
            assert(r[i] == items[i] && r[j] == items[j - 1]);
        } else if i == p {
            assert(r[i] == e && r[j] == items[j - 1]);
        } else {
            assert(r[i] == items[i - 1] && r[j] == items[j - 1]);
        }
    }
}

/// Loading one snapshot line keeps entries ascending.
proof fn lemma_upsert_sorted(items: Seq<CartEntryV>, li: LineItemV)
    requires
        entries_sorted(items),
    ensures
        entries_sorted(upsert_entry(items, li)),
{
    match find_entry(items, li.product_id, 0) {
        Some(i) => {
            lemma_find_entry_some(items, li.product_id, 0);
            let r = items.update(
                i,
                CartEntryV { product_id: li.product_id, name: li.name, qty: li.quantity },
            );
            assert forall|a: int, b: int| 0 <= a < b < r.len() implies key_lt(
                (#[trigger] r[a]).product_id,
                (#[trigger] r[b]).product_id,
            ) by {
                assert(key_lt(items[a].product_id, items[b].product_id));
            }
        }
        None => {
            lemma_find_entry_none(items, li.product_id, 0);
            lemma_insert_sorted(
                items,
                CartEntryV { product_id: li.product_id, name: li.name, qty: li.quantity },
            );
        }
    }
}

proof fn lemma_load_entries_sorted(items: Seq<CartEntryV>, lis: Seq<LineItemV>)
    requires
        entries_sorted(items),
    ensures
        entries_sorted(load_entries(items, lis)),
    decreases lis.len(),
{
    if lis.len() > 0 {
        lemma_upsert_sorted(items, lis[0]);
        lemma_load_entries_sorted(upsert_entry(items, lis[0]), lis.drop_first());
    }
}

/// Event application preserves the cart invariant.
pub proof fn lemma_cart_step_preserves_wf(s: ShoppingCartEntityV, e: ShoppingCartEventV)
    requires
        cart_entity_wf(s),
    ensures
        cart_entity_wf(cart_step(s, e)),
{
    match e {
        ShoppingCartEventV::ItemAdded(ia) => match ia.item {
            None => {}
            Some(li) => match find_entry(s.items, li.product_id, 0) {
                Some(i) => {
                    lemma_find_entry_some(s.items, li.product_id, 0);
                    let r = cart_step(s, e).items;
                    assert forall|a: int, b: int| 0 <= a < b < r.len() implies key_lt(
                        (#[trigger] r[a]).product_id,
                        (#[trigger] r[b]).product_id,
                    ) by {
                        assert(key_lt(s.items[a].product_id, s.items[b].product_id));
                    }
                }
                None => {
                    lemma_find_entry_none(s.items, li.product_id, 0);
                    lemma_insert_sorted(
                        s.items,
                        CartEntryV { product_id: li.product_id, name: li.name, qty: li.quantity },
                    );
                }
            },
        },
        ShoppingCartEventV::ItemRemoved(ir) => match find_entry(s.items, ir.product_id, 0) {
            Some(i) => {
                lemma_find_entry_some(s.items, ir.product_id, 0);
                let r = s.items.remove(i);
                assert forall|a: int, b: int| 0 <= a < b < r.len() implies key_lt(
                    (#[trigger] r[a]).product_id,
                    (#[trigger] r[b]).product_id,
                ) by {
                    let a0: int = if a < i { a } else { a + 1 };
                    let b0: int = if b < i { b } else { b + 1 };
                    assert(r[a] == s.items[a0] && r[b] == s.items[b0]);
                    assert(key_lt(s.items[a0].product_id, s.items[b0].product_id));
                }
            }
            None => {}
        },
    }
}

/// Snapshot restore establishes the cart invariant outright.
pub proof fn lemma_cart_restore_wf(s: ShoppingCartEntityV, sn: ShoppingCartSnapshotV)
    ensures
        cart_entity_wf(cart_restore(s, sn)),
{
    match sn {
        ShoppingCartSnapshotV::Snapshot(cart) => {
            lemma_load_entries_sorted(Seq::empty(), cart.items);
        }
    }
}

/// Under the cart invariant a GetCart reply lists its items in ascending
/// product-id order — the order an ordered map keyed by product id
/// iterates.
pub proof fn lemma_cart_lines_ascending(items: Seq<CartEntryV>)
    requires
        entries_sorted(items),
    ensures
        forall|i: int, j: int|
            0 <= i < j < cart_lines(items).len() ==> key_lt(
                (#[trigger] cart_lines(items)[i]).product_id,
                (#[trigger] cart_lines(items)[j]).product_id,
            ),
{
    assert forall|i: int, j: int|
        0 <= i < j < cart_lines(items).len() implies key_lt(
        (#[trigger] cart_lines(items)[i]).product_id,
        (#[trigger] cart_lines(items)[j]).product_id,
    ) by {
        assert(cart_lines(items)[i].product_id == items[i].product_id);
        assert(cart_lines(items)[j].product_id == items[j].product_id);
    }
}

/// Two's-complement wrapping addition of `int32` quantities.
pub open spec fn wrap_add_i32(a: i32, b: i32) -> i32 {
    if a + b > i32::MAX {
        (a + b - 0x1_0000_0000) as i32
    } else if a + b < i32::MIN {
        (a + b + 0x1_0000_0000) as i32
    } else {
        (a + b) as i32
    }
}

/// What an `ItemAdded` event does to the state: add the quantity to the
/// product's entry, or insert a new entry at its ascending position; an
/// event without an item is dropped.
pub open spec fn apply_item_added(s: ShoppingCartEntityV, ia: ItemAddedV) -> ShoppingCartEntityV {
    match ia.item {
        None => s,
        Some(li) => match find_entry(s.items, li.product_id, 0) {
            Some(i) => ShoppingCartEntityV {
                items: s.items.update(
                    i,
                    CartEntryV {
                        product_id: s.items[i].product_id,
                        name: s.items[i].name,
                        qty: wrap_add_i32(s.items[i].qty, li.quantity),
                    },
                ),
                snapshot_every: s.snapshot_every,
            },
            None => ShoppingCartEntityV {
                items: s.items.insert(
                    insert_pos(s.items, li.product_id, 0),
                    CartEntryV { product_id: li.product_id, name: li.name, qty: li.quantity },
                ),
                snapshot_every: s.snapshot_every,
            },
        },
    }
}

/// What an `ItemRemoved` event does to the state: drop the product's entry,
/// if it is there.
pub open spec fn apply_item_removed(s: ShoppingCartEntityV, ir: ItemRemovedV) -> ShoppingCartEntityV {
    match find_entry(s.items, ir.product_id, 0) {
        Some(i) => ShoppingCartEntityV {
            items: s.items.remove(i),
            snapshot_every: s.snapshot_every,
        },
        None => s,
    }
}

/// The deterministic event transition of the cart.
pub open spec fn cart_step(s: ShoppingCartEntityV, e: ShoppingCartEventV) -> ShoppingCartEntityV {
    match e {
        ShoppingCartEventV::ItemAdded(ia) => apply_item_added(s, ia),
        ShoppingCartEventV::ItemRemoved(ir) => apply_item_removed(s, ir),
    }
}

/// Insert one snapshot line: replace the product's entry, or insert one at
/// its ascending position.
pub open spec fn upsert_entry(items: Seq<CartEntryV>, li: LineItemV) -> Seq<CartEntryV> {
    match find_entry(items, li.product_id, 0) {
        Some(i) => items.update(
            i,
            CartEntryV { product_id: li.product_id, name: li.name, qty: li.quantity },
        ),
        None => items.insert(
            insert_pos(items, li.product_id, 0),
            CartEntryV { product_id: li.product_id, name: li.name, qty: li.quantity },
        ),
    }
}

pub open spec fn load_entries(items: Seq<CartEntryV>, lis: Seq<LineItemV>) -> Seq<CartEntryV>
    decreases lis.len(),
{
    if lis.len() == 0 {
        items
    } else {
        load_entries(upsert_entry(items, lis[0]), lis.drop_first())
    }
}

/// What restoring from a snapshot does: the previous entries are cleared
/// and the snapshot's lines are loaded in order.
pub open spec fn cart_restore(s: ShoppingCartEntityV, sn: ShoppingCartSnapshotV) -> ShoppingCartEntityV {
    match sn {
        ShoppingCartSnapshotV::Snapshot(cart) => ShoppingCartEntityV {
            items: load_entries(Seq::empty(), cart.items),
            snapshot_every: s.snapshot_every,
        },
    }
}

/// The cart contents as wire line items, in entry order — ascending by
/// product id whenever the entries are.
pub open spec fn cart_lines(items: Seq<CartEntryV>) -> Seq<LineItemV> {
    Seq::new(
        items.len(),
        |i: int| LineItemV { product_id: items[i].product_id, name: items[i].name, quantity: items[i].qty },
    )
}

pub open spec fn add_negative_qty_msg(pid: Seq<char>) -> Seq<char> {
    "Cannot add negative quantity of to item "@ + pid
}

pub open spec fn remove_missing_msg(pid: Seq<char>) -> Seq<char> {
    "Cannot remove item "@ + pid + " because it is not in the cart."@
}

/// The cart's pure command decision: what each command replies and which
/// events it emits, or why it is rejected.
pub open spec fn cart_decide(s: ShoppingCartEntityV, c: ShoppingCartCommandV) -> Result<
    (ResponseV<ShoppingCartReplyV>, Seq<ShoppingCartEventV>),
    Seq<char>,
> {
    match c {
        ShoppingCartCommandV::AddLine(m) => if m.quantity <= 0 {
            Err(add_negative_qty_msg(m.product_id))
        } else {
            Ok(
                (
                    ResponseV::EmptyReply,
                    seq![
                        ShoppingCartEventV::ItemAdded(
                            ItemAddedV {
                                item: Some(
                                    LineItemV {
                                        product_id: m.product_id,
                                        name: m.name,
                                        quantity: m.quantity,
                                    },
                                ),
                            },
                        ),
                    ],
                ),
            )
        },
        ShoppingCartCommandV::RemoveLine(m) => if find_entry(s.items, m.product_id, 0) is None {
            Err(remove_missing_msg(m.product_id))
        } else {
            Ok(
                (
                    ResponseV::EmptyReply,
                    seq![
                        ShoppingCartEventV::ItemRemoved(ItemRemovedV { product_id: m.product_id }),
                    ],
                ),
            )
        },
        ShoppingCartCommandV::GetCart(_) => Ok(
            (
                ResponseV::Reply(ShoppingCartReplyV::Cart(CartV { items: cart_lines(s.items) })),
                Seq::empty(),
            ),
        ),
    }
}

/// Wrapping addition, as the event transition uses it.
fn wrapping_add_i32(a: i32, b: i32) -> (r: i32)
    ensures
        r == wrap_add_i32(a, b),
{
    let s: i64 = a as i64 + b as i64;
    if s > i32::MAX as i64 {
        (s - 0x1_0000_0000i64) as i32
    } else if s < i32::MIN as i64 {
        (s + 0x1_0000_0000i64) as i32
    } else {
        s as i32
    }
}

impl ShoppingCartEntity {
    /// A fresh cart that asks for a snapshot every `snapshot_every` events.
    pub fn new(snapshot_every: u32) -> (r: ShoppingCartEntity)
        ensures
            r@ == (ShoppingCartEntityV {
                items: Seq::<CartEntryV>::empty(),
                snapshot_every: Some(snapshot_every),
            }),
            cart_entity_wf(r@),
    {
        let r = ShoppingCartEntity { items: Vec::new(), snapshot_every: Some(snapshot_every) };
        proof {
            assert(r@.items =~= Seq::<CartEntryV>::empty());
        }
        r
    }

    /// The index of the entry holding `pid`.
    fn find_index(&self, pid: &str) -> (r: Option<usize>)
        ensures
            match find_entry(self@.items, pid@, 0) {
                Some(i) => r matches Some(u) && u as int == i && 0 <= i < self@.items.len(),
                None => r is None,
            },
    {
        let n = self.items.len();
        let mut i: usize = 0;
        while i < n
            invariant
                i <= n,
                n == self.items@.len(),
                find_entry(self@.items, pid@, 0) == find_entry(self@.items, pid@, i as int),
            decreases n - i,
        {
            if str_eq_str(self.items[i].product_id.as_str(), pid) {
                return Some(i);
            }
            i = i + 1;
        }
        None
    }

    /// The position where a new entry for `pid` is inserted to keep the
    /// entries ascending.
    fn insert_index(&self, pid: &str) -> (r: usize)
        ensures
            r as int == insert_pos(self@.items, pid@, 0),
            r <= self@.items.len(),
    {
        let n = self.items.len();
        let mut i: usize = 0;
        while i < n
            invariant
                i <= n,
                n == self.items@.len(),
                insert_pos(self@.items, pid@, 0) == insert_pos(self@.items, pid@, i as int),
            decreases n - i,
        {
            if !str_key_before(self.items[i].product_id.as_str(), pid) {
                return i;
            }
            i = i + 1;
        }
        n
    }

    /// Replace the product's entry with this snapshot line, or insert it at
    /// its ascending position.
    fn upsert(&mut self, li: LineItem)
        ensures
            final(self)@.items == upsert_entry(old(self)@.items, li@),
            final(self)@.snapshot_every == old(self)@.snapshot_every,
    {
        match self.find_index(li.product_id.as_str()) {
            Some(i) => {
                self.items.remove(i);
                self.items.insert(
                    i,
                    CartEntry { product_id: li.product_id, name: li.name, qty: li.quantity },
                );
                proof {
                    assert(self@.items =~= old(self)@.items.update(
                        i as int,
                        CartEntryV { product_id: li@.product_id, name: li@.name, qty: li@.quantity },
                    ));
                }
            }
            None => {
                let pos = self.insert_index(li.product_id.as_str());
                self.items.insert(
                    pos,
                    CartEntry { product_id: li.product_id, name: li.name, qty: li.quantity },
                );
                proof {
                    assert(self@.items =~= old(self)@.items.insert(
                        insert_pos(old(self)@.items, li@.product_id, 0),
                        CartEntryV { product_id: li@.product_id, name: li@.name, qty: li@.quantity },
                    ));
                }
            }
        }
    }
}

impl Default for ShoppingCartEntity {
    /// A fresh cart with no snapshot cadence set.
    fn default() -> (r: ShoppingCartEntity)
        ensures
            r@ == (ShoppingCartEntityV {
                items: Seq::<CartEntryV>::empty(),
                snapshot_every: None,
            }),
            cart_entity_wf(r@),
    {
        let r = ShoppingCartEntity { items: Vec::new(), snapshot_every: None };
        proof {
            assert(r@.items =~= Seq::<CartEntryV>::empty());
        }
        r
    }
}

impl EventSourcedEntity for ShoppingCartEntity {
    type Command = ShoppingCartCommand;

    type Event = ShoppingCartEvent;

    type Snapshot = ShoppingCartSnapshot;

    type Response = ShoppingCartReply;

    open spec fn spec_snapshot_every(&self) -> Option<u32> {
        self.snapshot_every
    }

    fn snapshot_every(&self) -> (r: Option<u32>) {
        self.snapshot_every
    }

    open spec fn spec_handle_snapshot(s: ShoppingCartEntityV, snapshot: ShoppingCartSnapshotV) -> ShoppingCartEntityV {
        cart_restore(s, snapshot)
    }

    fn handle_snapshot(&mut self, snapshot: ShoppingCartSnapshot)
        ensures
            cart_entity_wf(final(self)@),
    {
        let ShoppingCartSnapshot::Snapshot(cart) = snapshot;
        let ghost target = cart_restore(old(self)@, ShoppingCartSnapshotV::Snapshot(cart@));
        self.items.clear();
        let mut lis = cart.items;
        proof {
            assert(self@.items =~= Seq::<CartEntryV>::empty());
            assert(line_views(lis@) =~= cart@.items);
        }
        while lis.len() > 0
            invariant
                load_entries(self@.items, line_views(lis@)) == target.items,
                self@.snapshot_every == old(self)@.snapshot_every,
            decreases lis@.len(),
        {
            let ghost lvs = line_views(lis@);
            let ghost items0 = self@.items;
            let li = lis.remove(0);
            self.upsert(li);
            proof {
                assert(line_views(lis@) =~= lvs.drop_first());
                assert(lvs[0] == li@);
                assert(load_entries(items0, lvs) == load_entries(
                    upsert_entry(items0, li@),
                    lvs.drop_first(),
                ));
            }
        }
        proof {
            assert(line_views(lis@) =~= Seq::<LineItemV>::empty());
            assert(self@ == target);
            lemma_cart_restore_wf(old(self)@, ShoppingCartSnapshotV::Snapshot(cart@));
        }
    }

    open spec fn spec_handle_command(s: ShoppingCartEntityV, command: ShoppingCartCommandV) -> Result<
        (ResponseV<ShoppingCartReplyV>, Seq<ShoppingCartEventV>),
        Seq<char>,
    > {
        cart_decide(s, command)
    }

    fn handle_command<C: CommandContext<ShoppingCartEvent>>(
        &self,
        command: ShoppingCartCommand,
        context: &mut C,
    ) -> (r: Result<Response<ShoppingCartReply>, String>)
        ensures
            r is Err ==> final(context).emitted() == old(context).emitted(),
    {
        match command {
            ShoppingCartCommand::AddLine(m) => {
                if m.quantity <= 0 {
                    let msg = crate::codec::string_concat(
                        "Cannot add negative quantity of to item ".to_owned(),
                        m.product_id.as_str(),
                    );
                    Err(msg)
                } else {
                    let ev = ShoppingCartEvent::ItemAdded(
                        ItemAdded {
                            item: Some(
                                LineItem {
                                    product_id: m.product_id,
                                    name: m.name,
                                    quantity: m.quantity,
                                },
                            ),
                        },
                    );
                    let ghost evv = ev@;
                    context.emit_event(ev);
                    proof {
                        assert(context.emitted() =~= old(context).emitted() + seq![evv]);
                    }
                    Ok(Response::EmptyReply)
                }
            }
            ShoppingCartCommand::RemoveLine(m) => {
                match self.find_index(m.product_id.as_str()) {
                    None => {
                        let msg = crate::codec::string_concat(
                            crate::codec::string_concat(
                                "Cannot remove item ".to_owned(),
                                m.product_id.as_str(),
                            ),
                            " because it is not in the cart.",
                        );
                        Err(msg)
                    }
                    Some(_) => {
                        let ev = ShoppingCartEvent::ItemRemoved(
                            ItemRemoved { product_id: m.product_id },
                        );
                        let ghost evv = ev@;
                        context.emit_event(ev);
                        proof {
                            assert(context.emitted() =~= old(context).emitted() + seq![evv]);
                        }
                        Ok(Response::EmptyReply)
                    }
                }
            }
            ShoppingCartCommand::GetCart(_) => {
                let n = self.items.len();
                let mut lines: Vec<LineItem> = Vec::new();
                let mut i: usize = 0;
                proof {
                    assert(line_views(lines@) =~= cart_lines(self@.items.take(0)));
                }
                while i < n
                    invariant
                        i <= n,
                        n == self.items@.len(),
                        line_views(lines@) == cart_lines(self@.items.take(i as int)),
                    decreases n - i,
                {
                    let e = &self.items[i];
                    let ghost lv0 = line_views(lines@);
                    lines.push(
                        LineItem {
                            product_id: e.product_id.clone(),
                            name: e.name.clone(),
                            quantity: e.qty,
                        },
                    );
                    proof {
                        let lv = line_views(lines@);
                        let target = cart_lines(self@.items.take(i + 1));
                        assert(lv0.len() == i as int);
                        assert(lines@.len() == i + 1);
                        assert(lv.len() == i + 1);
                        assert(target.len() == i + 1);
                        assert forall|k: int| 0 <= k < lv.len() implies lv[k] == target[k] by {
                            if k < i {
                                assert(lv[k] == lv0[k]);
                                assert(lv0[k] == cart_lines(self@.items.take(i as int))[k]);
                                assert(self@.items.take(i as int)[k] == self@.items.take(i + 1)[k]);
                            } else {
                                assert(lv[k] == lines@[k]@);
                            }
                        }
                        assert(lv =~= target);
                    }
                    i = i + 1;
                }
                let reply = ShoppingCartReply::Cart(Cart { items: lines });
                proof {
                    assert(self@.items.take(n as int) =~= self@.items);
                    assert(context.emitted() =~= old(context).emitted() + Seq::<
                        ShoppingCartEventV,
                    >::empty());
                }
                Ok(Response::Reply(reply))
            }
        }
    }

    open spec fn spec_handle_event(s: ShoppingCartEntityV, event: ShoppingCartEventV) -> ShoppingCartEntityV {
        cart_step(s, event)
    }

    fn handle_event(&mut self, event: ShoppingCartEvent)
        ensures
            cart_entity_wf(old(self)@) ==> cart_entity_wf(final(self)@),
    {
        let ghost ev = event@;
        match event {
            ShoppingCartEvent::ItemAdded(ia) => {
                match ia.item {
                    Some(li) => {
                        match self.find_index(li.product_id.as_str()) {
                            Some(i) => {
                                let mut entry = self.items.remove(i);
                                entry.qty = wrapping_add_i32(entry.qty, li.quantity);
                                self.items.insert(i, entry);
                                proof {
                                    let s0 = old(self)@;
                                    assert(self@.items =~= s0.items.update(
                                        i as int,
                                        CartEntryV {
                                            product_id: s0.items[i as int].product_id,
                                            name: s0.items[i as int].name,
                                            qty: wrap_add_i32(s0.items[i as int].qty, li@.quantity),
                                        },
                                    ));
                                }
                            }
                            None => {
                                let pos = self.insert_index(li.product_id.as_str());
                                self.items.insert(
                                    pos,
                                    CartEntry {
                                        product_id: li.product_id,
                                        name: li.name,
                                        qty: li.quantity,
                                    },
                                );
                                proof {
                                    assert(self@.items =~= old(self)@.items.insert(
                                        insert_pos(old(self)@.items, li@.product_id, 0),
                                        CartEntryV {
                                            product_id: li@.product_id,
                                            name: li@.name,
                                            qty: li@.quantity,
                                        },
                                    ));
                                }
                            }
                        }
                    }
                    None => (),
                }
            }
            ShoppingCartEvent::ItemRemoved(ir) => {
                match self.find_index(ir.product_id.as_str()) {
                    Some(i) => {
                        self.items.remove(i);
                        proof {
                            assert(self@.items =~= old(self)@.items.remove(i as int));
                        }
                    }
                    None => (),
                }
            }
        }
        proof {
            assert(self@ == cart_step(old(self)@, ev));
            if cart_entity_wf(old(self)@) {
                lemma_cart_step_preserves_wf(old(self)@, ev);
            }
        }
    }
}

/// Builds a fresh cart entity for each new session.
pub struct ShoppingCartFactory {
    pub snapshot_every: Option<u32>,
}

impl HandlerFactory for ShoppingCartFactory {
    type Handler = ShoppingCartEntity;

    open spec fn spec_create(&self) -> ShoppingCartEntityV {
        ShoppingCartEntityV { items: Seq::empty(), snapshot_every: self.snapshot_every }
    }

    fn create_handler(&self) -> (r: ShoppingCartEntity)
        ensures
            cart_entity_wf(r@),
    {
        let r = ShoppingCartEntity { items: Vec::new(), snapshot_every: self.snapshot_every };
        proof {
            assert(r@.items =~= Seq::<CartEntryV>::empty());
        }
        r
    }
}

} // verus!
