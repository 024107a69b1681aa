//! The discovery contract.
//!
//! On request the user function reports a serialized schema descriptor
//! blob, one entry for every registered entity, and static service
//! metadata; a companion error report is acknowledged without further
//! logic.

use vstd::prelude::*;

use std::sync::Arc;

use crate::proto::{enc_fields, len_fields, lemma_enc_fields_app, emit_len_field,
    emit_string_field, str_fields, FieldVal};
use crate::registry::{EntityRegistry, HandlerFactory};

verus! {

/// What the proxy announces about itself.
#[derive(Debug, Clone, PartialEq)]
pub struct ProxyInfo {
    pub protocol_major_version: i32,
    pub protocol_minor_version: i32,
    pub proxy_name: String,
    pub proxy_version: String,
    pub supported_entity_types: Vec<String>,
}

/// One registered entity, as discovery reports it.
#[derive(Debug, Clone, PartialEq)]
pub struct Entity {
    pub entity_type: String,
    pub service_name: String,
    pub persistence_id: String,
}

/// Static service and runtime metadata.
#[derive(Debug, Clone, PartialEq)]
pub struct ServiceInfo {
    pub service_name: String,
    pub service_version: String,
    pub service_runtime: String,
    pub support_library_name: String,
    pub support_library_version: String,
}

/// The discovery reply.
#[derive(Debug, Clone, PartialEq)]
pub struct EntitySpec {
    pub proto: Vec<u8>,
    pub entities: Vec<Entity>,
    pub service_info: Option<ServiceInfo>,
}

/// An opaque diagnostic record the proxy may report.
#[derive(Debug, Clone, PartialEq)]
pub struct UserFunctionError {
    pub message: String,
}

/// The entity type every event-sourced registration reports.
pub open spec fn event_sourced_entity_type() -> Seq<char> {
    "cloudstate.eventsourced.EventSourced"@
}

/// The discovery half of the protocol: holds the schema descriptor blob
/// and the registry whose entries it reports.
pub struct EntityDiscoveryServerImpl<F: HandlerFactory> {
    pub descriptor_set: Vec<u8>,
    pub entity_registry: Arc<EntityRegistry<F>>,
}

impl<F: HandlerFactory> EntityDiscoveryServerImpl<F> {
    /// Answer a discovery request: the descriptor blob, one entry per
    /// registered entity in registration order, and the static metadata.
    pub fn discover(&self, request: &ProxyInfo) -> (r: EntitySpec)
        ensures
            r.proto@ == self.descriptor_set@,
            r.entities@.len() == (*self.entity_registry).event_sourced_entities@.len(),
            forall|i: int|
                0 <= i < r.entities@.len() ==> {
                    &&& (#[trigger] r.entities@[i]).entity_type@ == event_sourced_entity_type()
                    &&& r.entities@[i].service_name@ == (
                    *self.entity_registry).event_sourced_entities@[i].service_name@
                    &&& r.entities@[i].persistence_id@ == (
                    *self.entity_registry).event_sourced_entities@[i].persistence_id@
                },
            r.service_info matches Some(si) && si.service_name@ == "shopping-cart"@
                && si.service_version@ == "0.1"@ && si.service_runtime@ == "rust"@
                && si.support_library_name@ == "cloudstate"@ && si.support_library_version@
                == "0.1"@,
    {
        let descs = &self.entity_registry.event_sourced_entities;
        let n = descs.len();
        let mut entities: Vec<Entity> = Vec::new();
        let mut i: usize = 0;
        while i < n
            invariant
                i <= n,
                n == (*self.entity_registry).event_sourced_entities@.len(),
                entities@.len() == i,
                forall|k: int|
                    0 <= k < i ==> {
                        &&& (#[trigger] entities@[k]).entity_type@ == event_sourced_entity_type()
                        &&& entities@[k].service_name@ == (
                        *self.entity_registry).event_sourced_entities@[k].service_name@
                        &&& entities@[k].persistence_id@ == (
                        *self.entity_registry).event_sourced_entities@[k].persistence_id@
                    },
            decreases n - i,
        {
            let d = &self.entity_registry.event_sourced_entities[i];
            entities.push(
                Entity {
                    entity_type: "cloudstate.eventsourced.EventSourced".to_owned(),
                    service_name: d.service_name.clone(),
                    persistence_id: d.persistence_id.clone(),
                },
            );
            i = i + 1;
        }
        EntitySpec {
            proto: self.descriptor_set.clone(),
            entities,
            service_info: Some(
                ServiceInfo {
                    service_name: "shopping-cart".to_owned(),
                    service_version: "0.1".to_owned(),
                    service_runtime: "rust".to_owned(),
                    support_library_name: "cloudstate".to_owned(),
                    support_library_version: "0.1".to_owned(),
                },
            ),
        }
    }

    /// Acknowledge a reported error; no further logic belongs here.
    pub fn report_error(&self, _error: UserFunctionError) {
    }
}

/// The descriptor blob of one schema file: its name under tag 1 and its
/// package under tag 2, as a file-descriptor record.
pub open spec fn file_descriptor_fields(name: Seq<char>, package: Seq<char>) -> Seq<(u64, FieldVal)> {
    str_fields(1, name) + str_fields(2, package)
}

/// The shopping cart schema's descriptor-set blob: one file record per
/// schema file, each under tag 1.
pub open spec fn spec_shopping_cart_descriptor_set() -> Seq<u8> {
    enc_fields(
        len_fields(1, enc_fields(file_descriptor_fields("shoppingcart.proto"@, "com.example.shoppingcart"@)))
            + len_fields(
            1,
            enc_fields(
                file_descriptor_fields("persistence/domain.proto"@, "com.example.shoppingcart.persistence"@),
            ),
        ),
    )
}

/// Encode one file record of the descriptor set.
fn encode_file_descriptor(name: &str, package: &str) -> (r: Vec<u8>)
    ensures
        r@ == enc_fields(file_descriptor_fields(name@, package@)),
{
    let mut buf: Vec<u8> = Vec::new();
    emit_string_field(&mut buf, 1, name);
    emit_string_field(&mut buf, 2, package);
    proof {
        lemma_enc_fields_app(str_fields(1, name@), str_fields(2, package@));
        assert(buf@ =~= enc_fields(file_descriptor_fields(name@, package@)));
    }
    buf
}

/// The serialized schema descriptor set that discovery hands out for the
/// shopping cart.
pub fn shopping_cart_descriptor_set() -> (r: Vec<u8>)
    ensures
        r@ == spec_shopping_cart_descriptor_set(),
        r@.len() > 0,
{
    let mut buf: Vec<u8> = Vec::new();
    let f1 = encode_file_descriptor("shoppingcart.proto", "com.example.shoppingcart");
    let f2 = encode_file_descriptor("persistence/domain.proto", "com.example.shoppingcart.persistence");
    emit_len_field(&mut buf, 1, &f1);
    emit_len_field(&mut buf, 1, &f2);
    proof {
        let a = len_fields(1, f1@);
        let b = len_fields(1, f2@);
        lemma_enc_fields_app(a, b);
        assert(buf@ =~= enc_fields(a + b));
        crate::proto::lemma_varint_len((1u64 * 8 + 2) as u64);
        assert(enc_fields(a).len() > 0) by {
            assert(enc_fields(a) == crate::proto::enc_field(1u64, FieldVal::Len(f1@))
                + enc_fields(a.drop_first()));
        }
    }
    buf
}

} // verus!
