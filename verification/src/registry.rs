//! The entity registry.
//!
//! Maps a service name to the factory that builds a fresh handler for each
//! new session.  Built once at startup, read-only afterwards; no two
//! descriptors may share a service name, and a duplicate registration is a
//! configuration error that must keep the service from starting.

use vstd::prelude::*;

use crate::codec::str_eq_str;
use crate::eventsourced::EventSourcedEntityHandler;

verus! {

/// Builds a fresh handler for each new session of one entity type.
pub trait HandlerFactory: Sized {
    type Handler: EventSourcedEntityHandler;

    /// The view of the fresh state the factory builds.
    spec fn spec_create(&self) -> <Self::Handler as View>::V;

    fn create_handler(&self) -> (r: Self::Handler)
        ensures
            r@ == self.spec_create(),
    ;
}

/// The registration record of one entity type.
pub struct EventSourcedEntityDescriptor<F> {
    pub service_name: String,
    pub persistence_id: String,
    pub handler_factory: F,
}

impl<F> EventSourcedEntityDescriptor<F> {
    /// The factory the descriptor was registered with.
    pub open spec fn factory(&self) -> F {
        self.handler_factory
    }
}

/// A configuration error raised at registration time.
#[derive(Debug)]
pub enum RegistryError {
    /// Two registrations named the same service; fatal at startup.
    DuplicateRegistration { service_name: String },
}

/// The registry of entity types, keyed by service name.
pub struct EntityRegistry<F> {
    pub event_sourced_entities: Vec<EventSourcedEntityDescriptor<F>>,
}

/// The first index at or after `i` whose descriptor carries `name`.
pub open spec fn first_match<F>(
    descs: Seq<EventSourcedEntityDescriptor<F>>,
    name: Seq<char>,
    i: int,
) -> Option<int>
    decreases descs.len() - i,
{
    if i < 0 || i >= descs.len() {
        None
    } else if descs[i].service_name@ == name {
        Some(i)
    } else {
        first_match(descs, name, i + 1)
    }
}

pub proof fn lemma_first_match_none<F>(
    descs: Seq<EventSourcedEntityDescriptor<F>>,
    name: Seq<char>,
    i: int,
)
    requires
        0 <= i,
        first_match(descs, name, i) is None,
    ensures
        forall|k: int| i <= k < descs.len() ==> (#[trigger] descs[k].service_name@) != name,
    decreases descs.len() - i,
{
    if 0 <= i < descs.len() {
        lemma_first_match_none(descs, name, i + 1);
    }
}

impl<F: HandlerFactory> EntityRegistry<F> {
    /// Where `name` is registered, if anywhere.
    pub open spec fn spec_lookup(&self, name: Seq<char>) -> Option<int> {
        first_match(self.event_sourced_entities@, name, 0)
    }

    /// No two descriptors share a service name.
    pub open spec fn wf(&self) -> bool {
        forall|i: int, j: int|
            0 <= i < j < self.event_sourced_entities@.len()
                ==> (#[trigger] self.event_sourced_entities@[i].service_name@) != (
            #[trigger] self.event_sourced_entities@[j].service_name@)
    }

    pub fn new() -> (r: EntityRegistry<F>)
        ensures
            r.event_sourced_entities@.len() == 0,
            r.wf(),
    {
        EntityRegistry { event_sourced_entities: Vec::new() }
    }

    /// Register one entity type.  A service name already present is rejected
    /// and the registry is left unchanged; otherwise the descriptor is
    /// appended and uniqueness of service names is preserved.
    pub fn register_event_sourced_entity(
        &mut self,
        service_name: &str,
        persistence_id: &str,
        handler_factory: F,
    ) -> (r: Result<(), RegistryError>)
        ensures
            match r {
                Ok(()) => {
                    &&& old(self).spec_lookup(service_name@) is None
                    &&& final(self).event_sourced_entities@.drop_last() == old(
                        self,
                    ).event_sourced_entities@
                    &&& final(self).event_sourced_entities@.len() == old(
                        self,
                    ).event_sourced_entities@.len() + 1
                    &&& final(self).event_sourced_entities@.last().service_name@ == service_name@
                    &&& final(self).event_sourced_entities@.last().persistence_id@
                        == persistence_id@
                    &&& final(self).event_sourced_entities@.last().factory() == handler_factory
                    &&& old(self).wf() ==> final(self).wf()
                },
                Err(RegistryError::DuplicateRegistration { service_name: n }) => {
                    &&& old(self).spec_lookup(service_name@) is Some
                    &&& n@ == service_name@
                    &&& *final(self) == *old(self)
                },
            },
    {
        if self.lookup_index(service_name).is_some() {
            return Err(
                RegistryError::DuplicateRegistration { service_name: service_name.to_owned() },
            );
        }
        let descriptor = EventSourcedEntityDescriptor {
            service_name: service_name.to_owned(),
            persistence_id: persistence_id.to_owned(),
            handler_factory,
        };
        self.event_sourced_entities.push(descriptor);
        proof {
            assert(final(self).event_sourced_entities@.drop_last() =~= old(
                self,
            ).event_sourced_entities@);
            if old(self).wf() {
                lemma_first_match_none(old(self).event_sourced_entities@, service_name@, 0);
                assert forall|i: int, j: int|
                    0 <= i < j < self.event_sourced_entities@.len() implies (
                #[trigger] self.event_sourced_entities@[i].service_name@) != (
                #[trigger] self.event_sourced_entities@[j].service_name@) by {
                    if j < self.event_sourced_entities@.len() - 1 {
                        assert(old(self).wf());
                        assert(old(self).event_sourced_entities@[i].service_name@ != old(
                            self,
                        ).event_sourced_entities@[j].service_name@);
                    }
                }
            }
        }
        Ok(())
    }

    /// The index of the descriptor registered under `entity_name`.
    fn lookup_index(&self, entity_name: &str) -> (r: Option<usize>)
        ensures
            match self.spec_lookup(entity_name@) {
                Some(i) => r matches Some(u) && u as int == i && 0 <= i
                    < self.event_sourced_entities@.len()
                    && self.event_sourced_entities@[i].service_name@ == entity_name@,
                None => r is None,
            },
    {
        let n = self.event_sourced_entities.len();
        let mut i: usize = 0;
        while i < n
            invariant
                i <= n,
                n == self.event_sourced_entities@.len(),
                self.spec_lookup(entity_name@) == first_match(
                    self.event_sourced_entities@,
                    entity_name@,
                    i as int,
                ),
            decreases n - i,
        {
            if str_eq_str(self.event_sourced_entities[i].service_name.as_str(), entity_name) {
                return Some(i);
            }
            i = i + 1;
        }
        None
    }

    /// Build a brand-new handler for the entity registered under
    /// `entity_name`, or `None` when no descriptor matches.
    pub fn create(&self, entity_name: &str) -> (r: Option<<F as HandlerFactory>::Handler>)
        ensures
            match self.spec_lookup(entity_name@) {
                None => r is None,
                Some(i) => r matches Some(h) && h@
                    == self.event_sourced_entities@[i].factory().spec_create(),
            },
    {
        let found = self.lookup_index(entity_name);
        match found {
            Some(i) => {
                let d = &self.event_sourced_entities[i];
                let h = d.handler_factory.create_handler();
                Some(h)
            }
            None => None,
        }
    }
}

} // verus!
