//! The per-connection session state machine.
//!
//! One session binds one transport connection to one entity instance.  It
//! starts `New` holding a shared reference to the registry; a successful
//! `Init` resolves the service name, builds a fresh handler, restores the
//! optional snapshot and moves to `Initialized`.  Every later message needs
//! the `Initialized` state: commands produce exactly one reply each, events
//! are replayed into the entity, and everything arriving too early — or a
//! second `Init` — is dropped without a reply.

use vstd::prelude::*;

use std::sync::Arc;

use crate::codec::Envelope;
use crate::eventsourced::{
    envelope_pairs_view, EntityAction, EntityActionV, EntityResponse, EntityResponseV,
    EventSourcedEntityHandler,
};
use crate::registry::{EntityRegistry, HandlerFactory};

verus! {

/// The snapshot a session may start from.
#[derive(Debug, Clone, PartialEq)]
pub struct EventSourcedSnapshot {
    pub snapshot_sequence: i64,
    pub snapshot: Option<Envelope>,
}

/// The first message of a session.
#[derive(Debug, Clone, PartialEq)]
pub struct EventSourcedInit {
    pub service_name: String,
    pub entity_id: String,
    pub snapshot: Option<EventSourcedSnapshot>,
}

/// A historical event delivered for replay.
#[derive(Debug, Clone, PartialEq)]
pub struct EventSourcedEvent {
    pub payload: Option<Envelope>,
}

/// An inbound command.
#[derive(Debug, Clone, PartialEq)]
pub struct Command {
    pub entity_id: String,
    pub id: i64,
    pub name: String,
    pub payload: Option<Envelope>,
    pub streamed: bool,
}

/// Any inbound protocol message.
#[derive(Debug, Clone, PartialEq)]
pub enum InMessage {
    Init(EventSourcedInit),
    Event(EventSourcedEvent),
    Command(Command),
}

/// A reply action carrying a payload envelope.
#[derive(Debug, Clone, PartialEq)]
pub struct Reply {
    pub payload: Option<Envelope>,
}

/// A failure action carrying the command id and a description.
#[derive(Debug, Clone, PartialEq)]
pub struct Failure {
    pub command_id: i64,
    pub description: String,
}

/// The client action attached to a processed command.
#[derive(Debug, Clone, PartialEq)]
pub enum Action {
    Reply(Reply),
    Failure(Failure),
}

#[derive(Debug, Clone, PartialEq)]
pub struct ClientAction {
    pub action: Option<Action>,
}

/// The one outbound message per processed command.
#[derive(Debug, Clone, PartialEq)]
pub struct EventSourcedReply {
    pub command_id: i64,
    pub client_action: Option<ClientAction>,
    pub events: Vec<Envelope>,
    pub snapshot: Option<EventSourcedSnapshot>,
}

#[derive(Debug, Clone, PartialEq)]
pub enum OutMessage {
    Reply(EventSourcedReply),
}

#[derive(Debug, Clone, PartialEq)]
pub struct EventSourcedStreamOut {
    pub message: Option<OutMessage>,
}

/// An `EmptyReply` is sent as the canonical empty payload, not as a
/// distinct "no body" variant: the protocol expects exactly one
/// payload-bearing reply per command.
pub open spec fn empty_payload_type_url() -> Seq<char> {
    "type.googleapis.com/google.protobuf.Empty"@
}

/// The handler state right after a successful `Init`: the factory's fresh
/// state, with the initial snapshot restored when one was supplied.
pub open spec fn init_handler_state<F: HandlerFactory>(
    f: F,
    snapshot: Option<EventSourcedSnapshot>,
) -> <F::Handler as View>::V {
    let s0 = f.spec_create();
    match snapshot {
        Some(sn) => match sn.snapshot {
            Some(env) => <F::Handler as EventSourcedEntityHandler>::h_snapshot(
                s0,
                env.type_url@,
                env.value@,
            ),
            None => s0,
        },
        None => s0,
    }
}

/// The wire action that reports `av` for command `cmd_id`.
pub open spec fn action_matches(a: Action, cmd_id: i64, av: EntityActionV) -> bool {
    match av {
        EntityActionV::Reply { type_url, bytes } => a matches Action::Reply(rep) && rep.payload
            matches Some(env) && env.type_url@ == type_url && env.value@ == bytes,
        EntityActionV::EmptyReply => a matches Action::Reply(rep) && rep.payload matches Some(env)
            && env.type_url@ == empty_payload_type_url() && env.value@ == Seq::<u8>::empty(),
        EntityActionV::Failure { msg } => a matches Action::Failure(fl) && fl.command_id == cmd_id
            && fl.description@ == msg,
    }
}

pub open spec fn envelopes_match(es: Seq<Envelope>, ev: Seq<(Seq<char>, Seq<u8>)>) -> bool {
    es.len() == ev.len() && forall|k: int|
        0 <= k < es.len() ==> (#[trigger] es[k]).type_url@ == ev[k].0 && es[k].value@ == ev[k].1
}

/// The one reply message a processed command produces: the command id, the
/// client action, the applied events — and no snapshot, which is out of
/// scope.
pub open spec fn reply_matches(out: EventSourcedStreamOut, cmd_id: i64, rv: EntityResponseV) -> bool {
    out.message matches Some(OutMessage::Reply(rep)) && (rep.command_id == cmd_id
        && rep.snapshot is None && envelopes_match(rep.events@, rv.events) && (rep.client_action
        matches Some(ca) && (ca.action matches Some(a) && action_matches(a, cmd_id, rv.action))))
}

/// One session per connection: `New` until a successful `Init`, then
/// `Initialized` with the entity instance it owns exclusively.
pub enum EventSourcedSession<F: HandlerFactory> {
    New(Arc<EntityRegistry<F>>),
    Initialized(F::Handler),
}

impl<F: HandlerFactory> EventSourcedSession<F> {
    pub fn new(registry: Arc<EntityRegistry<F>>) -> (r: EventSourcedSession<F>)
        ensures
            r matches EventSourcedSession::New(rg) && rg == registry,
    {
        EventSourcedSession::New(registry)
    }

    /// Process one inbound message, producing at most one reply.
    ///
    /// Before `Init`: commands and events are dropped without a reply and
    /// no entity is created.  `Init` resolves the service name — an unknown
    /// one leaves the session untouched, with no client-visible signal —
    /// and a second `Init` is ignored.  Once initialized, a command without
    /// a payload is dropped, and any other command produces exactly one
    /// reply.
    pub fn handle_known_msg(&mut self, known_msg: InMessage) -> (r: Option<EventSourcedStreamOut>)
        ensures
            (*old(self)) is New && !(known_msg is Init) ==> *final(self) == *old(self) && r
                is None,
            (*old(self)) matches EventSourcedSession::New(reg) ==> known_msg matches
                InMessage::Init(init) ==> ({
                &&& r is None
                &&& match (*reg).spec_lookup(init.service_name@) {
                    None => *final(self) == *old(self),
                    Some(i) => (*final(self)) matches EventSourcedSession::Initialized(h) && h@
                        == init_handler_state(
                        (*reg).event_sourced_entities@[i].factory(),
                        init.snapshot,
                    ),
                }
            }),
            (*old(self)) is Initialized && known_msg is Init ==> *final(self) == *old(self)
                && r is None,
            (*old(self)) matches EventSourcedSession::Initialized(h) ==> known_msg matches
                InMessage::Event(evt) ==> ({
                &&& r is None
                &&& match evt.payload {
                    Some(env) => (*final(self)) matches EventSourcedSession::Initialized(h2) && h2@
                        == <F::Handler as EventSourcedEntityHandler>::h_event(
                        h@,
                        env.type_url@,
                        env.value@,
                    ),
                    None => *final(self) == *old(self),
                }
            }),
            (*old(self)) matches EventSourcedSession::Initialized(h) ==> known_msg matches
                InMessage::Command(cmd) ==> ({
                match cmd.payload {
                    None => *final(self) == *old(self) && r is None,
                    Some(env) => {
                        let hc = <F::Handler as EventSourcedEntityHandler>::h_command(
                            h@,
                            env.type_url@,
                            env.value@,
                        );
                        &&& (*final(self)) matches EventSourcedSession::Initialized(h2) && h2@ == hc.0
                        &&& r matches Some(out) && reply_matches(out, cmd.id, hc.1)
                    },
                }
            }),
    {
        match known_msg {
            InMessage::Init(init) => {
                match &*self {
                    EventSourcedSession::New(entity_registry) => {
                        match entity_registry.create(init.service_name.as_str()) {
                            Some(mut entity) => {
                                match init.snapshot {
                                    Some(snapshot) => {
                                        match snapshot.snapshot {
                                            Some(snapshot_any) => {
                                                entity.snapshot_received(
                                                    snapshot_any.type_url.as_str(),
                                                    snapshot_any.value.as_slice(),
                                                );
                                            }
                                            None => (),
                                        }
                                    }
                                    None => (),
                                }
                                *self = EventSourcedSession::Initialized(entity);
                            }
                            None => (),
                        }
                    }
                    EventSourcedSession::Initialized(_) => (),
                }
                None
            }
            InMessage::Event(evt) => {
                match &mut *self {
                    EventSourcedSession::Initialized(entity) => {
                        match evt.payload {
                            Some(event_any) => {
                                entity.event_received(
                                    event_any.type_url.as_str(),
                                    event_any.value.as_slice(),
                                );
                            }
                            None => (),
                        }
                    }
                    EventSourcedSession::New(_) => (),
                }
                None
            }
            InMessage::Command(cmd) => {
                match &mut *self {
                    EventSourcedSession::Initialized(entity) => {
                        match cmd.payload {
                            Some(payload_any) => {
                                let entity_resp: EntityResponse = entity.command_received(
                                    payload_any.type_url.as_str(),
                                    payload_any.value.as_slice(),
                                );
                                let ghost respv = entity_resp@;
                                let EntityResponse { action, events: raw_events } = entity_resp;
                                let client_action = match action {
                                    EntityAction::Reply { type_url, bytes } => ClientAction {
                                        action: Some(
                                            Action::Reply(
                                                Reply {
                                                    payload: Some(
                                                        Envelope { type_url, value: bytes },
                                                    ),
                                                },
                                            ),
                                        ),
                                    },
                                    EntityAction::EmptyReply => ClientAction {
                                        action: Some(
                                            Action::Reply(
                                                Reply {
                                                    payload: Some(
                                                        Envelope {
                                                            type_url:
                                                                "type.googleapis.com/google.protobuf.Empty".to_owned(),
                                                            value: Vec::new(),
                                                        },
                                                    ),
                                                },
                                            ),
                                        ),
                                    },
                                    EntityAction::Failure { msg } => ClientAction {
                                        action: Some(
                                            Action::Failure(
                                                Failure { command_id: cmd.id, description: msg },
                                            ),
                                        ),
                                    },
                                };
                                let ghost pairs = envelope_pairs_view(raw_events@);
                                let mut remaining = raw_events;
                                let mut events: Vec<Envelope> = Vec::new();
                                proof {
                                    assert(pairs.take(0) =~= Seq::<(Seq<char>, Seq<u8>)>::empty());
                                    assert(envelope_pairs_view(remaining@) =~= pairs.skip(0));
                                }
                                while remaining.len() > 0
                                    invariant
                                        events@.len() + remaining@.len() == pairs.len(),
                                        envelopes_match(events@, pairs.take(events@.len() as int)),
                                        envelope_pairs_view(remaining@) == pairs.skip(
                                            events@.len() as int,
                                        ),
                                    decreases remaining@.len(),
                                {
                                    let ghost k = events@.len() as int;
                                    let ghost rem0 = remaining@;
                                    let p = remaining.remove(0);
                                    proof {
                                        assert(envelope_pairs_view(rem0)[0] == pairs.skip(k)[0]);
                                        assert(pairs.skip(k)[0] == pairs[k]);
                                    }
                                    events.push(Envelope { type_url: p.0, value: p.1 });
                                    proof {
                                        assert forall|j: int| 0 <= j < events@.len() implies (
                                        #[trigger] events@[j]).type_url@ == pairs.take(k + 1)[j].0
                                            && events@[j].value@ == pairs.take(k + 1)[j].1 by {
                                            if j < k {
                                                assert(events@[j].type_url@ == pairs.take(k)[j].0);
                                                assert(events@[j].value@ == pairs.take(k)[j].1);
                                            }
                                        }
                                        assert(envelope_pairs_view(remaining@) =~= pairs.skip(
                                            k + 1,
                                        )) by {
                                            assert forall|j: int|
                                                0 <= j < remaining@.len() implies (
                                            #[trigger] envelope_pairs_view(remaining@)[j])
                                                == pairs.skip(k + 1)[j] by {
                                                assert(remaining@[j] == rem0.remove(0)[j]);
                                                assert(rem0.remove(0)[j] == rem0[j + 1]);
                                                assert(envelope_pairs_view(rem0)[j + 1]
                                                    == pairs.skip(k)[j + 1]);
                                            }
                                        }
                                    }
                                }
                                proof {
                                    assert(pairs.take(pairs.len() as int) =~= pairs);
                                }
                                let reply = EventSourcedReply {
                                    command_id: cmd.id,
                                    client_action: Some(client_action),
                                    events,
                                    snapshot: None,
                                };
                                Some(
                                    EventSourcedStreamOut {
                                        message: Some(OutMessage::Reply(reply)),
                                    },
                                )
                            }
                            None => None,
                        }
                    }
                    EventSourcedSession::New(_) => None,
                }
            }
        }
    }
}

} // verus!
