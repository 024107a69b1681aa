//! The entity handler contract.
//!
//! User logic implements the typed [`EventSourcedEntity`] trait: pure
//! command decisions that emit events into a [`CommandContext`], and
//! deterministic state mutation in `handle_event`.  The session driver holds
//! an entity through the untyped [`EventSourcedEntityHandler`] interface,
//! which a blanket impl derives from the typed one: it decodes the envelope,
//! runs the typed operation, applies and encodes the emitted events, and
//! maps the outcome to an [`EntityAction`].

use vstd::prelude::*;

use crate::codec::AnyMessage;

verus! {

/// Accumulates the events emitted during one command evaluation.
pub trait CommandContext<T: AnyMessage> {
    /// The views of the events emitted so far, in emission order.
    spec fn emitted(&self) -> Seq<T::V>;

    fn emit_event(&mut self, event: T)
        ensures
            final(self).emitted() == old(self).emitted().push(event@),
    ;
}

/// The one context the driver hands to `handle_command`: an append-only,
/// insertion-ordered event list.  `snapshot_every` is carried along but not
/// yet acted upon.
pub struct CommandContextData<T> {
    pub events: Vec<T>,
    pub snapshot_every: Option<u32>,
}

impl<T: AnyMessage> CommandContext<T> for CommandContextData<T> {
    open spec fn emitted(&self) -> Seq<T::V> {
        Seq::new(self.events@.len(), |i: int| self.events@[i]@)
    }

    fn emit_event(&mut self, event: T)
        ensures
            final(self).events@ == old(self).events@.push(event),
            final(self).snapshot_every == old(self).snapshot_every,
    {
        self.events.push(event);
        proof {
            assert(self.emitted() =~= old(self).emitted().push(event@));
        }
    }
}

/// What a command evaluation asks the driver to send back.
#[derive(Debug)]
pub enum Response<T: AnyMessage> {
    Reply(T),
    EmptyReply,
}

/// The view of a [`Response`].
pub enum ResponseV<RV> {
    Reply(RV),
    EmptyReply,
}

impl<T: AnyMessage> View for Response<T> {
    type V = ResponseV<T::V>;

    open spec fn view(&self) -> ResponseV<T::V> {
        match self {
            Response::Reply(r) => ResponseV::Reply(r@),
            Response::EmptyReply => ResponseV::EmptyReply,
        }
    }
}

/// The wire-level action a processed command produces.
#[derive(Debug, Clone, PartialEq)]
pub enum EntityAction {
    Reply { type_url: String, bytes: Vec<u8> },
    EmptyReply,
    Failure { msg: String },
}

/// The view of an [`EntityAction`].
pub enum EntityActionV {
    Reply { type_url: Seq<char>, bytes: Seq<u8> },
    EmptyReply,
    Failure { msg: Seq<char> },
}

impl View for EntityAction {
    type V = EntityActionV;

    open spec fn view(&self) -> EntityActionV {
        match self {
            EntityAction::Reply { type_url, bytes } => EntityActionV::Reply {
                type_url: type_url@,
                bytes: bytes@,
            },
            EntityAction::EmptyReply => EntityActionV::EmptyReply,
            EntityAction::Failure { msg } => EntityActionV::Failure { msg: msg@ },
        }
    }
}

/// The views of a list of `(type_url, bytes)` envelopes.
pub open spec fn envelope_pairs_view(v: Seq<(String, Vec<u8>)>) -> Seq<(Seq<char>, Seq<u8>)> {
    Seq::new(v.len(), |i: int| (v[i].0@, v[i].1@))
}

/// The outcome of one processed command: the action, and the emitted events
/// already applied to the entity, encoded for reporting.
#[derive(Debug, Clone, PartialEq)]
pub struct EntityResponse {
    pub action: EntityAction,
    pub events: Vec<(String, Vec<u8>)>,
}

/// The view of an [`EntityResponse`].
pub struct EntityResponseV {
    pub action: EntityActionV,
    pub events: Seq<(Seq<char>, Seq<u8>)>,
}

impl View for EntityResponse {
    type V = EntityResponseV;

    open spec fn view(&self) -> EntityResponseV {
        EntityResponseV { action: self.action@, events: envelope_pairs_view(self.events@) }
    }
}

pub open spec fn command_decode_failure_msg() -> Seq<char> {
    "Server error: couldn't decode the command"@
}

pub open spec fn response_encode_failure_msg() -> Seq<char> {
    "Server error: couldn't encode the response"@
}

/// The typed entity contract, implemented by user logic.
///
/// An entity commits to one closed variant set for each of its command,
/// event, snapshot and response categories.  Command evaluation must not
/// mutate state: all mutation flows through `handle_event`, once per emitted
/// event, in emission order — the same path that replays historical events.
pub trait EventSourcedEntity: View + Sized {
    type Command: AnyMessage;

    type Event: AnyMessage;

    type Snapshot: AnyMessage;

    type Response: AnyMessage;

    /// How many events may pass before the proxy is asked for a snapshot;
    /// read by the driver but not yet acted upon.
    spec fn spec_snapshot_every(&self) -> Option<u32>;

    fn snapshot_every(&self) -> (r: Option<u32>)
        ensures
            r == self.spec_snapshot_every(),
    ;

    /// What restoring from a snapshot does to the state.
    spec fn spec_handle_snapshot(s: Self::V, snapshot: <Self::Snapshot as View>::V) -> Self::V;

    fn handle_snapshot(&mut self, snapshot: Self::Snapshot)
        ensures
            final(self)@ == Self::spec_handle_snapshot(old(self)@, snapshot@),
    ;

    /// The decision a command produces: either a response together with the
    /// events to emit, in order, or an error message.
    spec fn spec_handle_command(s: Self::V, command: <Self::Command as View>::V) -> Result<
        (ResponseV<<Self::Response as View>::V>, Seq<<Self::Event as View>::V>),
        Seq<char>,
    >;

    fn handle_command<C: CommandContext<Self::Event>>(
        &self,
        command: Self::Command,
        context: &mut C,
    ) -> (r: Result<Response<Self::Response>, String>)
        ensures
            match r {
                Ok(resp) => Self::spec_handle_command(self@, command@) matches Ok(p) && p.0
                    == resp@ && final(context).emitted() == old(context).emitted() + p.1,
                Err(m) => Self::spec_handle_command(self@, command@) matches Err(em) && em == m@,
            },
    ;

    /// What applying one event does to the state.
    spec fn spec_handle_event(s: Self::V, event: <Self::Event as View>::V) -> Self::V;

    fn handle_event(&mut self, event: Self::Event)
        ensures
            final(self)@ == Self::spec_handle_event(old(self)@, event@),
    ;
}

/// The envelopes of the events a command emitted: each event encoded in
/// order; one whose encoding fails is dropped.
pub open spec fn encode_event_list<E: AnyMessage>(evs: Seq<E::V>) -> Seq<(Seq<char>, Seq<u8>)>
    decreases evs.len(),
{
    if evs.len() == 0 {
        Seq::empty()
    } else {
        match E::spec_encode(evs[0]) {
            Some(ub) => seq![ub] + encode_event_list::<E>(evs.drop_first()),
            None => encode_event_list::<E>(evs.drop_first()),
        }
    }
}

pub proof fn lemma_encode_event_list_push<E: AnyMessage>(evs: Seq<E::V>, e: E::V)
    ensures
        encode_event_list::<E>(evs.push(e)) == encode_event_list::<E>(evs) + (match E::spec_encode(
            e,
        ) {
            Some(ub) => seq![ub],
            None => Seq::empty(),
        }),
    decreases evs.len(),
{
    if evs.len() == 0 {
        assert(evs.push(e)[0] == e);
        assert(evs.push(e).drop_first() =~= Seq::<E::V>::empty());
        assert(encode_event_list::<E>(Seq::<E::V>::empty()) == Seq::<(Seq<char>, Seq<u8>)>::empty());
        assert(evs =~= Seq::<E::V>::empty());
        match E::spec_encode(e) {
            Some(ub) => {
                assert(encode_event_list::<E>(evs.push(e)) =~= seq![ub]);
                assert(encode_event_list::<E>(evs) + seq![ub] =~= seq![ub]);
            }
            None => {
                assert(encode_event_list::<E>(evs.push(e)) =~= Seq::<(Seq<char>, Seq<u8>)>::empty());
                assert(encode_event_list::<E>(evs) + Seq::<(Seq<char>, Seq<u8>)>::empty()
                    =~= Seq::<(Seq<char>, Seq<u8>)>::empty());
            }
        }
    } else {
        assert(evs.push(e)[0] == evs[0]);
        assert(evs.push(e).drop_first() =~= evs.drop_first().push(e));
        lemma_encode_event_list_push::<E>(evs.drop_first(), e);
        match E::spec_encode(evs[0]) {
            Some(ub) => {
                assert(seq![ub] + encode_event_list::<E>(evs.drop_first().push(e)) =~= (seq![ub]
                    + encode_event_list::<E>(evs.drop_first())) + (match E::spec_encode(e) {
                    Some(ub2) => seq![ub2],
                    None => Seq::<(Seq<char>, Seq<u8>)>::empty(),
                }));
            }
            None => {}
        }
    }
}

/// One standalone event delivery: decode, apply on success, drop on failure.
pub open spec fn receive_event<T: EventSourcedEntity>(
    s: T::V,
    type_url: Seq<char>,
    bytes: Seq<u8>,
) -> T::V {
    match <T::Event as AnyMessage>::spec_decode(type_url, bytes) {
        None => s,
        Some(e) => T::spec_handle_event(s, e),
    }
}

/// Deliver a list of encoded events in order.
pub open spec fn apply_encoded_events<T: EventSourcedEntity>(
    s: T::V,
    encoded: Seq<(Seq<char>, Seq<u8>)>,
) -> T::V
    decreases encoded.len(),
{
    if encoded.len() == 0 {
        s
    } else {
        apply_encoded_events::<T>(
            receive_event::<T>(s, encoded[0].0, encoded[0].1),
            encoded.drop_first(),
        )
    }
}

pub proof fn lemma_apply_encoded_events_push<T: EventSourcedEntity>(
    s: T::V,
    encoded: Seq<(Seq<char>, Seq<u8>)>,
    e: (Seq<char>, Seq<u8>),
)
    ensures
        apply_encoded_events::<T>(s, encoded.push(e)) == receive_event::<T>(
            apply_encoded_events::<T>(s, encoded),
            e.0,
            e.1,
        ),
    decreases encoded.len(),
{
    if encoded.len() == 0 {
        assert(encoded.push(e)[0] == e);
        assert(encoded.push(e).drop_first() =~= Seq::<(Seq<char>, Seq<u8>)>::empty());
        assert(apply_encoded_events::<T>(
            receive_event::<T>(s, e.0, e.1),
            Seq::<(Seq<char>, Seq<u8>)>::empty(),
        ) == receive_event::<T>(s, e.0, e.1));
        assert(encoded =~= Seq::<(Seq<char>, Seq<u8>)>::empty());
    } else {
        assert(encoded.push(e)[0] == encoded[0]);
        assert(encoded.push(e).drop_first() =~= encoded.drop_first().push(e));
        lemma_apply_encoded_events_push::<T>(
            receive_event::<T>(s, encoded[0].0, encoded[0].1),
            encoded.drop_first(),
            e,
        );
    }
}

/// The untyped handler interface the session driver works through.
pub trait EventSourcedEntityHandler: View + Sized {
    /// What delivering a snapshot envelope does to the state.
    spec fn h_snapshot(s: Self::V, type_url: Seq<char>, bytes: Seq<u8>) -> Self::V;

    /// What processing a command envelope does: the next state and the
    /// response to report.
    spec fn h_command(s: Self::V, type_url: Seq<char>, bytes: Seq<u8>) -> (Self::V, EntityResponseV);

    /// What delivering a standalone event envelope does to the state.
    spec fn h_event(s: Self::V, type_url: Seq<char>, bytes: Seq<u8>) -> Self::V;

    fn snapshot_received(&mut self, type_url: &str, bytes: &[u8])
        ensures
            final(self)@ == Self::h_snapshot(old(self)@, type_url@, bytes@),
    ;

    fn command_received(&mut self, type_url: &str, bytes: &[u8]) -> (r: EntityResponse)
        ensures
            final(self)@ == Self::h_command(old(self)@, type_url@, bytes@).0,
            r@ == Self::h_command(old(self)@, type_url@, bytes@).1,
    ;

    fn event_received(&mut self, type_url: &str, bytes: &[u8])
        ensures
            final(self)@ == Self::h_event(old(self)@, type_url@, bytes@),
    ;
}

impl<T: EventSourcedEntity> EventSourcedEntityHandler for T {
    open spec fn h_snapshot(s: Self::V, type_url: Seq<char>, bytes: Seq<u8>) -> Self::V {
        match <T::Snapshot as AnyMessage>::spec_decode(type_url, bytes) {
            None => s,
            Some(sn) => T::spec_handle_snapshot(s, sn),
        }
    }

    open spec fn h_command(s: Self::V, type_url: Seq<char>, bytes: Seq<u8>) -> (
        Self::V,
        EntityResponseV,
    ) {
        match <T::Command as AnyMessage>::spec_decode(type_url, bytes) {
            None => (
                s,
                EntityResponseV {
                    action: EntityActionV::Failure { msg: command_decode_failure_msg() },
                    events: Seq::empty(),
                },
            ),
            Some(c) => match T::spec_handle_command(s, c) {
                Err(m) => (
                    s,
                    EntityResponseV {
                        action: EntityActionV::Failure { msg: m },
                        events: Seq::empty(),
                    },
                ),
                Ok((resp, evs)) => {
                    let encoded = encode_event_list::<T::Event>(evs);
                    let s2 = apply_encoded_events::<T>(s, encoded);
                    let action = match resp {
                        ResponseV::Reply(rv) => match <T::Response as AnyMessage>::spec_encode(rv) {
                            Some((u, b)) => EntityActionV::Reply { type_url: u, bytes: b },
                            None => EntityActionV::Failure { msg: response_encode_failure_msg() },
                        },
                        ResponseV::EmptyReply => EntityActionV::EmptyReply,
                    };
                    (s2, EntityResponseV { action, events: encoded })
                }
            },
        }
    }

    open spec fn h_event(s: Self::V, type_url: Seq<char>, bytes: Seq<u8>) -> Self::V {
        receive_event::<T>(s, type_url, bytes)
    }

    fn snapshot_received(&mut self, type_url: &str, bytes: &[u8]) {
        match <T::Snapshot as AnyMessage>::decode(type_url, bytes) {
            Some(sn) => self.handle_snapshot(sn),
            None => (),
        }
    }

    fn command_received(&mut self, type_url: &str, bytes: &[u8]) -> (r: EntityResponse) {
        let ghost s0 = self@;
        match <T::Command as AnyMessage>::decode(type_url, bytes) {
            None => {
                let r = EntityResponse {
                    action: EntityAction::Failure {
                        msg: "Server error: couldn't decode the command".to_owned(),
                    },
                    events: Vec::new(),
                };
                proof {
                    assert(r@.events =~= Seq::<(Seq<char>, Seq<u8>)>::empty());
                }
                r
            }
            Some(cmd) => {
                let mut context = CommandContextData::<T::Event> {
                    events: Vec::new(),
                    snapshot_every: self.snapshot_every(),
                };
                proof {
                    assert(context.emitted() =~= Seq::<<T::Event as View>::V>::empty());
                }
                let result = self.handle_command(cmd, &mut context);

                let ghost spec_outcome = T::spec_handle_command(s0, cmd@);
                let is_ok = match &result {
                    Ok(_) => true,
                    Err(_) => false,
                };

                let mut encoded: Vec<(String, Vec<u8>)> = Vec::new();
                if is_ok {
                    let ghost evs = spec_outcome->Ok_0.1;
                    proof {
                        assert(context.emitted() =~= Seq::<<T::Event as View>::V>::empty() + evs);
                        assert(context.emitted() == evs);
                        assert(evs.take(0) =~= Seq::<<T::Event as View>::V>::empty());
                        assert(envelope_pairs_view(encoded@) =~= encode_event_list::<T::Event>(
                            evs.take(0),
                        ));
                    }
                    let n = context.events.len();
                    let mut i: usize = 0;
                    while i < n
                        invariant
                            i <= n,
                            n == context.events@.len(),
                            evs == Seq::new(
                                context.events@.len(),
                                |k: int| context.events@[k]@,
                            ),
                            envelope_pairs_view(encoded@) == encode_event_list::<T::Event>(
                                evs.take(i as int),
                            ),
                        decreases n - i,
                    {
                        let ghost before = envelope_pairs_view(encoded@);
                        match context.events[i].encode() {
                            Some((u, b)) => {
                                let ghost uv = u@;
                                let ghost bv = b@;
                                encoded.push((u, b));
                                proof {
                                    assert(envelope_pairs_view(encoded@) =~= before.push((uv, bv)));
                                }
                            }
                            None => (),
                        }
                        proof {
                            assert(evs.take(i + 1) =~= evs.take(i as int).push(evs[i as int]));
                            lemma_encode_event_list_push::<T::Event>(
                                evs.take(i as int),
                                evs[i as int],
                            );
                            assert(evs[i as int] == context.events@[i as int]@);
                            match <T::Event as AnyMessage>::spec_encode(evs[i as int]) {
                                Some(ub) => {
                                    assert(envelope_pairs_view(encoded@) =~= encode_event_list::<
                                        T::Event,
                                    >(evs.take(i as int)) + seq![ub]);
                                }
                                None => {
                                    assert(envelope_pairs_view(encoded@) =~= encode_event_list::<
                                        T::Event,
                                    >(evs.take(i as int)));
                                }
                            }
                        }
                        i = i + 1;
                    }
                    proof {
                        assert(evs.take(n as int) =~= evs);
                    }
                }

                let ghost pairs = envelope_pairs_view(encoded@);
                proof {
                    assert(pairs.take(0) =~= Seq::<(Seq<char>, Seq<u8>)>::empty());
                }
                let m = encoded.len();
                let mut i: usize = 0;
                while i < m
                    invariant
                        i <= m,
                        m == encoded@.len(),
                        pairs == envelope_pairs_view(encoded@),
                        self@ == apply_encoded_events::<T>(s0, pairs.take(i as int)),
                    decreases m - i,
                {
                    let pair = &encoded[i];
                    self.event_received(pair.0.as_str(), pair.1.as_slice());
                    proof {
                        assert(pairs.take(i + 1) =~= pairs.take(i as int).push(pairs[i as int]));
                        lemma_apply_encoded_events_push::<T>(s0, pairs.take(i as int), pairs[i as int]);
                    }
                    i = i + 1;
                }
                proof {
                    assert(pairs.take(m as int) =~= pairs);
                }

                let action = match result {
                    Ok(Response::Reply(resp)) => match resp.encode() {
                        Some((u, b)) => EntityAction::Reply { type_url: u, bytes: b },
                        None => EntityAction::Failure {
                            msg: "Server error: couldn't encode the response".to_owned(),
                        },
                    },
                    Ok(Response::EmptyReply) => EntityAction::EmptyReply,
                    Err(msg) => EntityAction::Failure { msg },
                };
                let r = EntityResponse { action, events: encoded };
                proof {
                    if !is_ok {
                        assert(r@.events =~= Seq::<(Seq<char>, Seq<u8>)>::empty());
                    }
                }
                r
            }
        }
    }

    fn event_received(&mut self, type_url: &str, bytes: &[u8]) {
        match <T::Event as AnyMessage>::decode(type_url, bytes) {
            Some(e) => self.handle_event(e),
            None => (),
        }
    }
}

/// Standalone replay of a list of event envelopes, one `Event` message at a
/// time.
pub open spec fn replay_events<H: EventSourcedEntityHandler>(
    s: H::V,
    envs: Seq<(Seq<char>, Seq<u8>)>,
) -> H::V
    decreases envs.len(),
{
    if envs.len() == 0 {
        s
    } else {
        replay_events::<H>(H::h_event(s, envs[0].0, envs[0].1), envs.drop_first())
    }
}

proof fn lemma_apply_is_replay<T: EventSourcedEntity>(s: T::V, envs: Seq<(Seq<char>, Seq<u8>)>)
    ensures
        apply_encoded_events::<T>(s, envs) == replay_events::<T>(s, envs),
    decreases envs.len(),
{
    if envs.len() > 0 {
        lemma_apply_is_replay::<T>(receive_event::<T>(s, envs[0].0, envs[0].1), envs.drop_first());
    }
}

/// Replay determinism: the entity state a processed command leaves behind is
/// exactly the state that standalone replay of the reply's event envelopes
/// reaches from the pre-command state, whichever way the outcome went.
pub proof fn lemma_replay_determinism<T: EventSourcedEntity>(
    s: T::V,
    type_url: Seq<char>,
    bytes: Seq<u8>,
)
    ensures
        ({
            let (s2, r) = <T as EventSourcedEntityHandler>::h_command(s, type_url, bytes);
            s2 == replay_events::<T>(s, r.events)
        }),
{
    let (s2, r) = <T as EventSourcedEntityHandler>::h_command(s, type_url, bytes);
    match <T::Command as AnyMessage>::spec_decode(type_url, bytes) {
        None => {
            assert(replay_events::<T>(s, Seq::<(Seq<char>, Seq<u8>)>::empty()) == s);
        }
        Some(c) => match T::spec_handle_command(s, c) {
            Err(_) => {
                assert(replay_events::<T>(s, Seq::<(Seq<char>, Seq<u8>)>::empty()) == s);
            }
            Ok((resp, evs)) => {
                lemma_apply_is_replay::<T>(s, encode_event_list::<T::Event>(evs));
            }
        },
    }
}

/// Atomic failure: when the typed decision logic rejects a command, the
/// processed command leaves the entity state unchanged and reports a
/// failure carrying the rejection message, with no events attached —
/// whatever the command emitted before failing.
pub proof fn lemma_failed_command_atomic<T: EventSourcedEntity>(
    s: T::V,
    type_url: Seq<char>,
    bytes: Seq<u8>,
)
    requires
        <T::Command as AnyMessage>::spec_decode(type_url, bytes) matches Some(c)
            && T::spec_handle_command(s, c) is Err,
    ensures
        ({
            let (s2, r) = <T as EventSourcedEntityHandler>::h_command(s, type_url, bytes);
            let c = <T::Command as AnyMessage>::spec_decode(type_url, bytes)->Some_0;
            &&& s2 == s
            &&& r.events == Seq::<(Seq<char>, Seq<u8>)>::empty()
            &&& T::spec_handle_command(s, c) matches Err(m) && r.action == (
            EntityActionV::Failure { msg: m })
        }),
{
}

} // verus!
