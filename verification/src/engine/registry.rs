//! The registry of streams: which actor stands behind which stream.
//!
//! Actors are known by number. What this file states of `DashMap` is taken from the `dashmap`
//! crate and not proved here. A map is changed here only by whoever holds it exclusively, so
//! that what it holds is a property of the map and not of the moment.

use super::connection::{ConnectionState, ConnectionStateView};
use super::namespace::{normalize_namespace, normalized};
use crate::ids::{NodeId, StreamId};
use dashmap::DashMap;
use std::collections::hash_map::RandomState;
use vstd::prelude::*;

verus! {

#[verifier::external_type_specification]
#[verifier::external_body]
#[verifier::reject_recursive_types(K)]
#[verifier::reject_recursive_types(V)]
#[verifier::reject_recursive_types(S)]
pub struct ExDashMap<K, V, S>(DashMap<K, V, S>);

/// The actors in a map, by identifier and namespace.
pub uninterp spec fn entries(m: DashMap<([u8; 16], String), u64, RandomState>) -> Map<
    (Seq<u8>, Seq<char>),
    u64,
>;

/// A map that holds nothing.
pub open spec fn no_entries() -> Map<(Seq<u8>, Seq<char>), u64> {
    Map::empty()
}

/// `DashMap::new`: a map without entries.
#[verifier::external_body]
fn new_map() -> (m: DashMap<([u8; 16], String), u64, RandomState>)
    ensures
        entries(m) == no_entries(),
{
    DashMap::new()
}

/// `DashMap::get`: the value under a key, if there is one. Keys are the same where their bytes
/// and their characters are.
#[verifier::external_body]
fn map_get(
    m: &DashMap<([u8; 16], String), u64, RandomState>,
    key: &([u8; 16], String),
) -> (v: Option<u64>)
    ensures
        v == if entries(*m).contains_key((key.0@, key.1@)) {
            Some(entries(*m)[(key.0@, key.1@)])
        } else {
            None
        },
{
    m.get(key).map(|entry| *entry.value())
}

/// `DashMap::insert`: puts a value under a key, in place of one that was there.
#[verifier::external_body]
fn map_insert(
    m: &mut DashMap<([u8; 16], String), u64, RandomState>,
    key: ([u8; 16], String),
    value: u64,
)
    ensures
        entries(*final(m)) == entries(*old(m)).insert((key.0@, key.1@), value),
{
    m.insert(key, value);
}

/// What a registry knows, as mathematical values.
#[verifier::ext_equal]
pub struct RegistryView {
    /// The actors by identifier and normal form of the namespace.
    pub actors: Map<(Seq<u8>, Seq<char>), u64>,
    /// The number of the next actor.
    pub next: u64,
}

/// The actor of a stream, under whatever spelling of its namespace.
pub open spec fn actor_of(r: RegistryView, id: Seq<u8>, namespace: Seq<char>) -> Option<u64> {
    if r.actors.contains_key((id, normalized(namespace))) {
        Some(r.actors[(id, normalized(namespace))])
    } else {
        None
    }
}

/// The registry once a stream has an actor.
pub open spec fn with_actor(r: RegistryView, id: Seq<u8>, namespace: Seq<char>) -> RegistryView {
    if actor_of(r, id, namespace) is Some {
        r
    } else {
        RegistryView {
            actors: r.actors.insert((id, normalized(namespace)), r.next),
            next: (r.next + 1) as u64,
        }
    }
}

/// Whether every actor was numbered before the next, and no two streams share one.
pub open spec fn is_consistent(r: RegistryView) -> bool {
    &&& forall|k: (Seq<u8>, Seq<char>)| #[trigger]
        r.actors.contains_key(k) ==> r.actors[k] < r.next
    &&& forall|k: (Seq<u8>, Seq<char>), l: (Seq<u8>, Seq<char>)|
        #![trigger r.actors.contains_key(k), r.actors.contains_key(l)]
        r.actors.contains_key(k) && r.actors.contains_key(l) && k != l ==> r.actors[k]
            != r.actors[l]
}

/// What asking for the actor of a stream comes to.
#[derive(Debug)]
pub enum Slot {
    /// There is one.
    Existing { actor: u64 },
    /// One is to be started, for the namespace in normal form.
    New { actor: u64, namespace: String },
}

/// What registering a stream for publishing comes to.
#[derive(Debug)]
pub enum Registration {
    /// The stream has an actor, which takes the objects.
    Reuse { actor: u64 },
    /// An actor is to be started, and the node becomes ready for the stream.
    Create { actor: u64, namespace: String, ready: ConnectionState },
}

/// Whether the answer is the right one for whoever asks for the actor of a stream.
pub open spec fn is_slot(r: RegistryView, id: Seq<u8>, namespace: Seq<char>, slot: Slot) -> bool {
    match actor_of(r, id, namespace) {
        Some(n) => slot == (Slot::Existing { actor: n }),
        None => slot matches Slot::New { actor, namespace: ns } && actor == r.next && ns@
            == normalized(namespace),
    }
}

/// Whether the answer is the right one for a node that registers a stream.
pub open spec fn is_registration(
    r: RegistryView,
    node_id: Seq<u8>,
    id: Seq<u8>,
    namespace: Seq<char>,
    registration: Registration,
) -> bool {
    match actor_of(r, id, namespace) {
        Some(n) => registration == (Registration::Reuse { actor: n }),
        None => {
            &&& registration matches Registration::Create { actor, namespace: ns, ready }
            &&& actor == r.next
            &&& ns@ == normalized(namespace)
            &&& ready@ == (ConnectionStateView::Ready {
                node_id,
                stream_id: id,
                namespace: normalized(namespace),
            })
        },
    }
}

/// Which actor stands behind which stream.
#[derive(Debug)]
pub struct StreamRegistry {
    actors: DashMap<([u8; 16], String), u64, RandomState>,
    next: u64,
}

impl View for StreamRegistry {
    type V = RegistryView;

    closed spec fn view(&self) -> RegistryView {
        RegistryView { actors: entries(self.actors), next: self.next }
    }
}

impl StreamRegistry {
    /// No stream has an actor.
    pub fn new() -> (r: Self)
        ensures
            is_consistent(r@),
            r@ == (RegistryView { actors: no_entries(), next: 0 }),
    {
        StreamRegistry { actors: new_map(), next: 0 }
    }

    /// Whether there is a number left for another actor.
    pub fn has_next(&self) -> (b: bool)
        ensures
            b == (self@.next < u64::MAX),
    {
        self.next < u64::MAX
    }

    /// The actor of a stream, if it has one.
    pub fn find(&self, stream_id: &StreamId, namespace: &str) -> (actor: Option<u64>)
        ensures
            actor == actor_of(self@, stream_id@, namespace@),
    {
        let key = (stream_id.bytes, normalize_namespace(namespace));
        map_get(&self.actors, &key)
    }

    /// The actor of a stream, numbered now if it has none. A subscriber may come before the
    /// publisher.
    pub fn subscribe_to_stream(&mut self, stream_id: &StreamId, namespace: &str) -> (slot: Slot)
        requires
            is_consistent(old(self)@),
            old(self)@.next < u64::MAX,
        ensures
            is_consistent(final(self)@),
            final(self)@ == with_actor(old(self)@, stream_id@, namespace@),
            is_slot(old(self)@, stream_id@, namespace@, slot),
            match actor_of(old(self)@, stream_id@, namespace@) {
                Some(n) => slot == (Slot::Existing { actor: n }),
                None => slot matches Slot::New { actor, namespace: ns } && actor == old(
                    self,
                )@.next && ns@ == normalized(namespace@),
            },
    {
        let ns = normalize_namespace(namespace);
        let key = (stream_id.bytes, ns.clone());
        match map_get(&self.actors, &key) {
            Some(actor) => Slot::Existing { actor },
            None => {
                let actor = self.next;
                map_insert(&mut self.actors, key, actor);
                self.next = actor + 1;
                Slot::New { actor, namespace: ns }
            },
        }
    }

    /// Registers a stream for publishing, as a node does under its own identifier.
    pub fn register_stream(
        &mut self,
        node_id: NodeId,
        stream_id: StreamId,
        namespace: &str,
    ) -> (r: Registration)
        requires
            is_consistent(old(self)@),
            old(self)@.next < u64::MAX,
        ensures
            is_consistent(final(self)@),
            final(self)@ == with_actor(old(self)@, stream_id@, namespace@),
            is_registration(old(self)@, node_id@, stream_id@, namespace@, r),
            match actor_of(old(self)@, stream_id@, namespace@) {
                Some(n) => r == (Registration::Reuse { actor: n }),
                None => {
                    &&& r matches Registration::Create { actor, namespace: ns, ready }
                    &&& actor == old(self)@.next
                    &&& ns@ == normalized(namespace@)
                    &&& ready@ == (ConnectionStateView::Ready {
                        node_id: node_id@,
                        stream_id: stream_id@,
                        namespace: normalized(namespace@),
                    })
                },
            },
    {
        match self.subscribe_to_stream(&stream_id, namespace) {
            Slot::Existing { actor } => Registration::Reuse { actor },
            Slot::New { actor, namespace: ns } => {
                let ready = ConnectionState::Ready { node_id, stream_id, namespace: ns.clone() };
                Registration::Create { actor, namespace: ns, ready }
            },
        }
    }
}

/// Law: once a stream has an actor, every spelling of its namespace finds that actor, and no
/// other stream is affected.
pub proof fn law_registered_is_found(
    r: RegistryView,
    id: Seq<u8>,
    namespace: Seq<char>,
    spelling: Seq<char>,
    other: Seq<u8>,
    elsewhere: Seq<char>,
)
    requires
        normalized(spelling) == normalized(namespace),
        other != id || normalized(elsewhere) != normalized(namespace),
    ensures
        actor_of(with_actor(r, id, namespace), id, spelling) == match actor_of(r, id, namespace) {
            Some(n) => Some(n),
            None => Some(r.next),
        },
        actor_of(with_actor(r, id, namespace), other, elsewhere) == actor_of(r, other, elsewhere),
{
}

/// Law: registering a stream again changes nothing.
pub proof fn law_registering_twice(r: RegistryView, id: Seq<u8>, namespace: Seq<char>)
    ensures
        with_actor(with_actor(r, id, namespace), id, namespace) == with_actor(r, id, namespace),
{
}

/// Law: two spellings of a namespace that differ in doubled slashes, or in one at the start or at
/// the end, find the same actor.
pub proof fn law_spellings_find_the_same(r: RegistryView, id: Seq<u8>, a: Seq<char>, b: Seq<char>)
    ensures
        actor_of(r, id, a + seq!['/', '/'] + b) == actor_of(r, id, a + seq!['/'] + b),
        actor_of(r, id, seq!['/'] + a) == actor_of(r, id, a),
        actor_of(r, id, a.push('/')) == actor_of(r, id, a),
{
    super::namespace::law_double_slashes_do_not_matter(a, b);
    super::namespace::law_outer_slashes_do_not_matter(a);
}

/// Law: an actor is found under the identifier and the normal form of the namespace, and nowhere
/// else.
pub proof fn law_found_under_its_key(r: RegistryView, id: Seq<u8>, namespace: Seq<char>)
    ensures
        actor_of(r, id, namespace) is Some <==> r.actors.contains_key((id, normalized(namespace))),
        actor_of(r, id, namespace) matches Some(n) ==> n == r.actors[(id, normalized(namespace))],
{
}

/// Law: a stream without an actor gets one with a number that no other stream has, numbers go up
/// by one, and a stream with an actor keeps it.
pub proof fn law_new_actors_are_new(
    r: RegistryView,
    id: Seq<u8>,
    namespace: Seq<char>,
    other: Seq<u8>,
    elsewhere: Seq<char>,
)
    requires
        is_consistent(r),
        r.next < u64::MAX,
        other != id || normalized(elsewhere) != normalized(namespace),
    ensures
        ({
            let s = with_actor(r, id, namespace);
            &&& actor_of(s, id, namespace) is Some
            &&& actor_of(r, id, namespace) is Some ==> s == r
            &&& actor_of(r, id, namespace) is None ==> actor_of(s, id, namespace) == Some(r.next)
                && s.next == r.next + 1
            &&& actor_of(s, other, elsewhere) == actor_of(r, other, elsewhere)
            &&& actor_of(s, other, elsewhere) matches Some(n) ==> n != actor_of(
                s,
                id,
                namespace,
            )->0
        }),
{
    let k = (id, normalized(namespace));
    let l = (other, normalized(elsewhere));
    assert(k != l);
    if r.actors.contains_key(l) {
        assert(r.actors[l] < r.next);
        if r.actors.contains_key(k) {
            assert(r.actors[k] != r.actors[l]);
        }
    }
}

/// Law: publishing and subscribing find the same actor. Whoever asks second, under whatever
/// spelling of the namespace, is given the actor that the first was given, and the node becomes
/// ready for a stream only where the stream is new.
pub proof fn law_publisher_and_subscriber_meet(
    r: RegistryView,
    node_id: Seq<u8>,
    id: Seq<u8>,
    namespace: Seq<char>,
    spelling: Seq<char>,
    first: Slot,
    second: Registration,
    other_first: Registration,
    other_second: Slot,
)
    requires
        normalized(spelling) == normalized(namespace),
        is_slot(r, id, namespace, first),
        is_registration(with_actor(r, id, namespace), node_id, id, spelling, second),
        is_registration(r, node_id, id, namespace, other_first),
        is_slot(with_actor(r, id, namespace), id, spelling, other_second),
    ensures
        second is Reuse,
        other_second is Existing,
        second->Reuse_actor == match first {
            Slot::Existing { actor } => actor,
            Slot::New { actor, .. } => actor,
        },
        other_second->Existing_actor == match other_first {
            Registration::Reuse { actor } => actor,
            Registration::Create { actor, .. } => actor,
        },
        other_first is Create <==> actor_of(r, id, namespace) is None,
        other_first matches Registration::Create { ready, namespace: ns, .. } ==> ns@ == normalized(
            namespace,
        ) && ready@ == (ConnectionStateView::Ready {
            node_id,
            stream_id: id,
            namespace: normalized(namespace),
        }),
{
}

} // verus!
