//! The actor behind one stream: who receives what.
//!
//! The actor decides; whoever drives it owns the data streams and sends. It keeps the last
//! objects for subscribers that come late or ask again, and the initialization segment for
//! every new data stream.

use crate::ids::{NodeId, StreamId};
use crate::proto::{views, MoqObject, ObjectView, MEDIA_TYPE_INIT};
use std::collections::VecDeque;
use vstd::prelude::*;

verus! {

/// Most objects that an actor keeps.
pub const SLIDING_WINDOW_SIZE: usize = 100;

/// What is known of a subscriber.
#[verifier::ext_equal]
pub struct SubscriberView {
    /// The group that it asked for, or 0 for all.
    pub group_id: u32,
    /// Whether it has a data stream.
    pub has_stream: bool,
}

/// What an actor knows, as mathematical values.
#[verifier::ext_equal]
pub struct ActorView {
    pub stream_id: Seq<u8>,
    pub namespace: Seq<char>,
    /// The subscribers by node.
    pub subscribers: Map<Seq<u8>, SubscriberView>,
    /// The last objects, oldest first.
    pub buffer: Seq<ObjectView>,
    /// The last initialization segment.
    pub init: Option<ObjectView>,
}

/// Whether an object of group `group` is for a subscriber that asked for `wanted`.
pub open spec fn wants(wanted: u32, group: u32) -> bool {
    wanted == 0 || wanted == group
}

/// The last objects once `o` has been published.
pub open spec fn slide(buffer: Seq<ObjectView>, o: ObjectView) -> Seq<ObjectView> {
    let longer = buffer.push(o);
    if longer.len() > SLIDING_WINDOW_SIZE {
        longer.skip(1)
    } else {
        longer
    }
}

/// The actor once `o` has been published.
pub open spec fn after_publish(a: ActorView, o: ObjectView) -> ActorView {
    ActorView {
        buffer: slide(a.buffer, o),
        init: if o.group_id == MEDIA_TYPE_INIT {
            Some(o)
        } else {
            a.init
        },
        ..a
    }
}

/// The objects that a subscriber wants, in order.
pub open spec fn wanted_of(objects: Seq<ObjectView>, wanted: u32) -> Seq<ObjectView>
    decreases objects.len(),
{
    if objects.len() == 0 {
        Seq::empty()
    } else if wants(wanted, objects.last().group_id) {
        wanted_of(objects.drop_last(), wanted).push(objects.last())
    } else {
        wanted_of(objects.drop_last(), wanted)
    }
}

/// The first object with the sequence number.
pub open spec fn first_with(objects: Seq<ObjectView>, sequence: u64) -> Option<ObjectView>
    decreases objects.len(),
{
    if objects.len() == 0 {
        None
    } else if objects[0].sequence == sequence {
        Some(objects[0])
    } else {
        first_with(objects.skip(1), sequence)
    }
}

struct Subscriber {
    node_id: NodeId,
    group_id: u32,
    has_stream: bool,
}

impl Subscriber {
    spec fn what(&self) -> SubscriberView {
        SubscriberView { group_id: self.group_id, has_stream: self.has_stream }
    }
}

spec fn is_at(list: Seq<Subscriber>, node: Seq<u8>, i: int) -> bool {
    0 <= i < list.len() && list[i].node_id@ == node
}

spec fn is_listed(list: Seq<Subscriber>, node: Seq<u8>) -> bool {
    exists|i: int| is_at(list, node, i)
}

spec fn distinct(list: Seq<Subscriber>) -> bool {
    forall|i: int, j: int|
        #![trigger list[i], list[j]]
        0 <= i < j < list.len() ==> list[i].node_id@ != list[j].node_id@
}

spec fn table(list: Seq<Subscriber>) -> Map<Seq<u8>, SubscriberView> {
    Map::new(
        |node: Seq<u8>| is_listed(list, node),
        |node: Seq<u8>| list[choose|i: int| is_at(list, node, i)].what(),
    )
}

proof fn lemma_table_at(list: Seq<Subscriber>, i: int)
    requires
        distinct(list),
        0 <= i < list.len(),
    ensures
        table(list).contains_key(list[i].node_id@),
        table(list)[list[i].node_id@] == list[i].what(),
{
    let node = list[i].node_id@;
    assert(is_at(list, node, i));
    let j = choose|j: int| is_at(list, node, j);
    assert(is_at(list, node, j));
    assert(i == j || i < j || j < i);
}

proof fn lemma_table_push(list: Seq<Subscriber>, s: Subscriber)
    requires
        distinct(list),
        !is_listed(list, s.node_id@),
    ensures
        distinct(list.push(s)),
        table(list.push(s)) == table(list).insert(s.node_id@, s.what()),
{
    let longer = list.push(s);
    assert forall|i: int, j: int|
        #![trigger longer[i], longer[j]]
        0 <= i < j < longer.len() implies longer[i].node_id@ != longer[j].node_id@ by {
        if j == list.len() {
            assert(!is_at(list, s.node_id@, i));
        }
    }
    let t = table(list).insert(s.node_id@, s.what());
    assert forall|node: Seq<u8>| table(longer).contains_key(node) <==> t.contains_key(node) by {
        if is_listed(longer, node) {
            let i = choose|i: int| is_at(longer, node, i);
            if i < list.len() {
                assert(is_at(list, node, i));
            }
        }
        if is_listed(list, node) {
            let i = choose|i: int| is_at(list, node, i);
            assert(is_at(longer, node, i));
        }
        if node == s.node_id@ {
            assert(is_at(longer, node, list.len() as int));
        }
    }
    assert forall|node: Seq<u8>| #[trigger]
        table(longer).contains_key(node) implies table(longer)[node] == t[node] by {
        let i = choose|i: int| is_at(longer, node, i);
        lemma_table_at(longer, i);
        if i < list.len() {
            lemma_table_at(list, i);
            assert(!is_at(list, s.node_id@, i));
        }
    }
    assert(table(longer) =~= t);
}

proof fn lemma_table_update(list: Seq<Subscriber>, i: int, s: Subscriber)
    requires
        distinct(list),
        0 <= i < list.len(),
        s.node_id@ == list[i].node_id@,
    ensures
        distinct(list.update(i, s)),
        table(list.update(i, s)) == table(list).insert(s.node_id@, s.what()),
{
    let other = list.update(i, s);
    assert forall|a: int, b: int|
        #![trigger other[a], other[b]]
        0 <= a < b < other.len() implies other[a].node_id@ != other[b].node_id@ by {
        assert(list[a].node_id@ != list[b].node_id@);
    }
    let t = table(list).insert(s.node_id@, s.what());
    assert forall|node: Seq<u8>| table(other).contains_key(node) <==> t.contains_key(node) by {
        if is_listed(other, node) {
            let j = choose|j: int| is_at(other, node, j);
            assert(is_at(list, node, j));
        }
        if is_listed(list, node) {
            let j = choose|j: int| is_at(list, node, j);
            assert(is_at(other, node, j));
        }
        if node == s.node_id@ {
            assert(is_at(other, node, i));
        }
    }
    assert forall|node: Seq<u8>| #[trigger]
        table(other).contains_key(node) implies table(other)[node] == t[node] by {
        let j = choose|j: int| is_at(other, node, j);
        lemma_table_at(other, j);
        lemma_table_at(list, j);
        if j != i {
            assert(list[j].node_id@ != list[i].node_id@) by {
                assert(i < j || j < i);
            }
        }
    }
    assert(table(other) =~= t);
}

proof fn lemma_table_remove(list: Seq<Subscriber>, i: int)
    requires
        distinct(list),
        0 <= i < list.len(),
    ensures
        distinct(list.remove(i)),
        table(list.remove(i)) == table(list).remove(list[i].node_id@),
{
    let rest = list.remove(i);
    let gone = list[i].node_id@;
    assert forall|a: int, b: int|
        #![trigger rest[a], rest[b]]
        0 <= a < b < rest.len() implies rest[a].node_id@ != rest[b].node_id@ by {
        let a0 = if a < i { a } else { a + 1 };
        let b0 = if b < i { b } else { b + 1 };
        assert(list[a0].node_id@ != list[b0].node_id@);
    }
    let t = table(list).remove(gone);
    assert forall|node: Seq<u8>| table(rest).contains_key(node) <==> t.contains_key(node) by {
        if is_listed(rest, node) {
            let a = choose|a: int| is_at(rest, node, a);
            let a0 = if a < i { a } else { a + 1 };
            assert(is_at(list, node, a0));
            assert(list[a0].node_id@ != gone) by {
                assert(a0 < i || i < a0);
            }
        }
        if is_listed(list, node) && node != gone {
            let a = choose|a: int| is_at(list, node, a);
            let a1 = if a < i { a } else { a - 1 };
            assert(is_at(rest, node, a1));
        }
    }
    assert forall|node: Seq<u8>| #[trigger]
        table(rest).contains_key(node) implies table(rest)[node] == t[node] by {
        let a = choose|a: int| is_at(rest, node, a);
        lemma_table_at(rest, a);
        let a0 = if a < i { a } else { a + 1 };
        lemma_table_at(list, a0);
    }
    assert(table(rest) =~= t);
}

/// What some nodes are.
pub open spec fn ids(nodes: Seq<NodeId>) -> Seq<Seq<u8>> {
    nodes.map_values(|n: NodeId| n@)
}

/// Whether a node has a data stream and wants objects of group `group`.
pub open spec fn is_recipient(
    subscribers: Map<Seq<u8>, SubscriberView>,
    group: u32,
    node: Seq<u8>,
) -> bool {
    &&& subscribers.contains_key(node)
    &&& subscribers[node].has_stream
    &&& wants(subscribers[node].group_id, group)
}

/// The object to send to a node that asks for a sequence number: the first that is kept with
/// that number, if the node has a data stream and wants the object.
pub open spec fn retransmitted(a: ActorView, node: Seq<u8>, sequence: u64) -> Option<ObjectView> {
    match first_with(a.buffer, sequence) {
        Some(o) => if is_recipient(a.subscribers, o.group_id, node) {
            Some(o)
        } else {
            None
        },
        None => None,
    }
}

/// What a subscriber is sent when its data stream is there: the initialization segment if it
/// wants it, then every kept object that it wants.
#[derive(Debug)]
pub struct Replay {
    init: Option<MoqObject>,
    objects: VecDeque<MoqObject>,
    init_is_out: bool,
}

/// What a replay has still to send.
#[verifier::ext_equal]
pub struct ReplayView {
    pub init: Option<ObjectView>,
    pub objects: Seq<ObjectView>,
    /// Whether the object handed out last was the initialization segment.
    pub init_is_out: bool,
}

impl ReplayView {
    /// All that is still to be sent, in order.
    pub open spec fn ahead(self) -> Seq<ObjectView> {
        match self.init {
            Some(o) => seq![o] + self.objects,
            None => self.objects,
        }
    }
}

/// What a subscriber that asked for `wanted` is sent first on a new data stream.
pub open spec fn replay_of(a: ActorView, wanted: u32) -> ReplayView {
    ReplayView {
        init: match a.init {
            Some(o) => if wants(wanted, o.group_id) {
                Some(o)
            } else {
                None
            },
            None => None,
        },
        objects: wanted_of(a.buffer, wanted),
        init_is_out: false,
    }
}

/// Whether handing out the next object of a replay gives `r` and leaves `after`.
pub open spec fn is_handed_out(
    before: ReplayView,
    r: Option<ObjectView>,
    after: ReplayView,
) -> bool {
    match before.init {
        Some(o) => r == Some(o) && after == (ReplayView { init: None, init_is_out: true, ..before }),
        None => if before.objects.len() > 0 {
            r == Some(before.objects[0]) && after == (ReplayView {
                objects: before.objects.skip(1),
                init_is_out: false,
                ..before
            })
        } else {
            r is None && after == (ReplayView { init_is_out: false, ..before })
        },
    }
}

/// A replay once the object handed out last could not be sent.
pub open spec fn after_loss(v: ReplayView) -> ReplayView {
    if v.init_is_out {
        v
    } else {
        ReplayView { objects: Seq::empty(), ..v }
    }
}

impl View for Replay {
    type V = ReplayView;

    closed spec fn view(&self) -> ReplayView {
        ReplayView {
            init: match self.init {
                Some(o) => Some(o@),
                None => None,
            },
            objects: views(self.objects@),
            init_is_out: self.init_is_out,
        }
    }
}

impl Replay {
    /// Hands out the next object to send.
    pub fn next(&mut self) -> (r: Option<MoqObject>)
        ensures
            is_handed_out(
                old(self)@,
                match r {
                    Some(o) => Some(o@),
                    None => None,
                },
                final(self)@,
            ),
            match r {
                Some(o) => old(self)@.ahead() == seq![o@] + final(self)@.ahead(),
                None => old(self)@.ahead().len() == 0,
            },
            match old(self)@.init {
                Some(o) => r is Some && r->0@ == o && final(self)@ == (ReplayView {
                    init: None,
                    init_is_out: true,
                    ..old(self)@
                }),
                None => if old(self)@.objects.len() > 0 {
                    r is Some && r->0@ == old(self)@.objects[0] && final(self)@ == (ReplayView {
                        objects: old(self)@.objects.skip(1),
                        init_is_out: false,
                        ..old(self)@
                    })
                } else {
                    r is None && final(self)@ == (ReplayView { init_is_out: false, ..old(self)@ })
                },
            },
    {
        let ghost before = self.objects@;
        let init = self.init.take();
        match init {
            Some(object) => {
                self.init_is_out = true;
                Some(object)
            },
            None => {
                self.init_is_out = false;
                let next = self.objects.pop_front();
                assert(before.len() > 0 ==> views(self.objects@) =~= views(before).skip(1));
                assert(next is Some ==> views(before) =~= seq![next->0@] + views(self.objects@));
                next
            },
        }
    }

    /// Takes note that the object handed out last could not be sent. A lost initialization
    /// segment is passed over; after any other loss nothing more is sent.
    pub fn failed(&mut self)
        ensures
            final(self)@ == after_loss(old(self)@),
            final(self)@ == if old(self)@.init_is_out {
                old(self)@
            } else {
                ReplayView { objects: Seq::empty(), ..old(self)@ }
            },
    {
        if !self.init_is_out {
            self.objects.clear();
            assert(self@.objects =~= Seq::empty());
        }
    }
}

/// What an actor is told.
#[derive(Debug)]
pub enum StreamCommand {
    PublishObject(MoqObject),
    Subscribe { node_id: NodeId, group_id: u32 },
    /// The node has opened a data stream.
    SetDataStream { node_id: NodeId },
    Unsubscribe(NodeId),
    RequestRetransmission { node_id: NodeId, sequence: u64 },
}

/// What is to be done because of a command.
#[derive(Debug)]
pub enum StreamAction {
    /// Send the object on the data streams of these nodes.
    Send { object: MoqObject, to: Vec<NodeId> },
    /// Send the replay on the new data stream of the node, and keep the stream.
    Replay { node_id: NodeId, replay: Replay },
    /// Finish the new data stream of the node unused.
    Finish { node_id: NodeId },
    /// Let go of the data stream of the node, if it has one.
    Release { node_id: NodeId },
    /// Nothing.
    Nothing,
}

/// The actor after a command.
pub open spec fn after(a: ActorView, command: StreamCommand) -> ActorView {
    match command {
        StreamCommand::PublishObject(o) => after_publish(a, o@),
        StreamCommand::Subscribe { node_id, group_id } => ActorView {
            subscribers: a.subscribers.insert(
                node_id@,
                SubscriberView { group_id, has_stream: false },
            ),
            ..a
        },
        StreamCommand::SetDataStream { node_id } => if a.subscribers.contains_key(node_id@) {
            ActorView {
                subscribers: a.subscribers.insert(
                    node_id@,
                    SubscriberView {
                        group_id: a.subscribers[node_id@].group_id,
                        has_stream: true,
                    },
                ),
                ..a
            }
        } else {
            a
        },
        StreamCommand::Unsubscribe(node_id) => ActorView {
            subscribers: a.subscribers.remove(node_id@),
            ..a
        },
        StreamCommand::RequestRetransmission { .. } => a,
    }
}

/// Whether the action is the right one for a command.
pub open spec fn is_action(a: ActorView, command: StreamCommand, action: StreamAction) -> bool {
    match command {
        StreamCommand::PublishObject(o) => {
            &&& action matches StreamAction::Send { object, to }
            &&& object@ == o@
            &&& ids(to@).no_duplicates()
            &&& forall|node: Seq<u8>| #[trigger]
                ids(to@).contains(node) <==> is_recipient(a.subscribers, o.group_id, node)
        },
        StreamCommand::Subscribe { node_id, .. } => action matches StreamAction::Release {
            node_id: node,
        } && node@ == node_id@,
        StreamCommand::SetDataStream { node_id } => if a.subscribers.contains_key(node_id@) {
            &&& action matches StreamAction::Replay { node_id: node, replay }
            &&& node@ == node_id@
            &&& replay@ == replay_of(a, a.subscribers[node_id@].group_id)
        } else {
            action matches StreamAction::Finish { node_id: node } && node@ == node_id@
        },
        StreamCommand::Unsubscribe(node_id) => action matches StreamAction::Release {
            node_id: node,
        } && node@ == node_id@,
        StreamCommand::RequestRetransmission { node_id, sequence } => {
            match retransmitted(a, node_id@, sequence) {
                Some(o) => action matches StreamAction::Send { object, to } && object@ == o && ids(
                    to@,
                ) == seq![node_id@],
                None => action is Nothing,
            }
        },
    }
}

/// The state of the actor behind one stream.
pub struct StreamActorState {
    subscribers: Vec<Subscriber>,
    buffer: VecDeque<MoqObject>,
    init_segment: Option<MoqObject>,
    stream_id: StreamId,
    namespace: String,
}

impl View for StreamActorState {
    type V = ActorView;

    closed spec fn view(&self) -> ActorView {
        ActorView {
            stream_id: self.stream_id@,
            namespace: self.namespace@,
            subscribers: table(self.subscribers@),
            buffer: views(self.buffer@),
            init: match self.init_segment {
                Some(o) => Some(o@),
                None => None,
            },
        }
    }
}

impl StreamActorState {
    /// No node is listed twice, and no more objects are kept than the window holds.
    pub closed spec fn wf(&self) -> bool {
        &&& distinct(self.subscribers@)
        &&& self.buffer@.len() <= SLIDING_WINDOW_SIZE
    }

    /// An actor without subscribers and objects.
    pub fn new(stream_id: StreamId, namespace: String) -> (a: Self)
        ensures
            a.wf(),
            a@ == (ActorView {
                stream_id: stream_id@,
                namespace: namespace@,
                subscribers: Map::empty(),
                buffer: Seq::empty(),
                init: None,
            }),
    {
        let a = StreamActorState {
            subscribers: Vec::new(),
            buffer: VecDeque::new(),
            init_segment: None,
            stream_id,
            namespace,
        };
        assert(a@.subscribers =~= Map::empty());
        assert(a@.buffer =~= Seq::empty());
        a
    }

    /// Keeps a published object, in place of the oldest where the window is full, and
    /// remembers it apart if it is an initialization segment.
    pub fn add_object_to_buffer(&mut self, object: MoqObject)
        requires
            old(self).wf(),
        ensures
            final(self).wf(),
            final(self)@ == after_publish(old(self)@, object@),
    {
        let ghost added = object@;
        let ghost before = self.buffer@;
        if object.group_id == MEDIA_TYPE_INIT as u32 {
            self.init_segment = Some(object.clone());
        }
        self.buffer.push_back(object);
        let ghost longer = self.buffer@;
        if self.buffer.len() > SLIDING_WINDOW_SIZE {
            let _ = self.buffer.pop_front();
        }
        proof {
            assert(views(longer) =~= views(before).push(added));
            assert(self@.buffer =~= slide(old(self)@.buffer, added));
        }
    }

    /// Where a node stands in the list.
    fn find(&self, node_id: &NodeId) -> (at: Option<usize>)
        requires
            self.wf(),
        ensures
            match at {
                Some(i) => i < self.subscribers@.len() && self.subscribers@[i as int].node_id@
                    == node_id@ && self@.subscribers.contains_key(node_id@)
                    && self@.subscribers[node_id@] == self.subscribers@[i as int].what(),
                None => !is_listed(self.subscribers@, node_id@)
                    && !self@.subscribers.contains_key(node_id@),
            },
    {
        let mut i: usize = 0;
        while i < self.subscribers.len()
            invariant
                i <= self.subscribers@.len(),
                self.wf(),
                forall|j: int|
                    0 <= j < i ==> (#[trigger] self.subscribers@[j]).node_id@ != node_id@,
            decreases self.subscribers@.len() - i,
        {
            if self.subscribers[i].node_id.same(node_id) {
                proof {
                    lemma_table_at(self.subscribers@, i as int);
                }
                return Some(i);
            }
            i = i + 1;
        }
        assert(!is_listed(self.subscribers@, node_id@)) by {
            if is_listed(self.subscribers@, node_id@) {
                let j = choose|j: int| is_at(self.subscribers@, node_id@, j);
                assert(self.subscribers@[j].node_id@ == node_id@);
            }
        }
        None
    }

    /// Keeps a published object and says which nodes it is for.
    pub fn handle_publish_object(&mut self, object: MoqObject) -> (to: Vec<NodeId>)
        requires
            old(self).wf(),
        ensures
            final(self).wf(),
            final(self)@ == after_publish(old(self)@, object@),
            ids(to@).no_duplicates(),
            forall|node: Seq<u8>| #[trigger]
                ids(to@).contains(node) <==> is_recipient(
                    old(self)@.subscribers,
                    object.group_id,
                    node,
                ),
            forall|node: Seq<u8>| #[trigger]
                ids(to@).contains(node) <==> {
                    &&& old(self)@.subscribers.contains_key(node)
                    &&& old(self)@.subscribers[node].has_stream
                    &&& old(self)@.subscribers[node].group_id == 0 || old(
                        self,
                    )@.subscribers[node].group_id == object.group_id
                },
    {
        let group_id = object.group_id;
        self.add_object_to_buffer(object);
        let ghost list = self.subscribers@;
        let mut to: Vec<NodeId> = Vec::new();
        let mut i: usize = 0;
        assert(ids(to@) =~= Seq::empty());
        while i < self.subscribers.len()
            invariant
                i <= list.len(),
                list == self.subscribers@,
                distinct(list),
                ids(to@).no_duplicates(),
                forall|node: Seq<u8>| #[trigger]
                    ids(to@).contains(node) <==> exists|j: int|
                        0 <= j < i && is_at(list, node, j) && list[j].has_stream && wants(
                            list[j].group_id,
                            group_id,
                        ),
            decreases list.len() - i,
        {
            let subscriber = &self.subscribers[i];
            let ghost node = list[i as int].node_id@;
            let ghost before = to@;
            proof {
                assert(is_at(list, node, i as int));
                assert(!ids(to@).contains(node)) by {
                    if ids(to@).contains(node) {
                        let j = choose|j: int|
                            0 <= j < i && is_at(list, node, j) && list[j].has_stream && wants(
                                list[j].group_id,
                                group_id,
                            );
                        assert(list[j].node_id@ != list[i as int].node_id@);
                    }
                }
            }
            let is_matching = subscriber.group_id == 0 || subscriber.group_id == group_id;
            if is_matching && subscriber.has_stream {
                to.push(subscriber.node_id);
                proof {
                    assert(ids(to@) =~= ids(before).push(node));
                    lemma_push_contains(ids(before), node);
                }
            }
            proof {
                let sent = list[i as int].has_stream && wants(
                    list[i as int].group_id,
                    group_id,
                );
                assert forall|n: Seq<u8>| #[trigger] ids(to@).contains(n) <==> exists|j: int|
                    0 <= j < i + 1 && is_at(list, n, j) && list[j].has_stream && wants(
                        list[j].group_id,
                        group_id,
                    ) by {
                    if ids(to@).contains(n) {
                        if sent && n == node {
                            assert(is_at(list, n, i as int));
                        } else {
                            assert(ids(before).contains(n));
                        }
                    }
                    if exists|j: int|
                        0 <= j < i + 1 && is_at(list, n, j) && list[j].has_stream && wants(
                            list[j].group_id,
                            group_id,
                        ) {
                        let j = choose|j: int|
                            0 <= j < i + 1 && is_at(list, n, j) && list[j].has_stream && wants(
                                list[j].group_id,
                                group_id,
                            );
                        if j < i {
                            assert(ids(before).contains(n));
                        }
                    }
                }
            }
            i = i + 1;
        }
        proof {
            assert forall|node: Seq<u8>| #[trigger] ids(to@).contains(node) <==> is_recipient(
                old(self)@.subscribers,
                group_id,
                node,
            ) by {
                if ids(to@).contains(node) {
                    let j = choose|j: int|
                        0 <= j < i && is_at(list, node, j) && list[j].has_stream && wants(
                            list[j].group_id,
                            group_id,
                        );
                    lemma_table_at(list, j);
                }
                if is_recipient(table(list), group_id, node) {
                    let j = choose|j: int| is_at(list, node, j);
                    lemma_table_at(list, j);
                }
            }
        }
        to
    }

    /// Lists a subscriber, without a data stream for now. A node that is listed already starts
    /// anew.
    pub fn handle_subscribe(&mut self, node_id: NodeId, group_id: u32)
        requires
            old(self).wf(),
        ensures
            final(self).wf(),
            final(self)@ == (ActorView {
                subscribers: old(self)@.subscribers.insert(
                    node_id@,
                    SubscriberView { group_id, has_stream: false },
                ),
                ..old(self)@
            }),
    {
        let subscriber = Subscriber { node_id, group_id, has_stream: false };
        match self.find(&node_id) {
            Some(i) => {
                proof {
                    lemma_table_update(self.subscribers@, i as int, subscriber);
                }
                self.subscribers.set(i, subscriber);
            },
            None => {
                proof {
                    lemma_table_push(self.subscribers@, subscriber);
                }
                self.subscribers.push(subscriber);
            },
        }
    }

    /// Takes note of the data stream of a subscriber and says what to send on it first, or
    /// that the node is no subscriber and the stream of no use.
    pub fn handle_set_data_stream(&mut self, node_id: NodeId) -> (r: Option<Replay>)
        requires
            old(self).wf(),
        ensures
            final(self).wf(),
            r is Some <==> old(self)@.subscribers.contains_key(node_id@),
            r is None ==> final(self)@ == old(self)@,
            r matches Some(replay) ==> {
                let wanted = old(self)@.subscribers[node_id@].group_id;
                &&& final(self)@ == (ActorView {
                    subscribers: old(self)@.subscribers.insert(
                        node_id@,
                        SubscriberView { group_id: wanted, has_stream: true },
                    ),
                    ..old(self)@
                })
                &&& replay@ == replay_of(old(self)@, wanted)
            },
    {
        let at = match self.find(&node_id) {
            Some(at) => at,
            None => return None,
        };
        let group_id = self.subscribers[at].group_id;
        let init = match &self.init_segment {
            Some(init) => if group_id == 0 || group_id == init.group_id {
                Some(init.clone())
            } else {
                None
            },
            None => None,
        };
        let mut objects: VecDeque<MoqObject> = VecDeque::new();
        let ghost all = views(self.buffer@);
        let mut i: usize = 0;
        assert(views(objects@) =~= wanted_of(all.take(0), group_id));
        while i < self.buffer.len()
            invariant
                i <= self.buffer@.len(),
                all == views(self.buffer@),
                views(objects@) == wanted_of(all.take(i as int), group_id),
            decreases self.buffer@.len() - i,
        {
            let ghost before = objects@;
            let object = &self.buffer[i];
            assert(all.take(i + 1).drop_last() =~= all.take(i as int));
            assert(all.take(i + 1).last() == object@);
            if group_id == 0 || group_id == object.group_id {
                objects.push_back(object.clone());
                assert(views(objects@) =~= views(before).push(object@));
            }
            i = i + 1;
        }
        assert(all.take(all.len() as int) =~= all);
        let subscriber = Subscriber { node_id, group_id, has_stream: true };
        proof {
            lemma_table_update(self.subscribers@, at as int, subscriber);
        }
        self.subscribers.set(at, subscriber);
        Some(Replay { init, objects, init_is_out: false })
    }

    /// Strikes a subscriber off the list.
    pub fn handle_unsubscribe(&mut self, node_id: NodeId)
        requires
            old(self).wf(),
        ensures
            final(self).wf(),
            final(self)@ == (ActorView {
                subscribers: old(self)@.subscribers.remove(node_id@),
                ..old(self)@
            }),
    {
        match self.find(&node_id) {
            Some(i) => {
                proof {
                    lemma_table_remove(self.subscribers@, i as int);
                }
                self.subscribers.remove(i);
            },
            None => {
                assert(self@.subscribers.remove(node_id@) =~= self@.subscribers);
            },
        }
    }

    /// The object to send again to a node that asks for a sequence number.
    pub fn handle_retransmission_request(&self, node_id: NodeId, sequence: u64) -> (r: Option<
        MoqObject,
    >)
        requires
            self.wf(),
        ensures
            match r {
                Some(object) => retransmitted(self@, node_id@, sequence) == Some(object@),
                None => retransmitted(self@, node_id@, sequence) is None,
            },
    {
        let at = match self.find(&node_id) {
            Some(at) => at,
            None => return None,
        };
        let subscriber = &self.subscribers[at];
        if !subscriber.has_stream {
            return None;
        }
        let ghost all = views(self.buffer@);
        let mut i: usize = 0;
        assert(all.skip(0) =~= all);
        while i < self.buffer.len()
            invariant
                i <= self.buffer@.len(),
                all == views(self.buffer@),
                first_with(all, sequence) == first_with(all.skip(i as int), sequence),
                at < self.subscribers@.len(),
                *subscriber == self.subscribers@[at as int],
                self@.subscribers.contains_key(node_id@),
                self@.subscribers[node_id@] == subscriber.what(),
                subscriber.has_stream,
                self@.buffer == all,
            decreases self.buffer@.len() - i,
        {
            let object = &self.buffer[i];
            assert(all.skip(i as int)[0] == object@);
            if object.sequence == sequence {
                if subscriber.group_id == 0 || subscriber.group_id == object.group_id {
                    return Some(object.clone());
                }
                return None;
            }
            assert(all.skip(i as int).skip(1) =~= all.skip(i + 1));
            i = i + 1;
        }
        None
    }

    /// Handles one command.
    pub fn handle(&mut self, command: StreamCommand) -> (action: StreamAction)
        requires
            old(self).wf(),
        ensures
            final(self).wf(),
            final(self)@ == after(old(self)@, command),
            is_action(old(self)@, command, action),
            match command {
                StreamCommand::PublishObject(o) => {
                    &&& final(self)@ == after_publish(old(self)@, o@)
                    &&& action matches StreamAction::Send { object, to }
                    &&& object@ == o@
                    &&& ids(to@).no_duplicates()
                    &&& forall|node: Seq<u8>| #[trigger]
                        ids(to@).contains(node) <==> is_recipient(
                            old(self)@.subscribers,
                            o.group_id,
                            node,
                        )
                },
                StreamCommand::Subscribe { node_id, group_id } => {
                    &&& final(self)@ == (ActorView {
                        subscribers: old(self)@.subscribers.insert(
                            node_id@,
                            SubscriberView { group_id, has_stream: false },
                        ),
                        ..old(self)@
                    })
                    &&& action matches StreamAction::Release { node_id: node }
                    &&& node@ == node_id@
                },
                StreamCommand::SetDataStream { node_id } => if old(
                    self,
                )@.subscribers.contains_key(node_id@) {
                    let wanted = old(self)@.subscribers[node_id@].group_id;
                    &&& final(self)@ == (ActorView {
                        subscribers: old(self)@.subscribers.insert(
                            node_id@,
                            SubscriberView { group_id: wanted, has_stream: true },
                        ),
                        ..old(self)@
                    })
                    &&& action matches StreamAction::Replay { node_id: node, replay }
                    &&& node@ == node_id@
                    &&& replay@ == replay_of(old(self)@, wanted)
                } else {
                    &&& final(self)@ == old(self)@
                    &&& action matches StreamAction::Finish { node_id: node }
                    &&& node@ == node_id@
                },
                StreamCommand::Unsubscribe(node_id) => {
                    &&& final(self)@ == (ActorView {
                        subscribers: old(self)@.subscribers.remove(node_id@),
                        ..old(self)@
                    })
                    &&& action matches StreamAction::Release { node_id: node }
                    &&& node@ == node_id@
                },
                StreamCommand::RequestRetransmission { node_id, sequence } => {
                    &&& final(self)@ == old(self)@
                    &&& match retransmitted(old(self)@, node_id@, sequence) {
                        Some(o) => action matches StreamAction::Send { object, to } && object@
                            == o && ids(to@) == seq![node_id@],
                        None => action is Nothing,
                    }
                },
            },
    {
        match command {
            StreamCommand::PublishObject(object) => {
                let to = self.handle_publish_object(object.clone());
                StreamAction::Send { object, to }
            },
            StreamCommand::Subscribe { node_id, group_id } => {
                self.handle_subscribe(node_id, group_id);
                StreamAction::Release { node_id }
            },
            StreamCommand::SetDataStream { node_id } => {
                match self.handle_set_data_stream(node_id) {
                    Some(replay) => StreamAction::Replay { node_id, replay },
                    None => StreamAction::Finish { node_id },
                }
            },
            StreamCommand::Unsubscribe(node_id) => {
                self.handle_unsubscribe(node_id);
                StreamAction::Release { node_id }
            },
            StreamCommand::RequestRetransmission { node_id, sequence } => {
                match self.handle_retransmission_request(node_id, sequence) {
                    Some(object) => {
                        let mut to: Vec<NodeId> = Vec::new();
                        to.push(node_id);
                        assert(ids(to@) =~= seq![node_id@]);
                        StreamAction::Send { object, to }
                    },
                    None => StreamAction::Nothing,
                }
            },
        }
    }
}

proof fn lemma_push_contains(s: Seq<Seq<u8>>, x: Seq<u8>)
    requires
        s.no_duplicates(),
        !s.contains(x),
    ensures
        s.push(x).no_duplicates(),
        forall|y: Seq<u8>| #[trigger] s.push(x).contains(y) <==> s.contains(y) || y == x,
{
    let t = s.push(x);
    assert forall|y: Seq<u8>| #[trigger] t.contains(y) <==> s.contains(y) || y == x by {
        if s.contains(y) {
            let i = choose|i: int| 0 <= i < s.len() && s[i] == y;
            assert(t[i] == y);
        }
        assert(t[s.len() as int] == x);
    }
}

/// The objects kept once all of `objects` have been published to an actor that kept `buffer`.
pub open spec fn slide_all(buffer: Seq<ObjectView>, objects: Seq<ObjectView>) -> Seq<ObjectView>
    decreases objects.len(),
{
    if objects.len() == 0 {
        buffer
    } else {
        slide(slide_all(buffer, objects.drop_last()), objects.last())
    }
}

/// Law: an actor keeps the latest objects, as many as the window holds, and no others.
pub proof fn law_window_holds_latest(objects: Seq<ObjectView>)
    ensures
        objects.len() <= SLIDING_WINDOW_SIZE ==> slide_all(Seq::empty(), objects) == objects,
        objects.len() > SLIDING_WINDOW_SIZE ==> slide_all(Seq::empty(), objects) == objects.skip(
            objects.len() - SLIDING_WINDOW_SIZE,
        ),
    decreases objects.len(),
{
    if objects.len() > 0 {
        let front = objects.drop_last();
        law_window_holds_latest(front);
        let kept = slide_all(Seq::empty(), front);
        if objects.len() <= SLIDING_WINDOW_SIZE {
            assert(kept.push(objects.last()) =~= objects);
        } else if front.len() == SLIDING_WINDOW_SIZE {
            assert(kept.push(objects.last()) =~= objects);
        } else {
            assert(kept.push(objects.last()).skip(1) =~= objects.skip(
                objects.len() - SLIDING_WINDOW_SIZE,
            ));
        }
    } else {
        assert(objects =~= Seq::empty());
    }
}

/// Law: what is sent again is one of the kept objects, has the number asked for, and goes to a
/// subscriber that wants it and has a data stream.
pub proof fn law_retransmission_is_kept(a: ActorView, node: Seq<u8>, sequence: u64)
    ensures
        retransmitted(a, node, sequence) matches Some(o) ==> a.buffer.contains(o) && o.sequence
            == sequence && is_recipient(a.subscribers, o.group_id, node),
{
    lemma_first_with(a.buffer, sequence);
}

/// Law: an object that is kept is sent again to whoever wants it, if its number is its own.
pub proof fn law_kept_is_retransmitted(a: ActorView, node: Seq<u8>, i: int)
    requires
        0 <= i < a.buffer.len(),
        forall|j: int|
            0 <= j < i ==> (#[trigger] a.buffer[j]).sequence != a.buffer[i].sequence,
        is_recipient(a.subscribers, a.buffer[i].group_id, node),
    ensures
        retransmitted(a, node, a.buffer[i].sequence) == Some(a.buffer[i]),
{
    lemma_first_with_at(a.buffer, i);
}

proof fn lemma_first_with(objects: Seq<ObjectView>, sequence: u64)
    ensures
        first_with(objects, sequence) matches Some(o) ==> objects.contains(o) && o.sequence
            == sequence,
    decreases objects.len(),
{
    if objects.len() > 0 && objects[0].sequence != sequence {
        let rest = objects.skip(1);
        lemma_first_with(rest, sequence);
        if first_with(rest, sequence) is Some {
            let o = first_with(rest, sequence)->0;
            let i = choose|i: int| 0 <= i < rest.len() && rest[i] == o;
            assert(objects[i + 1] == o);
        }
    }
}

proof fn lemma_first_with_at(objects: Seq<ObjectView>, i: int)
    requires
        0 <= i < objects.len(),
        forall|j: int| 0 <= j < i ==> (#[trigger] objects[j]).sequence != objects[i].sequence,
    ensures
        first_with(objects, objects[i].sequence) == Some(objects[i]),
    decreases i,
{
    if i > 0 {
        let rest = objects.skip(1);
        assert(objects[0].sequence != objects[i].sequence);
        assert forall|j: int| 0 <= j < i - 1 implies (#[trigger] rest[j]).sequence != rest[i
            - 1].sequence by {
            assert(rest[j] == objects[j + 1]);
        }
        lemma_first_with_at(rest, i - 1);
    }
}

/// Law: a node that has just subscribed, and one that has unsubscribed, is sent nothing until
/// its data stream is there.
pub proof fn law_no_stream_no_objects(
    subscribers: Map<Seq<u8>, SubscriberView>,
    node: Seq<u8>,
    wanted: u32,
    group: u32,
)
    ensures
        !is_recipient(
            subscribers.insert(node, SubscriberView { group_id: wanted, has_stream: false }),
            group,
            node,
        ),
        !is_recipient(subscribers.remove(node), group, node),
{
}

/// Law: an object is sent to exactly those subscribers that have a data stream and asked for its
/// group or for all groups.
pub proof fn law_who_receives(
    subscribers: Map<Seq<u8>, SubscriberView>,
    group: u32,
    node: Seq<u8>,
)
    ensures
        is_recipient(subscribers, group, node) <==> {
            &&& subscribers.contains_key(node)
            &&& subscribers[node].has_stream
            &&& subscribers[node].group_id == 0 || subscribers[node].group_id == group
        },
{
}

/// Law: the objects replayed to a new data stream are the kept objects whose group the subscriber
/// asked for, all of them and no others, in the order in which they are kept. Whoever asked for
/// all groups is replayed all that is kept.
pub proof fn law_replay_is_what_is_wanted(objects: Seq<ObjectView>, wanted: u32)
    ensures
        wanted == 0 ==> wanted_of(objects, wanted) == objects,
        wanted_of(objects, wanted) == objects.filter(
            |o: ObjectView| wanted == 0 || o.group_id == wanted,
        ),
        forall|i: int|
            #![trigger objects[i]]
            0 <= i < objects.len() ==> (wanted_of(objects, wanted).contains(objects[i]) <==> (wanted
                == 0 || objects[i].group_id == wanted)),
        forall|o: ObjectView| #[trigger]
            wanted_of(objects, wanted).contains(o) ==> objects.contains(o),
    decreases objects.len(),
{
    let keep = |o: ObjectView| wanted == 0 || o.group_id == wanted;
    reveal(Seq::filter);
    if objects.len() > 0 {
        law_replay_is_what_is_wanted(objects.drop_last(), wanted);
        assert(objects.drop_last().push(objects.last()) =~= objects);
    } else {
        assert(wanted_of(objects, wanted) =~= objects);
    }
    assert(wanted_of(objects, wanted) == objects.filter(keep));
    assert forall|o: ObjectView| #[trigger] wanted_of(objects, wanted).contains(
        o,
    ) implies objects.contains(o) && keep(o) by {
        let r = objects.filter(keep);
        let j = choose|j: int| 0 <= j < r.len() && r[j] == o;
        objects.lemma_filter_pred(keep, j);
        objects.lemma_filter_contains_rev(keep, o);
    }
    assert forall|i: int|
        #![trigger objects[i]]
        0 <= i < objects.len() implies (wanted_of(objects, wanted).contains(objects[i]) <==> (wanted
        == 0 || objects[i].group_id == wanted)) by {
        if keep(objects[i]) {
            objects.lemma_filter_contains(keep, i);
        }
    }
}

/// Law: the two parts of a replay are the kept initialization segment, for whoever asked for all
/// groups or for its group, and behind it the wanted ones of the kept objects.
pub proof fn law_replay_in_order(a: ActorView, wanted: u32)
    ensures
        replay_of(a, wanted).ahead() == (if a.init is Some && (wanted == 0 || wanted
            == a.init->0.group_id) {
            seq![a.init->0]
        } else {
            Seq::<ObjectView>::empty()
        }) + a.buffer.filter(|o: ObjectView| wanted == 0 || o.group_id == wanted),
        !replay_of(a, wanted).init_is_out,
{
    law_replay_is_what_is_wanted(a.buffer, wanted);
    let kept = a.buffer.filter(|o: ObjectView| wanted == 0 || o.group_id == wanted);
    assert(Seq::<ObjectView>::empty() + kept =~= kept);
}

/// The actor once all of `objects` have been published.
pub open spec fn after_all(a: ActorView, objects: Seq<ObjectView>) -> ActorView
    decreases objects.len(),
{
    if objects.len() == 0 {
        a
    } else {
        after_publish(after_all(a, objects.drop_last()), objects.last())
    }
}

/// Law: after any publications on a new actor, it keeps the last hundred objects, as its
/// initialization segment the last object of group 0, if there was one, and publishing leaves the
/// subscribers alone.
pub proof fn law_what_is_kept(a: ActorView, objects: Seq<ObjectView>)
    requires
        a.buffer.len() == 0,
        a.init is None,
    ensures
        ({
            let s = after_all(a, objects);
            &&& s.buffer == if objects.len() <= 100 {
                objects
            } else {
                objects.skip(objects.len() - 100)
            }
            &&& s.init is None <==> forall|i: int|
                0 <= i < objects.len() ==> (#[trigger] objects[i]).group_id != 0
            &&& s.init matches Some(o) ==> exists|i: int|
                {
                    &&& 0 <= i < objects.len()
                    &&& #[trigger] objects[i] == o
                    &&& o.group_id == 0
                    &&& forall|j: int|
                        i < j < objects.len() ==> (#[trigger] objects[j]).group_id != 0
                }
            &&& s.subscribers == a.subscribers
            &&& s.stream_id == a.stream_id
            &&& s.namespace == a.namespace
        }),
    decreases objects.len(),
{
    if objects.len() == 0 {
        assert(objects =~= a.buffer);
    } else {
        let front = objects.drop_last();
        let last = objects.len() - 1;
        law_what_is_kept(a, front);
        let before = after_all(a, front);
        let s = after_all(a, objects);
        if objects.len() <= 100 {
            assert(before.buffer.push(objects.last()) =~= objects);
        } else {
            assert(before.buffer.push(objects.last()).skip(1) =~= objects.skip(
                objects.len() - 100,
            ));
        }
        assert(objects.last() == objects[last]);
        if objects[last].group_id != 0 {
            if before.init is Some {
                let i = choose|i: int|
                    {
                        &&& 0 <= i < front.len()
                        &&& #[trigger] front[i] == before.init->0
                        &&& before.init->0.group_id == 0
                        &&& forall|j: int|
                            i < j < front.len() ==> (#[trigger] front[j]).group_id != 0
                    };
                assert(objects[i] == front[i]);
                assert forall|j: int| i < j < objects.len() implies (
                #[trigger] objects[j]).group_id != 0 by {
                    if j < last {
                        assert(front[j] == objects[j]);
                    }
                }
            } else {
                assert forall|i: int| 0 <= i < objects.len() implies (
                #[trigger] objects[i]).group_id != 0 by {
                    if i < last {
                        assert(front[i] == objects[i]);
                    }
                }
            }
        }
    }
}

/// Law: a subscriber that comes late catches up. Whoever asked for all groups and opens a data
/// stream after any publications is sent the last initialization segment, if there was one, and
/// then the last hundred objects, in order, whatever their group and priority.
pub proof fn law_late_subscriber_catches_up(a: ActorView, objects: Seq<ObjectView>)
    requires
        a.buffer.len() == 0,
        a.init is None,
    ensures
        ({
            let s = after_all(a, objects);
            let latest = if objects.len() <= 100 {
                objects
            } else {
                objects.skip(objects.len() - 100)
            };
            replay_of(s, 0).ahead() == match s.init {
                Some(o) => seq![o] + latest,
                None => latest,
            }
        }),
{
    law_what_is_kept(a, objects);
    law_replay_is_what_is_wanted(after_all(a, objects).buffer, 0);
}

/// Law: nothing is sent twice or missed where a data stream is opened between two publications:
/// from then on the node receives exactly the objects of the groups that it asked for.
pub proof fn law_receives_from_then_on(
    subscribers: Map<Seq<u8>, SubscriberView>,
    node: Seq<u8>,
    wanted: u32,
    group: u32,
)
    ensures
        is_recipient(
            subscribers.insert(node, SubscriberView { group_id: wanted, has_stream: true }),
            group,
            node,
        ) <==> wanted == 0 || wanted == group,
{
}

/// Law: an object is sent again if and only if it is the first that is kept under the number asked
/// for and the node has a data stream and asked for its group or for all.
pub proof fn law_when_sent_again(a: ActorView, node: Seq<u8>, sequence: u64, i: int)
    ensures
        (forall|j: int| 0 <= j < a.buffer.len() ==> (#[trigger] a.buffer[j]).sequence != sequence)
            ==> retransmitted(a, node, sequence) is None,
        0 <= i < a.buffer.len() && a.buffer[i].sequence == sequence && (forall|j: int|
            0 <= j < i ==> (#[trigger] a.buffer[j]).sequence != sequence) ==> retransmitted(
            a,
            node,
            sequence,
        ) == if a.subscribers.contains_key(node) && a.subscribers[node].has_stream && (
        a.subscribers[node].group_id == 0 || a.subscribers[node].group_id == a.buffer[i].group_id) {
            Some(a.buffer[i])
        } else {
            None
        },
{
    lemma_first_with(a.buffer, sequence);
    if forall|j: int| 0 <= j < a.buffer.len() ==> (#[trigger] a.buffer[j]).sequence != sequence {
        if first_with(a.buffer, sequence) is Some {
            let o = first_with(a.buffer, sequence)->0;
            let j = choose|j: int| 0 <= j < a.buffer.len() && a.buffer[j] == o;
            assert(a.buffer[j].sequence != sequence);
        }
    }
    if 0 <= i < a.buffer.len() && a.buffer[i].sequence == sequence && (forall|j: int|
        0 <= j < i ==> (#[trigger] a.buffer[j]).sequence != sequence) {
        lemma_first_with_at(a.buffer, i);
    }
}

/// Law: a list of nodes shows every node at its place.
pub proof fn law_nodes_at_their_places(nodes: Seq<NodeId>, i: int)
    requires
        0 <= i < nodes.len(),
    ensures
        ids(nodes).len() == nodes.len(),
        ids(nodes)[i] == nodes[i].bytes@,
{
}

/// Law: what a command changes. Subscribing lists the node with the group it asked for and without
/// a data stream, also where it was listed before. A data stream makes a listed node a receiver
/// and leaves the group as it was; of a node that is not listed it changes nothing. Unsubscribing
/// strikes the node off. None of these touches another node, the kept objects, or the
/// initialization segment. Asking again changes nothing at all.
pub proof fn law_what_commands_change(
    a: ActorView,
    node_id: NodeId,
    group_id: u32,
    sequence: u64,
    other: Seq<u8>,
)
    requires
        other != node_id@,
    ensures
        ({
            let s = after(a, StreamCommand::Subscribe { node_id, group_id });
            &&& s.subscribers.contains_key(node_id@)
            &&& s.subscribers[node_id@].group_id == group_id
            &&& !s.subscribers[node_id@].has_stream
            &&& s.subscribers.contains_key(other) <==> a.subscribers.contains_key(other)
            &&& a.subscribers.contains_key(other) ==> s.subscribers[other] == a.subscribers[other]
            &&& s.buffer == a.buffer && s.init == a.init
        }),
        ({
            let s = after(a, StreamCommand::SetDataStream { node_id });
            &&& s.subscribers.contains_key(node_id@) <==> a.subscribers.contains_key(node_id@)
            &&& a.subscribers.contains_key(node_id@) ==> s.subscribers[node_id@].has_stream
                && s.subscribers[node_id@].group_id == a.subscribers[node_id@].group_id
            &&& s.subscribers.contains_key(other) <==> a.subscribers.contains_key(other)
            &&& a.subscribers.contains_key(other) ==> s.subscribers[other] == a.subscribers[other]
            &&& s.buffer == a.buffer && s.init == a.init
        }),
        ({
            let s = after(a, StreamCommand::Unsubscribe(node_id));
            &&& !s.subscribers.contains_key(node_id@)
            &&& s.subscribers.contains_key(other) <==> a.subscribers.contains_key(other)
            &&& a.subscribers.contains_key(other) ==> s.subscribers[other] == a.subscribers[other]
            &&& s.buffer == a.buffer && s.init == a.init
        }),
        after(a, StreamCommand::RequestRetransmission { node_id, sequence }) == a,
{
}

/// Law: what publishing changes. The object becomes the newest of those kept; where a hundred are
/// kept the oldest goes; an object of group 0 becomes the initialization segment as well; the
/// subscribers stay as they are.
pub proof fn law_what_publishing_changes(a: ActorView, object: MoqObject)
    requires
        a.buffer.len() <= 100,
    ensures
        ({
            let s = after(a, StreamCommand::PublishObject(object));
            &&& a.buffer.len() < 100 ==> s.buffer == a.buffer.push(object@)
            &&& a.buffer.len() == 100 ==> s.buffer == a.buffer.skip(1).push(object@)
            &&& object.group_id == 0 ==> s.init == Some(object@)
            &&& object.group_id != 0 ==> s.init == a.init
            &&& s.subscribers == a.subscribers
            &&& s.stream_id == a.stream_id
            &&& s.namespace == a.namespace
        }),
{
    if a.buffer.len() == 100 {
        assert(a.buffer.push(object@).skip(1) =~= a.buffer.skip(1).push(object@));
    }
}

/// Law: a published object goes out as it is, once to each node that is listed with a data stream
/// and asked for its group or for all, and to no other.
pub proof fn law_published_goes_to_whom_it_is_for(
    a: ActorView,
    o: MoqObject,
    action: StreamAction,
    node: Seq<u8>,
)
    requires
        is_action(a, StreamCommand::PublishObject(o), action),
    ensures
        action matches StreamAction::Send { object, to } && {
            &&& object@ == o@
            &&& ids(to@).no_duplicates()
            &&& ids(to@).contains(node) <==> {
                &&& a.subscribers.contains_key(node)
                &&& a.subscribers[node].has_stream
                &&& a.subscribers[node].group_id == 0 || a.subscribers[node].group_id == o.group_id
            }
        },
{
}

/// Law: what comes of a new data stream. A listed node is sent the initialization segment that it
/// wants and every kept object that it wants, in order; the stream of any other node is finished.
pub proof fn law_new_data_stream(a: ActorView, node_id: NodeId, action: StreamAction)
    requires
        is_action(a, StreamCommand::SetDataStream { node_id }, action),
    ensures
        !a.subscribers.contains_key(node_id@) ==> (action matches StreamAction::Finish {
            node_id: n,
        } && n@ == node_id@),
        a.subscribers.contains_key(node_id@) ==> {
            let g = a.subscribers[node_id@].group_id;
            &&& action matches StreamAction::Replay { node_id: n, replay }
            &&& n@ == node_id@
            &&& replay@.ahead() == (if a.init is Some && (g == 0 || g == a.init->0.group_id) {
                seq![a.init->0]
            } else {
                Seq::<ObjectView>::empty()
            }) + a.buffer.filter(|o: ObjectView| g == 0 || o.group_id == g)
            &&& !replay@.init_is_out
        },
{
    if a.subscribers.contains_key(node_id@) {
        law_replay_in_order(a, a.subscribers[node_id@].group_id);
    }
}

/// Law: what comes of asking again. The node is sent the first object kept under the number,
/// alone, where it has a data stream and asked for the object's group or for all; else nothing.
pub proof fn law_asking_again(
    a: ActorView,
    node_id: NodeId,
    sequence: u64,
    i: int,
    action: StreamAction,
)
    requires
        is_action(a, StreamCommand::RequestRetransmission { node_id, sequence }, action),
    ensures
        (forall|j: int| 0 <= j < a.buffer.len() ==> (#[trigger] a.buffer[j]).sequence != sequence)
            ==> action is Nothing,
        0 <= i < a.buffer.len() && a.buffer[i].sequence == sequence && (forall|j: int|
            0 <= j < i ==> (#[trigger] a.buffer[j]).sequence != sequence) ==> if a.subscribers.contains_key(
            node_id@,
        ) && a.subscribers[node_id@].has_stream && (a.subscribers[node_id@].group_id == 0
            || a.subscribers[node_id@].group_id == a.buffer[i].group_id) {
            &&& action matches StreamAction::Send { object, to }
            &&& object@ == a.buffer[i]
            &&& ids(to@) == seq![node_id@]
        } else {
            action is Nothing
        },
{
    law_when_sent_again(a, node_id@, sequence, i);
}

/// Law: the data stream of a node that subscribes anew or unsubscribes is let go of.
pub proof fn law_streams_are_let_go(
    a: ActorView,
    node_id: NodeId,
    group_id: u32,
    first: StreamAction,
    second: StreamAction,
)
    requires
        is_action(a, StreamCommand::Subscribe { node_id, group_id }, first),
        is_action(a, StreamCommand::Unsubscribe(node_id), second),
    ensures
        first matches StreamAction::Release { node_id: n } && n@ == node_id@,
        second matches StreamAction::Release { node_id: n } && n@ == node_id@,
{
}

/// Law: what a loss does to a replay. A lost initialization segment costs nothing else; after any
/// other loss nothing of the kept objects is sent.
pub proof fn law_what_a_loss_does(v: ReplayView)
    ensures
        v.init_is_out ==> after_loss(v).ahead() == v.ahead(),
        !v.init_is_out ==> after_loss(v).objects.len() == 0 && after_loss(v).init == v.init,
{
}

/// Law: a replay hands out, in order and without a gap, the initialization segment, if there is
/// one, and then the objects, and ends where nothing is left. It knows whether the last was the
/// initialization segment.
pub proof fn law_handed_out_in_order(before: ReplayView, r: Option<ObjectView>, after: ReplayView)
    requires
        is_handed_out(before, r, after),
    ensures
        r is None <==> before.init is None && before.objects.len() == 0,
        before.init is Some ==> r == before.init && after.init is None && after.objects
            == before.objects && after.init_is_out,
        before.init is None && before.objects.len() > 0 ==> r == Some(before.objects[0])
            && after.init is None && after.objects == before.objects.skip(1) && !after.init_is_out,
        r is None ==> after.objects.len() == 0 && after.init is None,
{
}

} // verus!
