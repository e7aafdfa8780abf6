//! The state of a node's connection, as its application sees it.

use crate::ids::{NodeId, StreamId};
use crate::text::same_text;
use vstd::prelude::*;

verus! {

/// How far a connection has come.
#[derive(Debug)]
pub enum ConnectionState {
    WaitingForPeer,
    Connected(NodeId),
    Ready { node_id: NodeId, stream_id: StreamId, namespace: String },
}

/// The state, as mathematical values.
#[verifier::ext_equal]
pub enum ConnectionStateView {
    WaitingForPeer,
    Connected(Seq<u8>),
    Ready { node_id: Seq<u8>, stream_id: Seq<u8>, namespace: Seq<char> },
}

impl View for ConnectionState {
    type V = ConnectionStateView;

    open spec fn view(&self) -> ConnectionStateView {
        match self {
            ConnectionState::WaitingForPeer => ConnectionStateView::WaitingForPeer,
            ConnectionState::Connected(node_id) => ConnectionStateView::Connected(node_id@),
            ConnectionState::Ready { node_id, stream_id, namespace } => {
                ConnectionStateView::Ready {
                    node_id: node_id@,
                    stream_id: stream_id@,
                    namespace: namespace@,
                }
            },
        }
    }
}

impl Clone for ConnectionState {
    fn clone(&self) -> (r: Self)
        ensures
            r@ == self@,
    {
        match self {
            ConnectionState::WaitingForPeer => ConnectionState::WaitingForPeer,
            ConnectionState::Connected(node_id) => ConnectionState::Connected(*node_id),
            ConnectionState::Ready { node_id, stream_id, namespace } => ConnectionState::Ready {
                node_id: *node_id,
                stream_id: *stream_id,
                namespace: namespace.clone(),
            },
        }
    }
}

impl ConnectionState {
    /// Whether two states are the same.
    pub fn same(&self, other: &ConnectionState) -> (b: bool)
        ensures
            b == (self@ == other@),
    {
        match (self, other) {
            (ConnectionState::WaitingForPeer, ConnectionState::WaitingForPeer) => true,
            (ConnectionState::Connected(a), ConnectionState::Connected(b)) => a.same(b),
            (
                ConnectionState::Ready { node_id: n, stream_id: s, namespace: t },
                ConnectionState::Ready { node_id: m, stream_id: u, namespace: v },
            ) => n.same(m) && s.same(u) && same_text(t, v),
            _ => false,
        }
    }
}

/// What happens to a connection.
#[derive(Debug)]
pub enum ConnectionEvent {
    PeerConnected(NodeId),
    StreamReady { node_id: NodeId, stream_id: StreamId, namespace: String },
}

impl ConnectionEvent {
    /// The state that an event leads to.
    pub open spec fn leads_to(&self) -> ConnectionStateView {
        match self {
            ConnectionEvent::PeerConnected(node_id) => ConnectionStateView::Connected(node_id@),
            ConnectionEvent::StreamReady { node_id, stream_id, namespace } => {
                ConnectionStateView::Ready {
                    node_id: node_id@,
                    stream_id: stream_id@,
                    namespace: namespace@,
                }
            },
        }
    }

    /// The state that the event leads to.
    pub fn state(self) -> (s: ConnectionState)
        ensures
            s@ == self.leads_to(),
    {
        match self {
            ConnectionEvent::PeerConnected(node_id) => ConnectionState::Connected(node_id),
            ConnectionEvent::StreamReady { node_id, stream_id, namespace } => {
                ConnectionState::Ready { node_id, stream_id, namespace }
            },
        }
    }
}

/// Whether going from one state to another is told as `news`.
pub open spec fn is_told(
    before: ConnectionStateView,
    after: ConnectionStateView,
    news: Option<ConnectionState>,
) -> bool {
    match news {
        Some(told) => before != after && told@ == after,
        None => before == after,
    }
}

/// Keeps the state and tells news from repetition.
#[derive(Debug)]
pub struct ConnectionTracker {
    current: ConnectionState,
}

impl View for ConnectionTracker {
    type V = ConnectionStateView;

    closed spec fn view(&self) -> ConnectionStateView {
        self.current@
    }
}

impl ConnectionTracker {
    /// At first there is no peer.
    pub fn new() -> (t: Self)
        ensures
            t@ == ConnectionStateView::WaitingForPeer,
    {
        ConnectionTracker { current: ConnectionState::WaitingForPeer }
    }

    /// The state.
    pub fn current(&self) -> (s: &ConnectionState)
        ensures
            s@ == self@,
    {
        &self.current
    }

    /// Takes a new state. Whoever watches the connection is to be told of it if and only if it
    /// differs from the one before.
    pub fn update_connection_state(&mut self, state: ConnectionState) -> (news: Option<
        ConnectionState,
    >)
        ensures
            final(self)@ == state@,
            is_told(old(self)@, state@, news),
            match news {
                Some(told) => old(self)@ != state@ && told@ == state@,
                None => old(self)@ == state@,
            },
    {
        if self.current.same(&state) {
            None
        } else {
            self.current = state.clone();
            Some(state)
        }
    }

    /// Takes an event, as `update_connection_state` takes the state that it leads to.
    pub fn signal_connection_event(&mut self, event: ConnectionEvent) -> (news: Option<
        ConnectionState,
    >)
        ensures
            final(self)@ == event.leads_to(),
            is_told(old(self)@, event.leads_to(), news),
            match news {
                Some(told) => old(self)@ != event.leads_to() && told@ == event.leads_to(),
                None => old(self)@ == event.leads_to(),
            },
    {
        let state = event.state();
        self.update_connection_state(state)
    }
}

/// Law: a peer that connects makes the connection connected to that peer; a stream that is ready
/// makes it ready for that stream, in that namespace, with that peer.
pub proof fn law_events_lead_where_they_say(event: ConnectionEvent)
    ensures
        event matches ConnectionEvent::PeerConnected(node) ==> event.leads_to()
            == ConnectionStateView::Connected(node.bytes@),
        event matches ConnectionEvent::StreamReady { node_id, stream_id, namespace } ==> {
            &&& event.leads_to() matches ConnectionStateView::Ready {
                node_id: n,
                stream_id: s,
                namespace: ns,
            }
            &&& n == node_id.bytes@
            &&& s == stream_id.bytes@
            &&& ns == namespace@
        },
{
}

/// Law: the state is shown as it is.
pub proof fn law_state_is_shown(s: ConnectionState)
    ensures
        s is WaitingForPeer <==> s@ is WaitingForPeer,
        s matches ConnectionState::Connected(node) ==> s@ == ConnectionStateView::Connected(
            node.bytes@,
        ),
        s matches ConnectionState::Ready { node_id, stream_id, namespace } ==> {
            &&& s@ matches ConnectionStateView::Ready { node_id: n, stream_id: i, namespace: ns }
            &&& n == node_id.bytes@
            &&& i == stream_id.bytes@
            &&& ns == namespace@
        },
{
}

/// Law: whoever watches is told of every change, with the new state, and of nothing else.
pub proof fn law_every_change_is_told(
    before: ConnectionStateView,
    after: ConnectionStateView,
    news: Option<ConnectionState>,
)
    requires
        is_told(before, after, news),
    ensures
        news is Some <==> before != after,
        news matches Some(told) ==> told@ == after,
{
}

} // verus!
