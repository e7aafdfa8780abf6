//! The actor that drives a subscription: connect, open a control stream, subscribe, wait for
//! the confirmation, open a data stream, deliver what arrives.
//!
//! The actor decides; whoever drives it connects, sends, and reports back.

use crate::buffer::{contents, has_room};
use crate::proto::announce::AnnouncementView;
use crate::proto::control::{subscribe_message, SubscribeView};
use crate::proto::media::{MediaInitView, VideoChunkView};
use crate::proto::{
    serialize_subscribe, MediaInit, MoqObject, ObjectView, StreamAnnouncement, VideoChunk,
    MEDIA_TYPE_INIT, MEDIA_TYPE_VIDEO,
};
use crate::text::{chars_of, index_of, push_text, string_of, until};
use bytes::BytesMut;
use vstd::prelude::*;
use vstd::utf8::encode_utf8;

verus! {

/// How far a subscription has come.
#[derive(Debug)]
pub enum SubscriberState {
    /// Nothing has been done yet.
    Initial,
    /// A connection to the publisher is being made or is there.
    Connecting,
    /// The control stream is there.
    ControlStreamEstablished,
    /// The request is out, the confirmation is not in.
    Subscribing,
    /// The publisher has confirmed.
    Subscribed,
    /// Something went wrong.
    Error(String),
    /// It is over, with the reason.
    Terminated(String),
}

/// The state, as mathematical values.
#[verifier::ext_equal]
pub enum SubscriberStateView {
    Initial,
    Connecting,
    ControlStreamEstablished,
    Subscribing,
    Subscribed,
    Error(Seq<char>),
    Terminated(Seq<char>),
}

impl View for SubscriberState {
    type V = SubscriberStateView;

    open spec fn view(&self) -> SubscriberStateView {
        match self {
            SubscriberState::Initial => SubscriberStateView::Initial,
            SubscriberState::Connecting => SubscriberStateView::Connecting,
            SubscriberState::ControlStreamEstablished => {
                SubscriberStateView::ControlStreamEstablished
            },
            SubscriberState::Subscribing => SubscriberStateView::Subscribing,
            SubscriberState::Subscribed => SubscriberStateView::Subscribed,
            SubscriberState::Error(e) => SubscriberStateView::Error(e@),
            SubscriberState::Terminated(e) => SubscriberStateView::Terminated(e@),
        }
    }
}

/// What the actor is told to do.
#[derive(Debug)]
pub enum SubscriberCommand {
    Connect,
    OpenControlStream,
    Subscribe,
    OpenDataStream,
    SubscribeOk,
    ProcessObject(MoqObject),
    RequestRetransmission(u64),
    /// Ends the subscription, with the reason.
    Terminate(String),
}

/// What is to be done because of a command.
#[derive(Debug)]
pub enum SubscriberAction {
    /// Connect to the publisher, and report.
    Connect,
    /// Open the control stream, and report.
    OpenControlStream,
    /// Register with the engine and send the request, and report.
    Subscribe,
    /// Open the data stream, and report.
    OpenDataStream,
    /// Give this command to the actor next.
    Next(SubscriberCommand),
    /// Hand the initialization data to the application.
    DeliverInit(MediaInit),
    /// Hand the chunk to the application.
    DeliverChunk(VideoChunk),
    /// The object is of no known group.
    UnknownGroup(u32),
    /// The command does not fit the state.
    Invalid,
    /// The subscription is over, and the command comes too late.
    Ignored,
    /// The subscription ends now. Nothing more is to be handled.
    Stop,
}

/// How the last action came out.
#[derive(Debug)]
pub enum SubscriberEvent {
    Connected,
    ControlStreamOpened,
    SubscribeSent,
    DataStreamOpened,
    /// With the reason.
    Failed(String),
}

/// The state after a command.
pub open spec fn after_command(
    s: SubscriberStateView,
    c: SubscriberCommand,
) -> SubscriberStateView {
    match (s, c) {
        (_, SubscriberCommand::Terminate(reason)) => SubscriberStateView::Terminated(reason@),
        (SubscriberStateView::Initial, SubscriberCommand::Connect) => {
            SubscriberStateView::Connecting
        },
        (SubscriberStateView::Subscribing, SubscriberCommand::SubscribeOk) => {
            SubscriberStateView::Subscribed
        },
        _ => s,
    }
}

/// The state after a report.
pub open spec fn after_event(s: SubscriberStateView, e: SubscriberEvent) -> SubscriberStateView {
    match e {
        SubscriberEvent::Connected => s,
        SubscriberEvent::ControlStreamOpened => SubscriberStateView::ControlStreamEstablished,
        SubscriberEvent::SubscribeSent => SubscriberStateView::Subscribing,
        SubscriberEvent::DataStreamOpened => SubscriberStateView::Subscribed,
        SubscriberEvent::Failed(reason) => SubscriberStateView::Terminated(reason@),
    }
}

/// What is reported where an action succeeds.
pub open spec fn success_of(action: SubscriberAction) -> Option<SubscriberEvent> {
    match action {
        SubscriberAction::Connect => Some(SubscriberEvent::Connected),
        SubscriberAction::OpenControlStream => Some(SubscriberEvent::ControlStreamOpened),
        SubscriberAction::Subscribe => Some(SubscriberEvent::SubscribeSent),
        SubscriberAction::OpenDataStream => Some(SubscriberEvent::DataStreamOpened),
        _ => None,
    }
}

/// The command that a report calls for.
pub open spec fn next_command(e: SubscriberEvent) -> Option<SubscriberCommand> {
    match e {
        SubscriberEvent::Connected => Some(SubscriberCommand::OpenControlStream),
        SubscriberEvent::ControlStreamOpened => Some(SubscriberCommand::Subscribe),
        _ => None,
    }
}

/// The video chunk that a received object stands for. The duration and the dependency do not
/// travel.
pub open spec fn chunk_of(o: ObjectView) -> VideoChunkView {
    VideoChunkView {
        timestamp: o.timestamp,
        duration: 0,
        is_keyframe: o.priority >= 200,
        dependency_sequence: None,
        data: o.data,
    }
}

/// The initialization data that a received segment stands for, with what the announcement of
/// the stream says.
pub open spec fn init_of(a: AnnouncementView, o: ObjectView) -> MediaInitView {
    MediaInitView {
        codec: a.codec,
        mime_type: "video/"@ + until(a.codec, '.'),
        width: a.resolution.0,
        height: a.resolution.1,
        frame_rate: a.framerate,
        bitrate: a.bitrate,
        init_segment: o.data,
    }
}

/// What is asked for to subscribe to an announced stream.
pub open spec fn request_for(a: AnnouncementView) -> SubscribeView {
    SubscribeView {
        stream_id: a.stream_id,
        namespace: a.namespace,
        start_sequence: 0,
        group_id: 0,
        priority: 255,
    }
}

/// Whether the action is the right one for a received object.
pub open spec fn is_delivery(
    a: AnnouncementView,
    o: ObjectView,
    action: SubscriberAction,
) -> bool {
    if o.group_id == MEDIA_TYPE_INIT {
        action matches SubscriberAction::DeliverInit(init) && init@ == init_of(a, o)
    } else if o.group_id == MEDIA_TYPE_VIDEO {
        action matches SubscriberAction::DeliverChunk(chunk) && chunk@ == chunk_of(o)
    } else {
        action == SubscriberAction::UnknownGroup(o.group_id)
    }
}

/// Whether the action is the right one for a command.
pub open spec fn is_action(
    s: SubscriberStateView,
    a: AnnouncementView,
    c: SubscriberCommand,
    action: SubscriberAction,
) -> bool {
    match (s, c) {
        (_, SubscriberCommand::Terminate(_)) => action is Stop,
        (SubscriberStateView::Error(_), _) => action is Ignored,
        (SubscriberStateView::Terminated(_), _) => action is Ignored,
        (SubscriberStateView::Initial, SubscriberCommand::Connect) => action is Connect,
        (SubscriberStateView::Connecting, SubscriberCommand::OpenControlStream) => {
            action is OpenControlStream
        },
        (SubscriberStateView::ControlStreamEstablished, SubscriberCommand::Subscribe) => {
            action is Subscribe
        },
        (SubscriberStateView::Subscribing, SubscriberCommand::SubscribeOk) => {
            action matches SubscriberAction::Next(next) && next is OpenDataStream
        },
        (SubscriberStateView::Subscribed, SubscriberCommand::OpenDataStream) => {
            action is OpenDataStream
        },
        (SubscriberStateView::Subscribed, SubscriberCommand::ProcessObject(o)) => is_delivery(
            a,
            o@,
            action,
        ),
        _ => action is Invalid,
    }
}

/// Converts a received object to a video chunk.
pub fn object_to_video_chunk(object: &MoqObject) -> (chunk: VideoChunk)
    ensures
        chunk@ == chunk_of(object@),
        chunk.timestamp == object.timestamp,
        chunk.data@ == object.data@,
        chunk.is_keyframe == (object.priority >= 200),
{
    let data = object.data.clone();
    assert(data@ =~= object.data@);
    VideoChunk {
        timestamp: object.timestamp,
        duration: 0,
        is_keyframe: object.priority >= 200,
        dependency_sequence: None,
        data,
    }
}

/// The state of a subscription and what it is a subscription to.
#[derive(Debug)]
pub struct SubscriberActor {
    state: SubscriberState,
    announcement: StreamAnnouncement,
}

impl SubscriberActor {
    /// The state.
    pub closed spec fn state(&self) -> SubscriberStateView {
        self.state@
    }

    /// The stream, as it was announced.
    pub closed spec fn stream(&self) -> AnnouncementView {
        self.announcement@
    }

    /// A subscription that has not begun, and the command that begins it.
    pub fn new(announcement: StreamAnnouncement) -> (r: (Self, SubscriberCommand))
        ensures
            r.0.state() is Initial,
            r.0.stream() == announcement@,
            r.1 is Connect,
    {
        (SubscriberActor { state: SubscriberState::Initial, announcement }, SubscriberCommand::Connect)
    }

    /// The announcement of the stream.
    pub fn announcement(&self) -> (a: &StreamAnnouncement)
        ensures
            a@ == self.stream(),
    {
        &self.announcement
    }

    /// The state.
    pub fn current(&self) -> (s: &SubscriberState)
        ensures
            s@ == self.state(),
    {
        &self.state
    }

    /// Handles a received object.
    pub fn handle_process_object(&self, object: MoqObject) -> (action: SubscriberAction)
        ensures
            is_delivery(self.stream(), object@, action),
            object.group_id == 0 ==> (action matches SubscriberAction::DeliverInit(init)
                && init.init_segment@ == object.data@),
            object.group_id == 1 ==> (action matches SubscriberAction::DeliverChunk(chunk)
                && chunk.data@ == object.data@ && chunk.timestamp == object.timestamp),
    {
        if object.group_id == MEDIA_TYPE_INIT as u32 {
            let chars = chars_of(self.announcement.codec.as_str());
            let end = index_of(&chars, '.');
            let family = string_of(&chars, 0, end);
            assert(chars@.subrange(0, end as int) =~= chars@.take(end as int));
            let mut mime_type = "video/".to_string();
            push_text(&mut mime_type, family.as_str());
            SubscriberAction::DeliverInit(
                MediaInit {
                    codec: self.announcement.codec.clone(),
                    mime_type,
                    width: self.announcement.resolution.0,
                    height: self.announcement.resolution.1,
                    frame_rate: self.announcement.framerate,
                    bitrate: self.announcement.bitrate,
                    init_segment: object.data,
                },
            )
        } else if object.group_id == MEDIA_TYPE_VIDEO as u32 {
            SubscriberAction::DeliverChunk(object_to_video_chunk(&object))
        } else {
            SubscriberAction::UnknownGroup(object.group_id)
        }
    }

    /// Handles one command.
    pub fn handle(&mut self, command: SubscriberCommand) -> (action: SubscriberAction)
        ensures
            final(self).state() == after_command(old(self).state(), command),
            final(self).stream() == old(self).stream(),
            is_action(old(self).state(), old(self).stream(), command, action),
    {
        let command = match command {
            SubscriberCommand::Terminate(reason) => {
                self.state = SubscriberState::Terminated(reason);
                return SubscriberAction::Stop;
            },
            command => command,
        };
        match &self.state {
            SubscriberState::Initial => match command {
                SubscriberCommand::Connect => {
                    self.state = SubscriberState::Connecting;
                    SubscriberAction::Connect
                },
                _ => SubscriberAction::Invalid,
            },
            SubscriberState::Connecting => match command {
                SubscriberCommand::OpenControlStream => SubscriberAction::OpenControlStream,
                _ => SubscriberAction::Invalid,
            },
            SubscriberState::ControlStreamEstablished => match command {
                SubscriberCommand::Subscribe => SubscriberAction::Subscribe,
                _ => SubscriberAction::Invalid,
            },
            SubscriberState::Subscribing => match command {
                SubscriberCommand::SubscribeOk => {
                    self.state = SubscriberState::Subscribed;
                    SubscriberAction::Next(SubscriberCommand::OpenDataStream)
                },
                _ => SubscriberAction::Invalid,
            },
            SubscriberState::Subscribed => match command {
                SubscriberCommand::OpenDataStream => SubscriberAction::OpenDataStream,
                SubscriberCommand::ProcessObject(object) => self.handle_process_object(object),
                _ => SubscriberAction::Invalid,
            },
            SubscriberState::Error(_) | SubscriberState::Terminated(_) => {
                SubscriberAction::Ignored
            },
        }
    }

    /// Takes a report, and says which command comes next, if one does.
    pub fn report(&mut self, event: SubscriberEvent) -> (next: Option<SubscriberCommand>)
        ensures
            final(self).state() == after_event(old(self).state(), event),
            final(self).stream() == old(self).stream(),
            next == next_command(event),
    {
        match event {
            SubscriberEvent::Connected => Some(SubscriberCommand::OpenControlStream),
            SubscriberEvent::ControlStreamOpened => {
                self.state = SubscriberState::ControlStreamEstablished;
                Some(SubscriberCommand::Subscribe)
            },
            SubscriberEvent::SubscribeSent => {
                self.state = SubscriberState::Subscribing;
                None
            },
            SubscriberEvent::DataStreamOpened => {
                self.state = SubscriberState::Subscribed;
                None
            },
            SubscriberEvent::Failed(reason) => {
                self.state = SubscriberState::Terminated(reason);
                None
            },
        }
    }

    /// The request for the stream: from its start, all groups, with the highest priority.
    pub fn subscribe_request(&self) -> (message: BytesMut)
        requires
            has_room(encode_utf8(self.stream().namespace).len(), 32),
        ensures
            contents(message) == subscribe_message(request_for(self.stream())),
    {
        serialize_subscribe(
            self.announcement.stream_id,
            self.announcement.namespace.as_str(),
            0,
            0,
            255,
        )
    }
}

/// Law: once a subscription is over, no command brings it back.
pub proof fn law_terminated_stays(s: SubscriberStateView, c: SubscriberCommand)
    requires
        s is Terminated,
    ensures
        after_command(s, c) is Terminated,
{
}

/// Law: objects reach the application only while the subscription is confirmed.
pub proof fn law_delivery_only_when_subscribed(
    s: SubscriberStateView,
    a: AnnouncementView,
    c: SubscriberCommand,
    action: SubscriberAction,
)
    requires
        is_action(s, a, c, action),
        action is DeliverInit || action is DeliverChunk,
    ensures
        s is Subscribed,
        after_command(s, c) is Subscribed,
        c is ProcessObject,
{
}

/// Law: the actor never turns down a command that it called for itself. Where an action
/// succeeds, or the actor asks for a command right away, that command fits the state that the
/// actor is in by then.
pub proof fn law_own_commands_fit(
    s: SubscriberStateView,
    a: AnnouncementView,
    c: SubscriberCommand,
    action: SubscriberAction,
    next: SubscriberCommand,
    by_then: SubscriberStateView,
    response: SubscriberAction,
)
    requires
        is_action(s, a, c, action),
        ({
            ||| success_of(action) matches Some(e) && next_command(e) == Some(next) && by_then
                == after_event(after_command(s, c), e)
            ||| action == SubscriberAction::Next(next) && by_then == after_command(s, c)
        }),
        is_action(by_then, a, next, response),
    ensures
        !(response is Invalid),
        !(response is Ignored),
{
}

/// Law: what the application gets of a received object. A segment of group 0 comes out as
/// initialization data, byte for byte, with what was announced of the stream, and with a type made
/// of `video/` and the codec up to its first dot. An object of group 1 comes out as a chunk with
/// its time and its bytes, a keyframe where the priority is 200 or more. Of any other object only
/// the group is reported.
pub proof fn law_delivered_as_received(a: AnnouncementView, o: ObjectView, action: SubscriberAction)
    requires
        is_delivery(a, o, action),
    ensures
        o.group_id == 0 ==> {
            &&& action matches SubscriberAction::DeliverInit(init)
            &&& init.init_segment@ == o.data
            &&& init.codec@ == a.codec
            &&& init.width == a.resolution.0
            &&& init.height == a.resolution.1
            &&& init.frame_rate == a.framerate
            &&& init.bitrate == a.bitrate
            &&& exists|k: int|
                {
                    &&& 0 <= k <= a.codec.len()
                    &&& init.mime_type@ == "video/"@ + #[trigger] a.codec.take(k)
                    &&& forall|j: int| 0 <= j < k ==> a.codec[j] != '.'
                    &&& k == a.codec.len() || a.codec[k] == '.'
                }
        },
        o.group_id == 1 ==> {
            &&& action matches SubscriberAction::DeliverChunk(chunk)
            &&& chunk.timestamp == o.timestamp
            &&& chunk.data@ == o.data
            &&& chunk.is_keyframe == (o.priority >= 200)
            &&& chunk.duration == 0
            &&& chunk.dependency_sequence is None
        },
        o.group_id > 1 ==> action == SubscriberAction::UnknownGroup(o.group_id),
{
    crate::text::law_until_is_up_to_the_first(a.codec, '.');
}

/// Law: a received object is handed out in full and by itself while the subscription is
/// confirmed, and never otherwise.
pub proof fn law_objects_go_to_the_application(
    s: SubscriberStateView,
    a: AnnouncementView,
    object: MoqObject,
    action: SubscriberAction,
)
    requires
        is_action(s, a, SubscriberCommand::ProcessObject(object), action),
    ensures
        s is Subscribed ==> is_delivery(a, object@, action),
        s is Error || s is Terminated ==> action is Ignored,
        s is Initial || s is Connecting || s is ControlStreamEstablished || s is Subscribing
            ==> action is Invalid,
{
}

/// Law: each step of a subscription is taken in one state and on one command, and in no other.
pub proof fn law_steps_in_their_order(
    s: SubscriberStateView,
    a: AnnouncementView,
    c: SubscriberCommand,
    action: SubscriberAction,
)
    requires
        is_action(s, a, c, action),
    ensures
        action is Connect <==> s is Initial && c is Connect,
        action is OpenControlStream <==> s is Connecting && c is OpenControlStream,
        action is Subscribe <==> s is ControlStreamEstablished && c is Subscribe,
        action is OpenDataStream <==> s is Subscribed && c is OpenDataStream,
        action is Next <==> s is Subscribing && c is SubscribeOk,
        action matches SubscriberAction::Next(next) ==> next is OpenDataStream,
        action is DeliverInit || action is DeliverChunk || action is UnknownGroup <==> s
            is Subscribed && c is ProcessObject,
        action is Stop <==> c is Terminate,
        action is Ignored <==> (s is Error || s is Terminated) && !(c is Terminate),
{
}

/// Law: which commands change the state, and to what. Ending the subscription always does, with
/// the reason; connecting does at the start; the confirmation does while it is waited for.
pub proof fn law_commands_that_change_the_state(s: SubscriberStateView, c: SubscriberCommand)
    ensures
        c matches SubscriberCommand::Terminate(reason) ==> after_command(s, c)
            == SubscriberStateView::Terminated(reason@),
        s is Initial && c is Connect ==> after_command(s, c) is Connecting,
        s is Subscribing && c is SubscribeOk ==> after_command(s, c) is Subscribed,
        !(c is Terminate) && !(s is Initial && c is Connect) && !(s is Subscribing && c
            is SubscribeOk) ==> after_command(s, c) == s,
{
}

/// Law: what a report changes, and which command it calls for. A connection calls for the control
/// stream, the control stream for the request; the request is waited on; a data stream is a
/// confirmed subscription; a failure ends it, with the reason.
pub proof fn law_reports_move_on(s: SubscriberStateView, e: SubscriberEvent)
    ensures
        e is Connected ==> after_event(s, e) == s && next_command(e) == Some(
            SubscriberCommand::OpenControlStream,
        ),
        e is ControlStreamOpened ==> after_event(s, e) is ControlStreamEstablished && next_command(e)
            == Some(SubscriberCommand::Subscribe),
        e is SubscribeSent ==> after_event(s, e) is Subscribing && next_command(e) is None,
        e is DataStreamOpened ==> after_event(s, e) is Subscribed && next_command(e) is None,
        e matches SubscriberEvent::Failed(reason) ==> after_event(s, e)
            == SubscriberStateView::Terminated(reason@) && next_command(e) is None,
{
}

/// Law: the state is shown as it is.
pub proof fn law_state_is_shown(s: SubscriberState)
    ensures
        s is Initial <==> s@ is Initial,
        s is Connecting <==> s@ is Connecting,
        s is ControlStreamEstablished <==> s@ is ControlStreamEstablished,
        s is Subscribing <==> s@ is Subscribing,
        s is Subscribed <==> s@ is Subscribed,
        s matches SubscriberState::Error(e) ==> s@ == SubscriberStateView::Error(e@),
        s matches SubscriberState::Terminated(e) ==> s@ == SubscriberStateView::Terminated(e@),
{
}

/// Law: a subscription asks for the announced stream in its namespace, from the start, for all
/// groups, and with the highest priority.
pub proof fn law_what_is_asked_for(a: AnnouncementView)
    ensures
        request_for(a).stream_id == a.stream_id,
        request_for(a).namespace == a.namespace,
        request_for(a).start_sequence == 0,
        request_for(a).group_id == 0,
        request_for(a).priority == 255,
{
}

} // verus!
