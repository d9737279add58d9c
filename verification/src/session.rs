//! One session per connected participant: translates inbound transport
//! frames into messages to the room coordinator, and coordinator events
//! back into outbound frames.
//!
//! The session is a three-state machine, `Connecting -> Active ->
//! Closed`.  On becoming active it registers with the coordinator; while
//! active it relays decoded data frames; on closing it deregisters
//! exactly once, however often the close is signalled.

use vstd::prelude::*;

use crate::codec::{
    control_frame, encode_control_frame, encode_relay_frame, parse_data_frame, relay_frame,
    ControlAction,
};
use crate::messages::{EventView, HubMsg, MsgView, PeerEvent};

verus! {

/// The lifecycle state of a session.
#[derive(Clone, Copy, PartialEq, Eq, Structural, Debug)]
pub enum SessionState {
    /// Created; not yet registered with the coordinator.
    Connecting,
    /// Registered; frames are relayed.
    Active,
    /// Terminal; the disconnect has been sent.
    Closed,
}

/// An inbound transport frame, as the session sees it.
pub enum InboundFrame {
    /// A keepalive probe carrying its echo payload.
    Ping(Vec<u8>),
    /// The answer to a keepalive probe.
    Pong(Vec<u8>),
    /// A text frame; the hub expects no inbound text and ignores it.
    Text(Vec<u8>),
    /// A binary data frame: flag byte, then the video payload.
    Binary(Vec<u8>),
    /// A continuation frame; the hub accepts none.
    Continuation,
    /// The peer closed the connection.
    Close,
    /// Anything else the transport hands over, a transport error
    /// included.
    Other,
}

/// Mathematical view of an [`InboundFrame`].
pub enum FrameView {
    Ping(Seq<u8>),
    Pong(Seq<u8>),
    Text(Seq<u8>),
    Binary(Seq<u8>),
    Continuation,
    Close,
    Other,
}

impl View for InboundFrame {
    type V = FrameView;

    open spec fn view(&self) -> FrameView {
        match self {
            InboundFrame::Ping(p) => FrameView::Ping(p@),
            InboundFrame::Pong(p) => FrameView::Pong(p@),
            InboundFrame::Text(p) => FrameView::Text(p@),
            InboundFrame::Binary(p) => FrameView::Binary(p@),
            InboundFrame::Continuation => FrameView::Continuation,
            InboundFrame::Close => FrameView::Close,
            InboundFrame::Other => FrameView::Other,
        }
    }
}

/// What the session asks the transport to do in response to a frame.
pub enum SessionAction {
    /// Answer a ping with this payload.
    SendPong(Vec<u8>),
    /// Probe the peer with this payload.
    SendPing(Vec<u8>),
    /// Enqueue this message to the room coordinator.
    ToHub(HubMsg),
    /// Close the connection.
    CloseConnection,
}

/// Mathematical view of a [`SessionAction`].
pub enum ActionView {
    SendPong(Seq<u8>),
    SendPing(Seq<u8>),
    ToHub(MsgView),
    CloseConnection,
}

impl View for SessionAction {
    type V = ActionView;

    open spec fn view(&self) -> ActionView {
        match self {
            SessionAction::SendPong(p) => ActionView::SendPong(p@),
            SessionAction::SendPing(p) => ActionView::SendPing(p@),
            SessionAction::ToHub(m) => ActionView::ToHub(m@),
            SessionAction::CloseConnection => ActionView::CloseConnection,
        }
    }
}

/// The views of a sequence of session actions, in order.
pub open spec fn action_views(a: Seq<SessionAction>) -> Seq<ActionView> {
    a.map_values(|x: SessionAction| x@)
}

/// An outbound transport frame.
pub enum OutboundFrame {
    /// A binary relay frame.
    Binary(Vec<u8>),
    /// A control message; the bytes are ASCII JSON.
    Text(Vec<u8>),
}

/// Mathematical view of an [`OutboundFrame`].
pub enum OutFrameView {
    Binary(Seq<u8>),
    Text(Seq<u8>),
}

impl View for OutboundFrame {
    type V = OutFrameView;

    open spec fn view(&self) -> OutFrameView {
        match self {
            OutboundFrame::Binary(p) => OutFrameView::Binary(p@),
            OutboundFrame::Text(p) => OutFrameView::Text(p@),
        }
    }
}

/// The actions one inbound frame provokes from an active session; a
/// session in any other state reacts to nothing.  A frame never moves
/// the state by itself: a `CloseConnection` action asks the transport
/// to close, and the close then triggers `on_stop`, which is the one
/// transition into `Closed`.
pub open spec fn frame_actions(st: SessionState, id: u32, f: FrameView) -> Seq<ActionView> {
    if st != SessionState::Active {
        Seq::empty()
    } else {
        match f {
            FrameView::Ping(p) => seq![ActionView::SendPong(p)],
            FrameView::Pong(_) => seq![ActionView::SendPing(Seq::empty())],
            FrameView::Text(_) => Seq::empty(),
            FrameView::Binary(b) => if b.len() == 0 {
                seq![ActionView::CloseConnection]
            } else {
                seq![
                    ActionView::ToHub(
                        MsgView::Relay { id, chunk: parse_data_frame(b).unwrap() },
                    ),
                ]
            },
            FrameView::Continuation => seq![ActionView::CloseConnection],
            FrameView::Close => seq![ActionView::CloseConnection],
            FrameView::Other => seq![ActionView::CloseConnection],
        }
    }
}

/// One participant's session.
pub struct Session {
    id: u32,
    handle: u64,
    state: SessionState,
}

impl Session {
    /// The participant id this session registered under.
    pub closed spec fn spec_id(&self) -> u32 {
        self.id
    }

    /// The handle the coordinator reaches this session through.
    pub closed spec fn spec_handle(&self) -> u64 {
        self.handle
    }

    /// The lifecycle state.
    pub closed spec fn spec_state(&self) -> SessionState {
        self.state
    }

    /// A fresh session for a newly accepted connection: not yet
    /// registered with the coordinator.
    pub fn new(id: u32, handle: u64) -> (r: Session)
        ensures
            r.spec_id() == id,
            r.spec_handle() == handle,
            r.spec_state() == SessionState::Connecting,
    {
        Session { id, handle, state: SessionState::Connecting }
    }

    /// The participant id this session registered under.
    pub fn id(&self) -> (r: u32)
        ensures
            r == self.spec_id(),
    {
        self.id
    }

    /// The lifecycle state.
    pub fn state(&self) -> (r: SessionState)
        ensures
            r == self.spec_state(),
    {
        self.state
    }

    /// The connection is up: the session becomes active and registers
    /// with its room coordinator.  Failure to enqueue the returned
    /// message is tolerated by the caller; the session stays up.
    pub fn on_start(&mut self) -> (msg: HubMsg)
        requires
            old(self).spec_state() == SessionState::Connecting,
        ensures
            final(self).spec_id() == old(self).spec_id(),
            final(self).spec_handle() == old(self).spec_handle(),
            final(self).spec_state() == SessionState::Active,
            msg@ == (MsgView::Connect { id: old(self).spec_id(), handle: old(self).spec_handle() }),
    {
        self.state = SessionState::Active;
        HubMsg::Connect { id: self.id, handle: self.handle }
    }

    /// The connection is going away: the session closes and, the first
    /// time only, hands back the disconnect for its coordinator.  A
    /// session already closed hands back nothing, so the disconnect is
    /// sent exactly once however often the close is signalled.
    pub fn on_stop(&mut self) -> (msg: Option<HubMsg>)
        ensures
            final(self).spec_id() == old(self).spec_id(),
            final(self).spec_handle() == old(self).spec_handle(),
            final(self).spec_state() == SessionState::Closed,
            old(self).spec_state() == SessionState::Closed ==> msg is None,
            old(self).spec_state() != SessionState::Closed ==> msg is Some
                && msg.unwrap()@ == (MsgView::Disconnect { id: old(self).spec_id() }),
    {
        if self.state == SessionState::Closed {
            Option::None
        } else {
            self.state = SessionState::Closed;
            Option::Some(HubMsg::Disconnect { id: self.id })
        }
    }

    /// Reacts to one inbound transport frame, exactly as
    /// `frame_actions` says: a data frame is decoded and relayed; a
    /// malformed or unexpected frame asks for the close of the
    /// connection, and nothing of it reaches the coordinator.
    pub fn handle_frame(&self, frame: InboundFrame) -> (actions: Vec<SessionAction>)
        ensures
            action_views(actions@) == frame_actions(self.spec_state(), self.spec_id(), frame@),
    {
        let mut actions: Vec<SessionAction> = Vec::new();
        if !matches!(self.state, SessionState::Active) {
            proof {
                assert(action_views(actions@) =~= Seq::<ActionView>::empty());
            }
            return actions;
        }
        match frame {
            InboundFrame::Ping(p) => {
                actions.push(SessionAction::SendPong(p));
                proof {
                    assert(action_views(actions@)
                        =~= frame_actions(self.spec_state(), self.id, frame@));
                }
            },
            InboundFrame::Pong(_) => {
                actions.push(SessionAction::SendPing(Vec::new()));
                proof {
                    assert(action_views(actions@)
                        =~= frame_actions(self.spec_state(), self.id, frame@));
                }
            },
            InboundFrame::Text(_) => {
                proof {
                    assert(action_views(actions@) =~= Seq::<ActionView>::empty());
                }
            },
            InboundFrame::Binary(b) => {
                match crate::codec::decode_data_frame(&b) {
                    Result::Ok(chunk) => {
                        actions.push(
                            SessionAction::ToHub(HubMsg::Relay { id: self.id, chunk }),
                        );
                        proof {
                            assert(action_views(actions@)
                                =~= frame_actions(self.spec_state(), self.id, frame@));
                        }
                    },
                    Result::Err(_) => {
                        actions.push(SessionAction::CloseConnection);
                        proof {
                            assert(action_views(actions@)
                                =~= seq![ActionView::CloseConnection]);
                        }
                    },
                }
            },
            InboundFrame::Continuation => {
                actions.push(SessionAction::CloseConnection);
                proof {
                    assert(action_views(actions@) =~= seq![ActionView::CloseConnection]);
                }
            },
            InboundFrame::Close => {
                actions.push(SessionAction::CloseConnection);
                proof {
                    assert(action_views(actions@) =~= seq![ActionView::CloseConnection]);
                }
            },
            InboundFrame::Other => {
                actions.push(SessionAction::CloseConnection);
                proof {
                    assert(action_views(actions@) =~= seq![ActionView::CloseConnection]);
                }
            },
        }
        actions
    }

    /// Encodes one coordinator event into the outbound frame written to
    /// the connection: a relay as the binary relay frame, a join or
    /// leave as the control text.
    pub fn handle_peer_event(&self, ev: PeerEvent) -> (frame: OutboundFrame)
        ensures
            match ev@ {
                EventView::Relay { from, chunk } => frame@ == OutFrameView::Binary(
                    relay_frame(from, chunk),
                ),
                EventView::PeerJoined { id } => frame@ == OutFrameView::Text(
                    control_frame(ControlAction::Connect, id),
                ),
                EventView::PeerLeft { id } => frame@ == OutFrameView::Text(
                    control_frame(ControlAction::Disconnect, id),
                ),
            },
    {
        match ev {
            PeerEvent::Relay { from, chunk } => OutboundFrame::Binary(
                encode_relay_frame(from, &chunk),
            ),
            PeerEvent::PeerJoined { id } => OutboundFrame::Text(
                encode_control_frame(ControlAction::Connect, id),
            ),
            PeerEvent::PeerLeft { id } => OutboundFrame::Text(
                encode_control_frame(ControlAction::Disconnect, id),
            ),
        }
    }
}

/// Protocol-error isolation: an empty inbound binary frame provokes no
/// message to the coordinator, in any state; an active session answers
/// it with the close of its connection as the only action.
pub proof fn lemma_protocol_error_isolation(st: SessionState, id: u32)
    ensures
        forall|k: int| 0 <= k < frame_actions(st, id, FrameView::Binary(Seq::empty())).len()
            ==> !((#[trigger] frame_actions(st, id, FrameView::Binary(Seq::empty()))[k])
            is ToHub),
        st == SessionState::Active ==> frame_actions(st, id, FrameView::Binary(Seq::empty()))
            =~= seq![ActionView::CloseConnection],
{
}

} // verus!
