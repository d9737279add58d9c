//! The values exchanged between sessions and a room coordinator, and the
//! mathematical views the contracts speak of.
//!
//! A delivery is addressed by the participant id of the recipient and by
//! the recipient's handle, an opaque token the surrounding transport maps
//! to the actual connection.

use vstd::prelude::*;

verus! {

/// One compressed video frame: a key-frame flag and an opaque payload.
pub struct VideoChunk {
    pub key_frame: bool,
    pub payload: Vec<u8>,
}

/// Mathematical view of a [`VideoChunk`].
pub struct ChunkView {
    pub key_frame: bool,
    pub payload: Seq<u8>,
}

impl View for VideoChunk {
    type V = ChunkView;

    open spec fn view(&self) -> ChunkView {
        ChunkView { key_frame: self.key_frame, payload: self.payload@ }
    }
}

/// A registry entry: the participant id and the handle of its session.
#[derive(Clone, Copy, PartialEq, Eq, Structural, Debug)]
pub struct Entry {
    pub id: u32,
    pub handle: u64,
}

/// A message a session sends to its room coordinator.
pub enum HubMsg {
    /// Register the session under `id`, reachable through `handle`.
    Connect { id: u32, handle: u64 },
    /// Deregister `id`.
    Disconnect { id: u32 },
    /// Fan the chunk out to every other member of the room.
    Relay { id: u32, chunk: VideoChunk },
}

/// Mathematical view of a [`HubMsg`].
pub enum MsgView {
    Connect { id: u32, handle: u64 },
    Disconnect { id: u32 },
    Relay { id: u32, chunk: ChunkView },
}

impl View for HubMsg {
    type V = MsgView;

    open spec fn view(&self) -> MsgView {
        match self {
            HubMsg::Connect { id, handle } => MsgView::Connect { id: *id, handle: *handle },
            HubMsg::Disconnect { id } => MsgView::Disconnect { id: *id },
            HubMsg::Relay { id, chunk } => MsgView::Relay { id: *id, chunk: chunk@ },
        }
    }
}

/// A message the coordinator sends back to a member session.
pub enum PeerEvent {
    /// A chunk relayed from another participant.
    Relay { from: u32, chunk: VideoChunk },
    /// A participant joined the room.
    PeerJoined { id: u32 },
    /// A participant left the room.
    PeerLeft { id: u32 },
}

/// Mathematical view of a [`PeerEvent`].
pub enum EventView {
    Relay { from: u32, chunk: ChunkView },
    PeerJoined { id: u32 },
    PeerLeft { id: u32 },
}

impl View for PeerEvent {
    type V = EventView;

    open spec fn view(&self) -> EventView {
        match self {
            PeerEvent::Relay { from, chunk } => EventView::Relay { from: *from, chunk: chunk@ },
            PeerEvent::PeerJoined { id } => EventView::PeerJoined { id: *id },
            PeerEvent::PeerLeft { id } => EventView::PeerLeft { id: *id },
        }
    }
}

/// One outbound item of a coordinator step: `event` is to be enqueued to
/// the session registered as `to_id`, reachable through `to_handle`.
pub struct Delivery {
    pub to_id: u32,
    pub to_handle: u64,
    pub event: PeerEvent,
}

/// Mathematical view of a [`Delivery`].
pub struct DeliveryView {
    pub to_id: u32,
    pub to_handle: u64,
    pub event: EventView,
}

impl View for Delivery {
    type V = DeliveryView;

    open spec fn view(&self) -> DeliveryView {
        DeliveryView { to_id: self.to_id, to_handle: self.to_handle, event: self.event@ }
    }
}

/// The views of a sequence of deliveries, in order.
pub open spec fn delivery_views(ds: Seq<Delivery>) -> Seq<DeliveryView> {
    ds.map_values(|d: Delivery| d@)
}

/// Byte-for-byte copy of a payload vector.
pub fn copy_bytes(src: &Vec<u8>) -> (r: Vec<u8>)
    ensures
        r@ == src@,
{
    let mut out: Vec<u8> = Vec::new();
    let mut i: usize = 0;
    while i < src.len()
        invariant
            i <= src.len(),
            out@ == src@.take(i as int),
        decreases src.len() - i,
    {
        out.push(src[i]);
        proof {
            assert(src@.take(i + 1 as int) =~= src@.take(i as int).push(src@[i as int]));
        }
        i = i + 1;
    }
    proof {
        assert(src@.take(src@.len() as int) =~= src@);
    }
    out
}

/// Copy of a chunk with the same view.
pub fn copy_chunk(c: &VideoChunk) -> (r: VideoChunk)
    ensures
        r@ == c@,
{
    VideoChunk { key_frame: c.key_frame, payload: copy_bytes(&c.payload) }
}

/// Copy of a peer event with the same view.
pub fn copy_event(ev: &PeerEvent) -> (r: PeerEvent)
    ensures
        r@ == ev@,
{
    match ev {
        PeerEvent::Relay { from, chunk } => PeerEvent::Relay { from: *from, chunk: copy_chunk(chunk) },
        PeerEvent::PeerJoined { id } => PeerEvent::PeerJoined { id: *id },
        PeerEvent::PeerLeft { id } => PeerEvent::PeerLeft { id: *id },
    }
}

} // verus!
