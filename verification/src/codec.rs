//! Wire representation exchanged with the transport.
//!
//! Inbound data frame: `[flag: 1 byte][payload]`; a non-zero flag marks a
//! key frame; an empty frame is a protocol error.  Outbound relay frame:
//! `[sender id: 4 bytes little-endian][flag: 1 byte][payload]`.  Control
//! events go out as a small JSON text with an action tag and an id.

use vstd::prelude::*;

use crate::messages::{ChunkView, VideoChunk};

verus! {

/// Error signalled to the session on a malformed inbound frame; the
/// session closes the connection instead of forwarding garbage.
#[derive(Clone, Copy, PartialEq, Eq, Structural, Debug)]
pub enum ProtocolError {
    /// The inbound binary frame held no bytes, not even the flag byte.
    EmptyFrame,
}

/// The flag byte a boolean key-frame mark is written as.
pub open spec fn flag_byte(key_frame: bool) -> u8 {
    if key_frame {
        1u8
    } else {
        0u8
    }
}

/// The four little-endian bytes of a sender id.
pub open spec fn le32(x: u32) -> Seq<u8> {
    seq![
        (x & 0xff) as u8,
        ((x >> 8) & 0xff) as u8,
        ((x >> 16) & 0xff) as u8,
        ((x >> 24) & 0xff) as u8,
    ]
}

/// The id four little-endian bytes stand for.
pub open spec fn u32_from_le(b: Seq<u8>) -> u32
    recommends
        b.len() == 4,
{
    (b[0] as u32) | ((b[1] as u32) << 8) | ((b[2] as u32) << 16) | ((b[3] as u32) << 24)
}

/// Reading the four little-endian bytes of an id back gives the id.
pub proof fn lemma_le32_roundtrip(x: u32)
    ensures
        u32_from_le(le32(x)) == x,
{
    let b0 = (x & 0xff) as u8;
    let b1 = ((x >> 8) & 0xff) as u8;
    let b2 = ((x >> 16) & 0xff) as u8;
    let b3 = ((x >> 24) & 0xff) as u8;
    assert((b0 as u32) | ((b1 as u32) << 8) | ((b2 as u32) << 16) | ((b3 as u32) << 24) == x)
        by (bit_vector)
        requires
            b0 == (x & 0xff) as u8,
            b1 == ((x >> 8) & 0xff) as u8,
            b2 == ((x >> 16) & 0xff) as u8,
            b3 == ((x >> 24) & 0xff) as u8,
    ;
}

/// What an inbound data frame parses to: nothing when empty, otherwise
/// the key-frame flag from the leading byte and the rest as payload.
pub open spec fn parse_data_frame(b: Seq<u8>) -> Option<ChunkView> {
    if b.len() == 0 {
        Option::None
    } else {
        Option::Some(ChunkView { key_frame: b[0] != 0u8, payload: b.skip(1) })
    }
}

/// The outbound relay frame for a chunk relayed from `from`.
pub open spec fn relay_frame(from: u32, c: ChunkView) -> Seq<u8> {
    le32(from) + seq![flag_byte(c.key_frame)] + c.payload
}

/// What a relay frame parses to: nothing when shorter than the id and
/// flag, otherwise the sender id, flag and payload.
pub open spec fn parse_relay_frame(b: Seq<u8>) -> Option<(u32, ChunkView)> {
    if b.len() < 5 {
        Option::None
    } else {
        Option::Some(
            (
                u32_from_le(b.subrange(0, 4)),
                ChunkView { key_frame: b[4] != 0u8, payload: b.skip(5) },
            ),
        )
    }
}

/// Frame round-trip: a relay frame encoded from a sender id and a chunk
/// parses back to exactly that sender id and chunk.
pub proof fn lemma_relay_roundtrip(from: u32, c: ChunkView)
    ensures
        parse_relay_frame(relay_frame(from, c)) == Option::Some((from, c)),
{
    let b = relay_frame(from, c);
    assert(b.len() == 5 + c.payload.len());
    assert(b.subrange(0, 4) =~= le32(from));
    lemma_le32_roundtrip(from);
    assert(b[4] == flag_byte(c.key_frame));
    assert(b.skip(5) =~= c.payload);
    if c.key_frame {
        assert(b[4] != 0u8);
    } else {
        assert(b[4] == 0u8);
    }
    assert(parse_relay_frame(b).unwrap().1 =~= c);
}

/// Parses an inbound binary data frame; an empty frame is rejected as a
/// protocol error, exactly when the frame holds no bytes.
pub fn decode_data_frame(b: &Vec<u8>) -> (r: Result<VideoChunk, ProtocolError>)
    ensures
        b@.len() > 0 ==> r is Ok && parse_data_frame(b@) == Option::Some(r.unwrap()@),
        b@.len() == 0 ==> r == Result::<VideoChunk, ProtocolError>::Err(ProtocolError::EmptyFrame),
{
    if b.len() == 0 {
        return Result::Err(ProtocolError::EmptyFrame);
    }
    let key_frame = b[0] != 0;
    let mut payload: Vec<u8> = Vec::new();
    let mut i: usize = 1;
    while i < b.len()
        invariant
            1 <= i <= b@.len(),
            payload@ == b@.subrange(1, i as int),
        decreases b.len() - i,
    {
        payload.push(b[i]);
        proof {
            assert(b@.subrange(1, i + 1 as int) =~= b@.subrange(1, i as int).push(b@[i as int]));
        }
        i = i + 1;
    }
    proof {
        assert(b@.subrange(1, b@.len() as int) =~= b@.skip(1));
    }
    Result::Ok(VideoChunk { key_frame, payload })
}

/// Encodes the relay frame for a chunk relayed from `from`.
pub fn encode_relay_frame(from: u32, chunk: &VideoChunk) -> (r: Vec<u8>)
    ensures
        r@ == relay_frame(from, chunk@),
{
    let mut out: Vec<u8> = Vec::new();
    out.push((from & 0xff) as u8);
    out.push(((from >> 8) & 0xff) as u8);
    out.push(((from >> 16) & 0xff) as u8);
    out.push(((from >> 24) & 0xff) as u8);
    out.push(if chunk.key_frame { 1 } else { 0 });
    proof {
        assert(out@ =~= le32(from) + seq![flag_byte(chunk.key_frame)]);
    }
    let ghost prefix = out@;
    let mut i: usize = 0;
    while i < chunk.payload.len()
        invariant
            i <= chunk.payload@.len(),
            out@ == prefix + chunk.payload@.take(i as int),
        decreases chunk.payload.len() - i,
    {
        out.push(chunk.payload[i]);
        proof {
            assert(chunk.payload@.take(i + 1 as int)
                =~= chunk.payload@.take(i as int).push(chunk.payload@[i as int]));
            assert(prefix + chunk.payload@.take(i + 1 as int)
                =~= (prefix + chunk.payload@.take(i as int)).push(chunk.payload@[i as int]));
        }
        i = i + 1;
    }
    proof {
        assert(chunk.payload@.take(chunk.payload@.len() as int) =~= chunk.payload@);
        assert(prefix + chunk.payload@ =~= relay_frame(from, chunk@));
    }
    out
}

/// Parses a relay frame back into the sender id and the chunk, as a
/// receiving client would; rejects a frame shorter than the id and flag.
pub fn decode_relay_frame(b: &Vec<u8>) -> (r: Option<(u32, VideoChunk)>)
    ensures
        b@.len() >= 5 ==> r is Some && parse_relay_frame(b@)
            == Option::Some((r.unwrap().0, r.unwrap().1@)),
        b@.len() < 5 ==> r is None,
{
    if b.len() < 5 {
        return Option::None;
    }
    let from: u32 = (b[0] as u32) | ((b[1] as u32) << 8) | ((b[2] as u32) << 16)
        | ((b[3] as u32) << 24);
    let key_frame = b[4] != 0;
    let mut payload: Vec<u8> = Vec::new();
    let mut i: usize = 5;
    while i < b.len()
        invariant
            5 <= i <= b@.len(),
            payload@ == b@.subrange(5, i as int),
        decreases b.len() - i,
    {
        payload.push(b[i]);
        proof {
            assert(b@.subrange(5, i + 1 as int) =~= b@.subrange(5, i as int).push(b@[i as int]));
        }
        i = i + 1;
    }
    proof {
        assert(b@.subrange(5, b@.len() as int) =~= b@.skip(5));
        assert(b@.subrange(0, 4)[0] == b@[0]);
        assert(b@.subrange(0, 4)[1] == b@[1]);
        assert(b@.subrange(0, 4)[2] == b@[2]);
        assert(b@.subrange(0, 4)[3] == b@[3]);
    }
    Option::Some((from, VideoChunk { key_frame, payload }))
}

/// The decimal digits of `n`, as ASCII bytes, most significant first.
pub open spec fn dec_rep(n: nat) -> Seq<u8>
    decreases n,
{
    if n < 10 {
        seq![(48 + n) as u8]
    } else {
        dec_rep(n / 10).push((48 + n % 10) as u8)
    }
}

/// Appends the decimal digits of `n` to `out`.
fn push_dec(out: &mut Vec<u8>, n: u32)
    ensures
        final(out)@ == old(out)@ + dec_rep(n as nat),
    decreases n,
{
    if n < 10 {
        out.push(48 + n as u8);
        proof {
            assert(old(out)@ + dec_rep(n as nat) =~= old(out)@.push((48 + n as nat) as u8));
        }
    } else {
        push_dec(out, n / 10);
        out.push(48 + (n % 10) as u8);
        proof {
            assert(old(out)@ + dec_rep(n as nat)
                =~= (old(out)@ + dec_rep((n / 10) as nat)).push((48 + n as nat % 10) as u8));
        }
    }
}

/// The action tag of a control message.
#[derive(Clone, Copy, PartialEq, Eq, Structural, Debug)]
pub enum ControlAction {
    /// A participant joined the room.
    Connect,
    /// A participant left the room.
    Disconnect,
}

/// The ASCII bytes of a control action's tag.
pub open spec fn action_tag(a: ControlAction) -> Seq<u8> {
    match a {
        ControlAction::Connect => seq![99u8, 111u8, 110u8, 110u8, 101u8, 99u8, 116u8],
        ControlAction::Disconnect => seq![
            100u8, 105u8, 115u8, 99u8, 111u8, 110u8, 110u8, 101u8, 99u8, 116u8,
        ],
    }
}

/// The ASCII bytes of the control message for `a` and `id`: a JSON text
/// of the shape `{"action":"<tag>","id":<id>}`.
pub open spec fn control_frame(a: ControlAction, id: u32) -> Seq<u8> {
    seq![123u8, 34u8, 97u8, 99u8, 116u8, 105u8, 111u8, 110u8, 34u8, 58u8, 34u8] + action_tag(a)
        + seq![34u8, 44u8, 34u8, 105u8, 100u8, 34u8, 58u8] + dec_rep(id as nat) + seq![125u8]
}

/// Encodes the outbound control message announcing a join or a leave.
/// The bytes are ASCII, so they are a valid text frame as they stand.
pub fn encode_control_frame(a: ControlAction, id: u32) -> (r: Vec<u8>)
    ensures
        r@ == control_frame(a, id),
{
    let mut out: Vec<u8> = Vec::new();
    out.push(123);
    out.push(34);
    out.push(97);
    out.push(99);
    out.push(116);
    out.push(105);
    out.push(111);
    out.push(110);
    out.push(34);
    out.push(58);
    out.push(34);
    match a {
        ControlAction::Connect => {
            out.push(99);
            out.push(111);
            out.push(110);
            out.push(110);
            out.push(101);
            out.push(99);
            out.push(116);
        },
        ControlAction::Disconnect => {
            out.push(100);
            out.push(105);
            out.push(115);
            out.push(99);
            out.push(111);
            out.push(110);
            out.push(110);
            out.push(101);
            out.push(99);
            out.push(116);
        },
    }
    out.push(34);
    out.push(44);
    out.push(34);
    out.push(105);
    out.push(100);
    out.push(34);
    out.push(58);
    proof {
        assert(out@ =~= seq![
            123u8, 34u8, 97u8, 99u8, 116u8, 105u8, 111u8, 110u8, 34u8, 58u8, 34u8,
        ] + action_tag(a) + seq![34u8, 44u8, 34u8, 105u8, 100u8, 34u8, 58u8]);
    }
    push_dec(&mut out, id);
    out.push(125);
    proof {
        assert(out@ =~= control_frame(a, id));
    }
    out
}

} // verus!
