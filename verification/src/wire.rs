//! The messages exchanged with peers and their framing on a byte stream.
//!
//! A message travels as a frame: a prefix of four bytes that holds the length
//! of the payload as an unsigned integer, most significant byte first, and
//! then the payload, which is the encoded message. How a message is encoded
//! into its payload is not decided here.

use vstd::prelude::*;

verus! {

/// A message of the ping/pong protocol.
///
/// `Ping` goes from the monitor to a peer and announces where the monitor can
/// be reached. `Pong` is the peer's answer and declares the peer's own address.
#[derive(Debug, PartialEq, Eq)]
pub enum ProtocolMessage {
    Ping { address: String, port: u16 },
    Pong { address: String },
}

/// The mathematical value of a [`ProtocolMessage`].
pub enum ProtocolMessageView {
    Ping { address: Seq<char>, port: u16 },
    Pong { address: Seq<char> },
}

impl View for ProtocolMessage {
    type V = ProtocolMessageView;

    open spec fn view(&self) -> ProtocolMessageView {
        match *self {
            ProtocolMessage::Ping { address, port } => ProtocolMessageView::Ping {
                address: address@,
                port,
            },
            ProtocolMessage::Pong { address } => ProtocolMessageView::Pong { address: address@ },
        }
    }
}

impl DeepView for ProtocolMessage {
    type V = ProtocolMessageView;

    open spec fn deep_view(&self) -> ProtocolMessageView {
        self@
    }
}

impl Clone for ProtocolMessage {
    fn clone(&self) -> (copy: Self)
        ensures
            copy == *self,
    {
        match self {
            ProtocolMessage::Ping { address, port } => ProtocolMessage::Ping {
                address: address.clone(),
                port: *port,
            },
            ProtocolMessage::Pong { address } => ProtocolMessage::Pong { address: address.clone() },
        }
    }
}

/// The number of bytes of the length prefix.
pub const PREFIX_LEN: usize = 4;

/// The longest payload that a frame can hold.
pub const MAX_PAYLOAD_LEN: u32 = 0xffff_ffff;

/// Why a frame could not be written or read.
#[derive(Clone, Copy, Debug, PartialEq, Eq)]
pub enum FrameError {
    /// The payload is longer than the prefix can say.
    PayloadTooLarge,
    /// The bytes end before the frame does.
    Truncated,
}

/// The four bytes that stand for `len`, most significant first.
pub open spec fn prefix_of(len: nat) -> Seq<u8> {
    seq![
        (len / 0x100_0000) as u8,
        ((len / 0x1_0000) % 0x100) as u8,
        ((len / 0x100) % 0x100) as u8,
        (len % 0x100) as u8,
    ]
}

/// The length that the four bytes of `prefix` stand for.
pub open spec fn announced_len(prefix: Seq<u8>) -> nat {
    (prefix[0] * 0x100_0000 + prefix[1] * 0x1_0000 + prefix[2] * 0x100 + prefix[3]) as nat
}

/// The frame of `payload`: the prefix of its length, then the payload.
pub open spec fn frame_of(payload: Seq<u8>) -> Seq<u8> {
    prefix_of(payload.len()) + payload
}

/// The payload of the frame that `bytes` start with and the number of bytes
/// that the frame takes, or `None` where `bytes` end before the frame does.
pub open spec fn first_frame(bytes: Seq<u8>) -> Option<(Seq<u8>, nat)> {
    if bytes.len() < 4 {
        None
    } else {
        let len = announced_len(bytes.take(4));
        if bytes.len() < 4 + len {
            None
        } else {
            Some((bytes.subrange(4, 4 + len as int), 4 + len))
        }
    }
}

/// The length prefix for a payload of `len` bytes.
pub fn encode_prefix(len: u32) -> (prefix: [u8; 4])
    ensures
        prefix@ == prefix_of(len as nat),
{
    let prefix: [u8; 4] = [
        (len / 0x100_0000) as u8,
        ((len / 0x1_0000) % 0x100) as u8,
        ((len / 0x100) % 0x100) as u8,
        (len % 0x100) as u8,
    ];
    assert(prefix@ =~= prefix_of(len as nat));
    prefix
}

/// The payload length that a prefix announces.
pub fn decode_prefix(prefix: &[u8; 4]) -> (len: u32)
    ensures
        len == announced_len(prefix@),
{
    let high: u32 = prefix[0] as u32 * 0x100_0000 + prefix[1] as u32 * 0x1_0000;
    let low: u32 = prefix[2] as u32 * 0x100 + prefix[3] as u32;
    high + low
}

/// The frame of `payload`. A payload of more than [`MAX_PAYLOAD_LEN`] bytes
/// has no frame.
pub fn encode_frame(payload: &[u8]) -> (frame: Result<Vec<u8>, FrameError>)
    ensures
        match frame {
            Ok(bytes) => payload@.len() <= MAX_PAYLOAD_LEN && bytes@ == frame_of(payload@),
            Err(error) => payload@.len() > MAX_PAYLOAD_LEN && error == FrameError::PayloadTooLarge,
        },
{
    if payload.len() > MAX_PAYLOAD_LEN as usize {
        return Err(FrameError::PayloadTooLarge);
    }
    let prefix = encode_prefix(payload.len() as u32);
    let mut bytes: Vec<u8> = Vec::new();
    bytes.extend_from_slice(prefix.as_slice());
    bytes.extend_from_slice(payload);
    assert(bytes@ =~= frame_of(payload@));
    Ok(bytes)
}

/// Takes the first frame off `bytes`: its payload and the number of bytes
/// that the frame takes. Bytes that end before the frame does are
/// [`FrameError::Truncated`].
pub fn decode_frame(bytes: &[u8]) -> (frame: Result<(Vec<u8>, usize), FrameError>)
    ensures
        match frame {
            Ok((payload, used)) => first_frame(bytes@) == Some((payload@, used as nat)),
            Err(error) => first_frame(bytes@) is None && error == FrameError::Truncated,
        },
{
    if bytes.len() < PREFIX_LEN {
        return Err(FrameError::Truncated);
    }
    let prefix: [u8; 4] = [bytes[0], bytes[1], bytes[2], bytes[3]];
    assert(prefix@ =~= bytes@.take(4));
    let announced = decode_prefix(&prefix);
    if bytes.len() - PREFIX_LEN < announced as usize {
        return Err(FrameError::Truncated);
    }
    let len = announced as usize;
    let mut payload: Vec<u8> = Vec::new();
    let mut index: usize = 0;
    while index < len
        invariant
            index <= len,
            PREFIX_LEN + len <= bytes.len(),
            payload@ == bytes@.subrange(4, 4 + index),
        decreases len - index,
    {
        payload.push(bytes[PREFIX_LEN + index]);
        assert(payload@ =~= bytes@.subrange(4, 4 + index + 1));
        index = index + 1;
    }
    Ok((payload, PREFIX_LEN + len))
}

/// A prefix announces the length that it was made for.
pub proof fn law_prefix_round_trip(len: nat)
    requires
        len <= MAX_PAYLOAD_LEN,
    ensures
        prefix_of(len).len() == 4,
        announced_len(prefix_of(len)) == len,
{
}

/// Four bytes are the prefix of the length that they announce, and that
/// length is one that a prefix can say.
pub proof fn law_prefix_is_canonical(prefix: Seq<u8>)
    requires
        prefix.len() == 4,
    ensures
        announced_len(prefix) <= MAX_PAYLOAD_LEN,
        prefix_of(announced_len(prefix)) == prefix,
{
    assert(prefix_of(announced_len(prefix)) =~= prefix);
}

/// What was framed is read back: the bytes of a frame, whatever follows
/// them, start with that frame, and its payload is the one that was framed.
pub proof fn law_frame_round_trip(payload: Seq<u8>, rest: Seq<u8>)
    requires
        payload.len() <= MAX_PAYLOAD_LEN,
    ensures
        first_frame(frame_of(payload) + rest) == Some((payload, 4 + payload.len())),
{
    let bytes = frame_of(payload) + rest;
    law_prefix_round_trip(payload.len());
    assert(bytes.take(4) =~= prefix_of(payload.len()));
    assert(bytes.subrange(4, 4 + payload.len() as int) =~= payload);
}

} // verus!
