//! Frames of the multiplexed bridge connection, and the decisions of the
//! session's reader and keep-alive loops.
//!
//! A mux frame is a kind byte, the stream id as a little-endian `u64`, the
//! payload length as a little-endian `u32`, and the payload.
use vstd::prelude::*;
use vstd::bytes::{
    lemma_auto_spec_u32_to_from_le_bytes, lemma_auto_spec_u64_to_from_le_bytes,
    spec_u32_from_le_bytes, spec_u32_to_le_bytes, spec_u64_from_le_bytes, spec_u64_to_le_bytes,
    u32_from_le_bytes, u32_to_le_bytes, u64_from_le_bytes, u64_to_le_bytes,
};
use crate::bytes::{extend_bytes, sub_bytes};
use crate::protocol::{FrameError, MAX_FRAME};

verus! {

pub const FRAME_OPEN: u8 = 1;

pub const FRAME_DATA: u8 = 2;

pub const FRAME_CLOSE: u8 = 3;

/// Length of a frame header.
pub const HEADER_LEN: usize = 13;

/// Seconds between two keep-alive checks.
pub const PING_INTERVAL_SECS: u64 = 5;

/// Idle checks after which a session is closed.
pub const PING_THRESHOLD: u32 = 60;

/// The meaning of a frame's kind byte.
#[derive(Debug, Clone, Copy, PartialEq, Eq, Structural)]
pub enum MuxFrameKind {
    /// The peer opened a stream.
    Open,
    /// Payload for a stream.
    Data,
    /// The peer closed a stream.
    Close,
}

/// A decoded frame header.
#[derive(Debug, Clone, Copy, PartialEq, Eq, Structural)]
pub struct MuxHeader {
    pub kind: u8,
    pub id: u64,
    pub len: usize,
}

/// The bytes of a frame.
pub open spec fn spec_mux_frame(kind: u8, id: u64, payload: Seq<u8>) -> Seq<u8> {
    seq![kind] + spec_u64_to_le_bytes(id) + spec_u32_to_le_bytes(payload.len() as u32) + payload
}

/// The kind a byte stands for; `None` for an unknown byte, on which the
/// reader stops.
pub fn frame_kind(kind: u8) -> (r: Option<MuxFrameKind>)
    ensures
        kind == FRAME_OPEN ==> r == Some(MuxFrameKind::Open),
        kind == FRAME_DATA ==> r == Some(MuxFrameKind::Data),
        kind == FRAME_CLOSE ==> r == Some(MuxFrameKind::Close),
        kind != FRAME_OPEN && kind != FRAME_DATA && kind != FRAME_CLOSE ==> r is None,
{
    if kind == FRAME_OPEN {
        Some(MuxFrameKind::Open)
    } else if kind == FRAME_DATA {
        Some(MuxFrameKind::Data)
    } else if kind == FRAME_CLOSE {
        Some(MuxFrameKind::Close)
    } else {
        None
    }
}

/// What the session's reader does with a frame it has read.
#[derive(Debug, Clone, Copy, PartialEq, Eq, Structural)]
pub enum FrameAction {
    /// Open a stream for the peer.
    OpenStream,
    /// Hand the payload to its stream.
    Deliver,
    /// Close the stream.
    CloseStream,
    /// Close the whole session: the data went past the flow limit.
    EndSession,
    /// Stop reading: the kind is unknown.
    Stop,
}

/// The reader's decision on a frame of `kind`; `within_flow_limit` is
/// whether counting a data frame's payload kept the client within its flow
/// limit.
pub open spec fn spec_frame_action(kind: u8, within_flow_limit: bool) -> FrameAction {
    if kind == FRAME_DATA && !within_flow_limit {
        FrameAction::EndSession
    } else if kind == FRAME_OPEN {
        FrameAction::OpenStream
    } else if kind == FRAME_DATA {
        FrameAction::Deliver
    } else if kind == FRAME_CLOSE {
        FrameAction::CloseStream
    } else {
        FrameAction::Stop
    }
}

/// Decides what the reader does with a frame: see [`spec_frame_action`].
pub fn frame_action(kind: u8, within_flow_limit: bool) -> (r: FrameAction)
    ensures
        r == spec_frame_action(kind, within_flow_limit),
{
    match frame_kind(kind) {
        Some(MuxFrameKind::Data) => if within_flow_limit {
            FrameAction::Deliver
        } else {
            FrameAction::EndSession
        },
        Some(MuxFrameKind::Open) => FrameAction::OpenStream,
        Some(MuxFrameKind::Close) => FrameAction::CloseStream,
        None => FrameAction::Stop,
    }
}

/// Encodes a frame; refuses a payload longer than `MAX_FRAME`.
pub fn encode_mux_frame(kind: u8, id: u64, payload: &[u8]) -> (r: Result<Vec<u8>, FrameError>)
    ensures
        payload@.len() > MAX_FRAME ==> r == Err::<Vec<u8>, FrameError>(FrameError::TooLarge),
        payload@.len() <= MAX_FRAME ==> (r matches Ok(f) && f@ == spec_mux_frame(
            kind,
            id,
            payload@,
        )),
{
    if payload.len() > MAX_FRAME {
        return Err(FrameError::TooLarge);
    }
    let mut out: Vec<u8> = Vec::new();
    out.push(kind);
    let idb = u64_to_le_bytes(id);
    extend_bytes(&mut out, idb.as_slice());
    let lenb = u32_to_le_bytes(payload.len() as u32);
    extend_bytes(&mut out, lenb.as_slice());
    extend_bytes(&mut out, payload);
    assert(out@ =~= spec_mux_frame(kind, id, payload@));
    Ok(out)
}

/// Decodes a frame header; refuses an announced length above `MAX_FRAME`.
pub fn decode_mux_header(header: &[u8]) -> (r: Result<MuxHeader, FrameError>)
    requires
        header@.len() == HEADER_LEN,
    ensures
        ({
            let len = spec_u32_from_le_bytes(header@.subrange(9, 13));
            &&& len > MAX_FRAME ==> r == Err::<MuxHeader, FrameError>(FrameError::TooLarge)
            &&& len <= MAX_FRAME ==> r == Ok::<MuxHeader, FrameError>(
                MuxHeader {
                    kind: header@[0],
                    id: spec_u64_from_le_bytes(header@.subrange(1, 9)),
                    len: len as usize,
                },
            )
        }),
{
    let idb = sub_bytes(header, 1, 9);
    let lenb = sub_bytes(header, 9, 13);
    let id = u64_from_le_bytes(idb.as_slice());
    let len = u32_from_le_bytes(lenb.as_slice());
    if len as usize > MAX_FRAME {
        return Err(FrameError::TooLarge);
    }
    Ok(MuxHeader { kind: header[0], id, len: len as usize })
}

/// The header of an encoded frame decodes to the kind, id and payload
/// length it was encoded with, and the payload follows the header.
pub proof fn lemma_mux_frame_round_trip(kind: u8, id: u64, payload: Seq<u8>)
    requires
        payload.len() <= MAX_FRAME,
    ensures
        ({
            let f = spec_mux_frame(kind, id, payload);
            &&& f.len() == HEADER_LEN + payload.len()
            &&& f[0] == kind
            &&& spec_u64_from_le_bytes(f.subrange(1, 9)) == id
            &&& spec_u32_from_le_bytes(f.subrange(9, 13)) == payload.len()
            &&& f.subrange(13, f.len() as int) == payload
        }),
{
    lemma_auto_spec_u32_to_from_le_bytes();
    lemma_auto_spec_u64_to_from_le_bytes();
    let f = spec_mux_frame(kind, id, payload);
    let idb = spec_u64_to_le_bytes(id);
    let lenb = spec_u32_to_le_bytes(payload.len() as u32);
    assert(idb.len() == 8);
    assert(lenb.len() == 4);
    assert(f.subrange(1, 9) =~= idb);
    assert(f.subrange(9, 13) =~= lenb);
    assert(f.subrange(13, f.len() as int) =~= payload);
}

/// One keep-alive check: the new count of idle checks, and whether the
/// session is to be closed. A check is idle when the last activity is five
/// seconds old or older.
pub fn ping_tick(checktime: u32, now: u64, last_activity: u64) -> (r: (u32, bool))
    requires
        checktime <= PING_THRESHOLD,
    ensures
        ({
            let active = now < last_activity || now - last_activity < PING_INTERVAL_SECS;
            let next = if active {
                0
            } else {
                checktime + 1
            };
            &&& r.0 == next
            &&& r.1 == (next > PING_THRESHOLD)
        }),
{
    let elapsed = if now > last_activity {
        now - last_activity
    } else {
        0
    };
    let next = if elapsed < PING_INTERVAL_SECS {
        0
    } else {
        checktime + 1
    };
    (next, next > PING_THRESHOLD)
}

/// Limits and accounting of a client's multiplexed session.
#[derive(PartialEq, Eq, Structural, Clone, Copy, Debug)]
pub struct MuxTrafficPolicy {
    /// Kilobytes per second; 0 for no limit.
    pub rate_limit_kb: u64,
    /// Total megabytes allowed; 0 for no limit.
    pub flow_limit_mb: u64,
    /// Traffic is counted against the client.
    pub counts_flow: bool,
}

/// The policy of a client's session: its limits where the server enforces
/// them (none for an unknown client), and its traffic always counted.
pub fn mux_traffic_policy(server: &crate::model::ServerConfig, client: Option<&crate::model::ClientRuntimeConfig>) -> (r: MuxTrafficPolicy)
    ensures
        r.counts_flow,
        r.rate_limit_kb == match client {
            Some(c) => if server.allow_rate_limit {
                c.common.client.rate_limit_kb
            } else {
                0
            },
            None => 0,
        },
        r.flow_limit_mb == match client {
            Some(c) => if server.allow_flow_limit {
                c.common.client.flow_limit_mb
            } else {
                0
            },
            None => 0,
        },
{
    let (rate, flow) = match client {
        Some(c) => (
            if server.allow_rate_limit {
                c.common.client.rate_limit_kb
            } else {
                0
            },
            if server.allow_flow_limit {
                c.common.client.flow_limit_mb
            } else {
                0
            },
        ),
        None => (0, 0),
    };
    MuxTrafficPolicy { rate_limit_kb: rate, flow_limit_mb: flow, counts_flow: true }
}

} // verus!
