//! Control-plane messages between server and client, and their wire frames.
//!
//! A message frame is the magic `RNP1`, the body length as a little-endian
//! `u32`, and the body. A blob frame (UDP payloads) is the length and the
//! bytes, without magic.
use vstd::prelude::*;
use vstd::bytes::{
    lemma_auto_spec_u32_to_from_le_bytes, spec_u32_from_le_bytes, spec_u32_to_le_bytes,
    u32_from_le_bytes, u32_to_le_bytes,
};
use crate::bytes::{bytes_eq, extend_bytes, sub_bytes};
use crate::model::ClientRuntimeConfig;
use crate::text::owned;

verus! {

/// Largest body a frame may carry.
pub const MAX_FRAME: usize = 16777216;

/// Why a frame was refused.
#[derive(Debug, Clone, Copy, PartialEq, Eq, Structural)]
pub enum FrameError {
    /// The frame does not start with the protocol magic.
    BadMagic,
    /// The announced or given length exceeds `MAX_FRAME`.
    TooLarge,
    /// The buffer ends before the frame does.
    Incomplete,
}

/// The protocol magic `RNP1`.
pub open spec fn magic() -> Seq<u8> {
    seq![0x52u8, 0x4eu8, 0x50u8, 0x31u8]
}

/// The frame of a message body.
pub open spec fn spec_frame(body: Seq<u8>) -> Seq<u8> {
    magic() + spec_u32_to_le_bytes(body.len() as u32) + body
}

/// The frame of a blob.
pub open spec fn spec_blob(data: Seq<u8>) -> Seq<u8> {
    spec_u32_to_le_bytes(data.len() as u32) + data
}

/// What decoding a buffer that starts with a message frame gives: the body
/// and the number of bytes the frame takes.
pub open spec fn spec_decode_frame(buf: Seq<u8>) -> Result<(Seq<u8>, int), FrameError> {
    if buf.len() < 4 {
        Err(FrameError::Incomplete)
    } else if buf.subrange(0, 4) != magic() {
        Err(FrameError::BadMagic)
    } else if buf.len() < 8 {
        Err(FrameError::Incomplete)
    } else {
        let n = spec_u32_from_le_bytes(buf.subrange(4, 8)) as int;
        if n > MAX_FRAME {
            Err(FrameError::TooLarge)
        } else if buf.len() < 8 + n {
            Err(FrameError::Incomplete)
        } else {
            Ok((buf.subrange(8, 8 + n), 8 + n))
        }
    }
}

/// What decoding a buffer that starts with a blob frame gives.
pub open spec fn spec_decode_blob(buf: Seq<u8>) -> Result<(Seq<u8>, int), FrameError> {
    if buf.len() < 4 {
        Err(FrameError::Incomplete)
    } else {
        let n = spec_u32_from_le_bytes(buf.subrange(0, 4)) as int;
        if n > MAX_FRAME {
            Err(FrameError::TooLarge)
        } else if buf.len() < 4 + n {
            Err(FrameError::Incomplete)
        } else {
            Ok((buf.subrange(4, 4 + n), 4 + n))
        }
    }
}

fn magic_bytes() -> (r: Vec<u8>)
    ensures
        r@ == magic(),
{
    let mut r = Vec::new();
    r.push(0x52u8);
    r.push(0x4eu8);
    r.push(0x50u8);
    r.push(0x31u8);
    r
}

/// Frames a serialized message body; refuses a body longer than
/// `MAX_FRAME`.
pub fn frame_message(body: &[u8]) -> (r: Result<Vec<u8>, FrameError>)
    ensures
        body@.len() > MAX_FRAME ==> r == Err::<Vec<u8>, FrameError>(FrameError::TooLarge),
        body@.len() <= MAX_FRAME ==> (r matches Ok(f) && f@ == spec_frame(body@)),
{
    if body.len() > MAX_FRAME {
        return Err(FrameError::TooLarge);
    }
    let mut out = magic_bytes();
    let len = u32_to_le_bytes(body.len() as u32);
    extend_bytes(&mut out, len.as_slice());
    extend_bytes(&mut out, body);
    Ok(out)
}

/// Checks the four magic bytes at the start of a frame.
pub fn check_magic(head: &[u8]) -> (r: Result<(), FrameError>)
    requires
        head@.len() == 4,
    ensures
        r is Ok <==> head@ == magic(),
        r is Err ==> r == Err::<(), FrameError>(FrameError::BadMagic),
{
    let expected = magic_bytes();
    if bytes_eq(head, expected.as_slice()) {
        Ok(())
    } else {
        Err(FrameError::BadMagic)
    }
}

/// The body length announced by the four length bytes of a frame;
/// refuses a length above `MAX_FRAME`.
pub fn frame_body_len(len_bytes: &[u8]) -> (r: Result<usize, FrameError>)
    requires
        len_bytes@.len() == 4,
    ensures
        spec_u32_from_le_bytes(len_bytes@) > MAX_FRAME ==> r == Err::<usize, FrameError>(
            FrameError::TooLarge,
        ),
        spec_u32_from_le_bytes(len_bytes@) <= MAX_FRAME ==> r == Ok::<usize, FrameError>(
            spec_u32_from_le_bytes(len_bytes@) as usize,
        ),
{
    let n = u32_from_le_bytes(len_bytes);
    if n as usize > MAX_FRAME {
        Err(FrameError::TooLarge)
    } else {
        Ok(n as usize)
    }
}

/// Decodes the message frame at the start of `buf`: its body and the
/// number of bytes it takes.
pub fn decode_frame(buf: &[u8]) -> (r: Result<(Vec<u8>, usize), FrameError>)
    ensures
        match r {
            Ok((body, n)) => spec_decode_frame(buf@) == Ok::<(Seq<u8>, int), FrameError>(
                (body@, n as int),
            ),
            Err(e) => spec_decode_frame(buf@) == Err::<(Seq<u8>, int), FrameError>(e),
        },
{
    if buf.len() < 4 {
        return Err(FrameError::Incomplete);
    }
    let head = sub_bytes(buf, 0, 4);
    check_magic(head.as_slice())?;
    if buf.len() < 8 {
        return Err(FrameError::Incomplete);
    }
    let len_bytes = sub_bytes(buf, 4, 8);
    let n = frame_body_len(len_bytes.as_slice())?;
    if buf.len() - 8 < n {
        return Err(FrameError::Incomplete);
    }
    Ok((sub_bytes(buf, 8, 8 + n), 8 + n))
}

/// Appends the blob frame of `data` to `out`; refuses data longer than
/// `MAX_FRAME` and leaves `out` unchanged then.
pub fn write_blob(out: &mut Vec<u8>, data: &[u8]) -> (r: Result<(), FrameError>)
    ensures
        data@.len() > MAX_FRAME ==> r == Err::<(), FrameError>(FrameError::TooLarge)
            && final(out)@ == old(out)@,
        data@.len() <= MAX_FRAME ==> r is Ok && final(out)@ == old(out)@ + spec_blob(data@),
{
    if data.len() > MAX_FRAME {
        return Err(FrameError::TooLarge);
    }
    let len = u32_to_le_bytes(data.len() as u32);
    extend_bytes(out, len.as_slice());
    extend_bytes(out, data);
    assert(final(out)@ == old(out)@ + spec_blob(data@));
    Ok(())
}

/// Decodes the blob frame at the start of `buf`: its data and the number
/// of bytes it takes.
pub fn read_blob(buf: &[u8]) -> (r: Result<(Vec<u8>, usize), FrameError>)
    ensures
        match r {
            Ok((data, n)) => spec_decode_blob(buf@) == Ok::<(Seq<u8>, int), FrameError>(
                (data@, n as int),
            ),
            Err(e) => spec_decode_blob(buf@) == Err::<(Seq<u8>, int), FrameError>(e),
        },
{
    if buf.len() < 4 {
        return Err(FrameError::Incomplete);
    }
    let len_bytes = sub_bytes(buf, 0, 4);
    let n = frame_body_len(len_bytes.as_slice())?;
    if buf.len() - 4 < n {
        return Err(FrameError::Incomplete);
    }
    Ok((sub_bytes(buf, 4, 4 + n), 4 + n))
}

/// Decoding the frame of a body, followed by anything, gives back the body
/// and the frame's length.
pub proof fn lemma_frame_round_trip(body: Seq<u8>, rest: Seq<u8>)
    requires
        body.len() <= MAX_FRAME,
    ensures
        spec_decode_frame(spec_frame(body) + rest) == Ok::<(Seq<u8>, int), FrameError>(
            (body, 8 + body.len() as int),
        ),
{
    lemma_auto_spec_u32_to_from_le_bytes();
    let f = spec_frame(body) + rest;
    let len = spec_u32_to_le_bytes(body.len() as u32);
    assert(len.len() == 4);
    assert(f.subrange(0, 4) =~= magic());
    assert(f.subrange(4, 8) =~= len);
    assert(f.subrange(8, 8 + body.len() as int) =~= body);
}

/// Decoding the blob frame of some data, followed by anything, gives back
/// the data and the frame's length.
pub proof fn lemma_blob_round_trip(data: Seq<u8>, rest: Seq<u8>)
    requires
        data.len() <= MAX_FRAME,
    ensures
        spec_decode_blob(spec_blob(data) + rest) == Ok::<(Seq<u8>, int), FrameError>(
            (data, 4 + data.len() as int),
        ),
{
    lemma_auto_spec_u32_to_from_le_bytes();
    let f = spec_blob(data) + rest;
    let len = spec_u32_to_le_bytes(data.len() as u32);
    assert(len.len() == 4);
    assert(f.subrange(0, 4) =~= len);
    assert(f.subrange(4, 4 + data.len() as int) =~= data);
}

// ---------------------------------------------------------------------------
// Messages
// ---------------------------------------------------------------------------

/// The first message on every connection a client opens to the bridge.
#[derive(Debug)]
pub enum BridgeHello {
    Control { vkey: String, version: String, core_version: String },
    Mux { vkey: String, version: String, core_version: String },
    Config { vkey: String, version: String, core_version: String, config: ClientRuntimeConfig },
    Health { vkey: String, target: String, status: bool },
    Data { vkey: String, link_id: u64 },
    SecretVisitor { password: String, target: String },
    P2pVisitor { password: String, target: String },
    RegisterIp { vkey: String, hours: u32 },
}

/// A message the server sends on a control connection or as a reply.
#[derive(Debug)]
pub enum ServerMessage {
    Success { message: String },
    Error { message: String },
    Open { link_id: u64, link: Link },
    Ping,
    Stop { reason: String },
}

/// What the client is asked to connect a new link to.
#[derive(Debug)]
pub struct Link {
    pub kind: LinkKind,
    pub target: String,
    pub remote_addr: String,
    pub crypt: bool,
    pub compress: bool,
    pub local_proxy: bool,
    pub proto_version: String,
    pub file: Option<FileServe>,
}

#[derive(Debug, Clone, Copy, PartialEq, Eq, Structural)]
pub enum LinkKind {
    Tcp,
    Http,
    Udp,
    File,
    Secret,
    P2p,
}

/// A directory served by a file tunnel.
#[derive(Debug)]
pub struct FileServe {
    pub local_path: String,
    pub strip_pre: String,
}

impl Link {
    /// A plain TCP link.
    pub fn tcp(target: String, remote_addr: String, crypt: bool, compress: bool) -> (r: Self)
        ensures
            r.kind == LinkKind::Tcp,
            r.target == target,
            r.remote_addr == remote_addr,
            r.crypt == crypt,
            r.compress == compress,
            !r.local_proxy,
            r.proto_version@ == Seq::<char>::empty(),
            r.file is None,
    {
        Link {
            kind: LinkKind::Tcp,
            target,
            remote_addr,
            crypt,
            compress,
            local_proxy: false,
            proto_version: String::new(),
            file: None,
        }
    }
}

/// A success reply.
pub fn ok(message: &str) -> (r: ServerMessage)
    ensures
        (r matches ServerMessage::Success { message: m } && m@ == message@),
{
    ServerMessage::Success { message: owned(message) }
}

/// An error reply.
pub fn error(message: &str) -> (r: ServerMessage)
    ensures
        (r matches ServerMessage::Error { message: m } && m@ == message@),
{
    ServerMessage::Error { message: owned(message) }
}

} // verus!
