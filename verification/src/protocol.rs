//! Messages of the file transfer protocol and the frames that carry them.
//!
//! Every frame starts with the start tag, a big-endian `u32` handle and a command byte, and
//! ends with the end tag:
//!
//! | frame            | fields after the command byte                               |
//! |------------------|-------------------------------------------------------------|
//! | write file req   | name length (u32), name, total length (u64)                  |
//! | write file resp  | status (u8)                                                  |
//! | write chunk req  | chunk id (u32), start (u64), chunk length (u64), chunk bytes |
//! | write chunk resp | chunk id (u32), status (u8)                                  |
use crate::wire::{
    be_bytes_u32, be_bytes_u64, lemma_be_u32_roundtrip, lemma_be_u64_roundtrip, push_be_u32,
    push_be_u64, push_bytes,
};
use vstd::prelude::*;
use vstd::string::StringSliceAdditionalSpecFns;
use vstd::utf8::encode_utf8;

verus! {

/// First byte of every frame.
pub const TAG_START_BYTE: u8 = 0xBE;

/// Last byte of every frame.
pub const TAG_END_BYTE: u8 = 0x4C;

/// Bytes of a write-file request frame besides the file name.
pub const WRITE_FILE_REQ_PREFIX: u32 = 19;

/// Bytes of a write-file response frame.
pub const WRITE_FILE_RESP_PREFIX: u32 = 8;

/// Bytes of a write-chunk request frame besides the chunk.
pub const WRITE_CHUNK_REQ_PREFIX: u32 = 27;

/// Bytes of a write-chunk response frame.
pub const WRITE_CHUNK_RESP_PREFIX: u32 = 12;

/// A request to create a file of `total_len` bytes under `handle`.
#[derive(Debug)]
pub struct WriteFileReq {
    pub handle: u32,
    pub file_name: String,
    pub total_len: u64,
}

/// The answer to a [`WriteFileReq`].
#[derive(Debug)]
pub struct WriteFileResp {
    pub handle: u32,
    pub status: u8,
}

/// A piece of a chunk: `len` bytes that belong at offset `start` of the file.
#[derive(Debug)]
pub struct WriteChunkReq {
    pub handle: u32,
    pub chunkid: u32,
    pub start: u64,
    pub len: u64,
    pub chunk: Vec<u8>,
}

/// The answer to a chunk.
#[derive(Debug)]
pub struct WriteChunkResp {
    pub handle: u32,
    pub chunkid: u32,
    pub status: u8,
}

/// A decoded protocol message.
#[derive(Debug)]
pub enum ProtocolMsgs {
    FileReq(WriteFileReq),
    FileResp(WriteFileResp),
    ChunkReq(WriteChunkReq),
    ChunkResp(WriteChunkResp),
}

/// A protocol message as a mathematical value.
pub enum MsgView {
    FileReq { handle: u32, file_name: Seq<char>, total_len: u64 },
    FileResp { handle: u32, status: u8 },
    ChunkReq { handle: u32, chunkid: u32, start: u64, len: u64, chunk: Seq<u8> },
    ChunkResp { handle: u32, chunkid: u32, status: u8 },
}

impl View for ProtocolMsgs {
    type V = MsgView;

    open spec fn view(&self) -> MsgView {
        match self {
            ProtocolMsgs::FileReq(m) => MsgView::FileReq {
                handle: m.handle,
                file_name: m.file_name@,
                total_len: m.total_len,
            },
            ProtocolMsgs::FileResp(m) => MsgView::FileResp { handle: m.handle, status: m.status },
            ProtocolMsgs::ChunkReq(m) => MsgView::ChunkReq {
                handle: m.handle,
                chunkid: m.chunkid,
                start: m.start,
                len: m.len,
                chunk: m.chunk@,
            },
            ProtocolMsgs::ChunkResp(m) => MsgView::ChunkResp {
                handle: m.handle,
                chunkid: m.chunkid,
                status: m.status,
            },
        }
    }
}

/// The two tags that delimit a frame.
#[allow(non_camel_case_types)]
#[derive(Clone, Copy, PartialEq, Eq, Structural, Debug)]
pub enum P_TAG {
    TAG_START,
    TAG_END,
}

impl P_TAG {
    pub open spec fn spec_byte(self) -> u8 {
        match self {
            P_TAG::TAG_START => TAG_START_BYTE,
            P_TAG::TAG_END => TAG_END_BYTE,
        }
    }

    /// The byte that stands for the tag on the wire.
    pub fn byte(&self) -> (b: u8)
        ensures
            b == self.spec_byte(),
    {
        match self {
            P_TAG::TAG_START => TAG_START_BYTE,
            P_TAG::TAG_END => TAG_END_BYTE,
        }
    }
}

/// The command byte of a frame.
#[allow(non_camel_case_types)]
#[derive(Clone, Copy, PartialEq, Eq, Structural, Debug)]
pub enum CMD {
    UNKNOWN,
    WRITE_FILE_REQ,
    WRITE_CHUNK_REQ,
    WRITE_FILE_RESP,
    WRITE_CHUNK_RESP,
}

/// Command byte of a write-file request.
pub const CMD_WRITE_FILE_REQ: u8 = 0x01;

/// Command byte of a write-chunk request.
pub const CMD_WRITE_CHUNK_REQ: u8 = 0x02;

/// Command byte of a write-file response.
pub const CMD_WRITE_FILE_RESP: u8 = 0x11;

/// Command byte of a write-chunk response.
pub const CMD_WRITE_CHUNK_RESP: u8 = 0x12;

impl CMD {
    pub open spec fn spec_byte(self) -> u8 {
        match self {
            CMD::UNKNOWN => 0x00,
            CMD::WRITE_FILE_REQ => CMD_WRITE_FILE_REQ,
            CMD::WRITE_CHUNK_REQ => CMD_WRITE_CHUNK_REQ,
            CMD::WRITE_FILE_RESP => CMD_WRITE_FILE_RESP,
            CMD::WRITE_CHUNK_RESP => CMD_WRITE_CHUNK_RESP,
        }
    }

    /// The command a byte stands for, if any.
    pub open spec fn spec_from_byte(b: u8) -> Option<CMD> {
        if b == 0x00 {
            Some(CMD::UNKNOWN)
        } else if b == CMD_WRITE_FILE_REQ {
            Some(CMD::WRITE_FILE_REQ)
        } else if b == CMD_WRITE_CHUNK_REQ {
            Some(CMD::WRITE_CHUNK_REQ)
        } else if b == CMD_WRITE_FILE_RESP {
            Some(CMD::WRITE_FILE_RESP)
        } else if b == CMD_WRITE_CHUNK_RESP {
            Some(CMD::WRITE_CHUNK_RESP)
        } else {
            None
        }
    }

    /// The byte that stands for the command on the wire.
    pub fn byte(&self) -> (b: u8)
        ensures
            b == self.spec_byte(),
            CMD::spec_from_byte(b) == Some(*self),
    {
        match self {
            CMD::UNKNOWN => 0x00,
            CMD::WRITE_FILE_REQ => CMD_WRITE_FILE_REQ,
            CMD::WRITE_CHUNK_REQ => CMD_WRITE_CHUNK_REQ,
            CMD::WRITE_FILE_RESP => CMD_WRITE_FILE_RESP,
            CMD::WRITE_CHUNK_RESP => CMD_WRITE_CHUNK_RESP,
        }
    }

    /// The command a byte stands for; `None` for a byte that names no command.
    pub fn from_u8(b: u8) -> (c: Option<CMD>)
        ensures
            c == CMD::spec_from_byte(b),
            c matches Some(cmd) ==> cmd.spec_byte() == b,
    {
        if b == 0x00 {
            Some(CMD::UNKNOWN)
        } else if b == CMD_WRITE_FILE_REQ {
            Some(CMD::WRITE_FILE_REQ)
        } else if b == CMD_WRITE_CHUNK_REQ {
            Some(CMD::WRITE_CHUNK_REQ)
        } else if b == CMD_WRITE_FILE_RESP {
            Some(CMD::WRITE_FILE_RESP)
        } else if b == CMD_WRITE_CHUNK_RESP {
            Some(CMD::WRITE_CHUNK_RESP)
        } else {
            None
        }
    }
}

/// Whether the stream reader works byte by byte or hands out whole buffers.
#[allow(non_camel_case_types)]
#[derive(Clone, Copy, PartialEq, Eq, Structural, Debug)]
pub enum GL_STATE {
    IDLE,
    IN_BYTE_MODE,
    IN_BUFFER_MODE,
}

/// The field of a frame that the parser is reading.
#[allow(non_camel_case_types)]
#[derive(Clone, Copy, PartialEq, Eq, Structural, Debug)]
pub enum GL_CHUNK_STATE {
    WAIT_START,
    IN_HANDLE_ID,
    WAIT_CMD,
    IN_NAME_LEN,
    IN_FILE_NAME,
    IN_TOTAL_LEN,
    WAIT_STATUS_CODE,
    IN_CHUNK_ID,
    IN_START,
    IN_CHUNK_LEN,
    IN_CHUNK,
    WAIT_END,
}

/// `count` zero bytes.
pub open spec fn zeros(count: nat) -> Seq<u8> {
    Seq::new(count, |i: int| 0u8)
}

/// The frame of a write-file request for the name bytes `name`.
pub open spec fn file_req_frame(handle_id: u32, name: Seq<u8>, data_len: u64) -> Seq<u8> {
    seq![TAG_START_BYTE] + be_bytes_u32(handle_id) + seq![CMD_WRITE_FILE_REQ] + be_bytes_u32(
        name.len() as u32,
    ) + name + be_bytes_u64(data_len) + seq![TAG_END_BYTE]
}

/// The frame of a write-file response.
pub open spec fn file_resp_frame(handle_id: u32, status: u8) -> Seq<u8> {
    seq![TAG_START_BYTE] + be_bytes_u32(handle_id) + seq![CMD_WRITE_FILE_RESP] + seq![status]
        + seq![TAG_END_BYTE]
}

/// The frame of a write-chunk request whose chunk is `data`.
pub open spec fn chunk_req_frame(handle_id: u32, chunk_id: u32, start: u64, data: Seq<u8>) -> Seq<
    u8,
> {
    seq![TAG_START_BYTE] + be_bytes_u32(handle_id) + seq![CMD_WRITE_CHUNK_REQ] + be_bytes_u32(
        chunk_id,
    ) + be_bytes_u64(start) + be_bytes_u64(data.len() as u64) + data + seq![TAG_END_BYTE]
}

/// The frame of a write-chunk response.
pub open spec fn chunk_resp_frame(handle_id: u32, chunk_id: u32, status: u8) -> Seq<u8> {
    seq![TAG_START_BYTE] + be_bytes_u32(handle_id) + seq![CMD_WRITE_CHUNK_RESP] + be_bytes_u32(
        chunk_id,
    ) + seq![status] + seq![TAG_END_BYTE]
}

/// A `u32` drawn by `rand::random`.
#[verifier::external_body]
fn random_u32() -> u32 {
    rand::random::<u32>()
}

/// The write-file request frame for `file_name` under a given handle.
pub fn encode_file_req(handle_id: u32, file_name: &str, data_len: u64) -> (frame: Vec<u8>)
    requires
        file_name.spec_bytes().len() <= u32::MAX,
    ensures
        frame@ == file_req_frame(handle_id, file_name.spec_bytes(), data_len),
        frame@.len() == WRITE_FILE_REQ_PREFIX + file_name.spec_bytes().len(),
{
    let name: &[u8] = file_name.as_bytes();
    let mut out: Vec<u8> = Vec::new();
    out.push(TAG_START_BYTE);
    push_be_u32(&mut out, handle_id);
    out.push(CMD_WRITE_FILE_REQ);
    push_be_u32(&mut out, name.len() as u32);
    push_bytes(&mut out, name);
    push_be_u64(&mut out, data_len);
    out.push(TAG_END_BYTE);
    out
}

/// A write-file request for `file_name` under a fresh random handle; returns the handle and the
/// frame.
pub fn create_file_req(file_name: String, data_len: u64) -> (r: (u32, Vec<u8>))
    requires
        encode_utf8(file_name@).len() <= u32::MAX,
    ensures
        r.1@ == file_req_frame(r.0, encode_utf8(file_name@), data_len),
{
    let handle_id: u32 = random_u32();
    let frame = encode_file_req(handle_id, file_name.as_str(), data_len);
    (handle_id, frame)
}

/// The write-file response frame.
pub fn create_file_resp(handle_id: u32, status: u8) -> (frame: Vec<u8>)
    ensures
        frame@ == file_resp_frame(handle_id, status),
        frame@.len() == WRITE_FILE_RESP_PREFIX,
{
    let mut out: Vec<u8> = Vec::new();
    out.push(TAG_START_BYTE);
    push_be_u32(&mut out, handle_id);
    out.push(CMD_WRITE_FILE_RESP);
    out.push(status);
    out.push(TAG_END_BYTE);
    out
}

/// The write-chunk request frame for the chunk bytes `data` that were read for a chunk of at
/// most `len` bytes; the frame carries the bytes read and ends at the end tag.
pub fn create_chunk_req(data: &[u8], handle_id: u32, chunk_id: u32, start: u64, len: u64) -> (frame:
    Vec<u8>)
    requires
        data@.len() <= len,
    ensures
        frame@ == chunk_req_frame(handle_id, chunk_id, start, data@),
        frame@.len() == WRITE_CHUNK_REQ_PREFIX + data@.len(),
{
    let mut out: Vec<u8> = Vec::new();
    out.push(TAG_START_BYTE);
    push_be_u32(&mut out, handle_id);
    out.push(CMD_WRITE_CHUNK_REQ);
    push_be_u32(&mut out, chunk_id);
    push_be_u64(&mut out, start);
    push_be_u64(&mut out, data.len() as u64);
    push_bytes(&mut out, data);
    out.push(TAG_END_BYTE);
    proof {
        lemma_be_u32_roundtrip(handle_id);
        lemma_be_u32_roundtrip(chunk_id);
        lemma_be_u64_roundtrip(start);
        lemma_be_u64_roundtrip(data.len() as u64);
    }
    out
}

/// The write-chunk response frame.
pub fn create_chunk_resp(handle_id: u32, chunk_id: u32, status: u8) -> (frame: Vec<u8>)
    ensures
        frame@ == chunk_resp_frame(handle_id, chunk_id, status),
        frame@.len() == WRITE_CHUNK_RESP_PREFIX,
{
    let mut out: Vec<u8> = Vec::new();
    out.push(TAG_START_BYTE);
    push_be_u32(&mut out, handle_id);
    out.push(CMD_WRITE_CHUNK_RESP);
    push_be_u32(&mut out, chunk_id);
    out.push(status);
    out.push(TAG_END_BYTE);
    out
}

/// A command's byte is read back as that command, and a byte that names a command is that
/// command's byte.
pub proof fn law_cmd_byte_roundtrip(c: CMD, b: u8)
    ensures
        CMD::spec_from_byte(c.spec_byte()) == Some(c),
        CMD::spec_from_byte(b) matches Some(d) ==> d.spec_byte() == b,
{
}

} // verus!
