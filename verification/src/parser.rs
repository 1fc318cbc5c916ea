//! The byte-level decoder of frames.
use crate::channel::send_msg;
use crate::protocol::{
    MsgView, ProtocolMsgs, WriteChunkReq, WriteChunkResp, WriteFileReq, WriteFileResp, CMD,
    GL_CHUNK_STATE, TAG_END_BYTE, TAG_START_BYTE,
};
use crate::text::{is_utf8, string_from_utf8};
use crate::wire::{be_u32, be_u64, read_be_u32, read_be_u64};
use std::sync::mpsc::SyncSender;
use vstd::prelude::*;
use vstd::utf8::{decode_utf8, valid_utf8};

verus! {

/// The decoder's state as a mathematical value. `sent` lists every message handed to the
/// channel, each with whether the channel accepted it.
#[verifier::ext_equal]
pub struct ChunkParserView {
    pub state: GL_CHUNK_STATE,
    pub cur_data_pos: usize,
    pub cmd: CMD,
    pub file_name_len_buf: Seq<u8>,
    pub file_name_len: u32,
    pub handle_id: u32,
    pub handle_id_buf: Seq<u8>,
    pub file_name_buf: Seq<u8>,
    pub chunk_id: u32,
    pub chunk_id_buf: Seq<u8>,
    pub total_len: u64,
    pub total_len_buf: Seq<u8>,
    pub chunk_start: u64,
    pub chunk_start_buf: Seq<u8>,
    pub chunk_len: u64,
    pub chunk_len_buf: Seq<u8>,
    pub status: Option<u8>,
    pub with_error: bool,
    pub sent: Seq<(MsgView, bool)>,
}

/// Decodes frames byte by byte and hands each decoded message to a channel.
pub struct ChunkParser {
    state: GL_CHUNK_STATE,
    cur_data_pos: usize,
    cmd: CMD,
    file_name_len_buf: Vec<u8>,
    file_name_len: u32,
    handle_id: u32,
    handle_id_buf: Vec<u8>,
    file_name_buf: Vec<u8>,
    chunk_id: u32,
    chunk_id_buf: Vec<u8>,
    total_len: u64,
    total_len_buf: Vec<u8>,
    chunk_start: u64,
    chunk_start_buf: Vec<u8>,
    chunk_len: u64,
    chunk_len_buf: Vec<u8>,
    status: Option<u8>,
    with_error: bool,
    callback: SyncSender<ProtocolMsgs>,
    sent: Ghost<Seq<(MsgView, bool)>>,
}

impl View for ChunkParser {
    type V = ChunkParserView;

    closed spec fn view(&self) -> ChunkParserView {
        ChunkParserView {
            state: self.state,
            cur_data_pos: self.cur_data_pos,
            cmd: self.cmd,
            file_name_len_buf: self.file_name_len_buf@,
            file_name_len: self.file_name_len,
            handle_id: self.handle_id,
            handle_id_buf: self.handle_id_buf@,
            file_name_buf: self.file_name_buf@,
            chunk_id: self.chunk_id,
            chunk_id_buf: self.chunk_id_buf@,
            total_len: self.total_len,
            total_len_buf: self.total_len_buf@,
            chunk_start: self.chunk_start,
            chunk_start_buf: self.chunk_start_buf@,
            chunk_len: self.chunk_len,
            chunk_len_buf: self.chunk_len_buf@,
            status: self.status,
            with_error: self.with_error,
            sent: self.sent@,
        }
    }
}

/// A decoder waiting for the start of a frame, with nothing read yet and the log `sent`.
pub open spec fn ready_view(sent: Seq<(MsgView, bool)>) -> ChunkParserView {
    ChunkParserView {
        state: GL_CHUNK_STATE::WAIT_START,
        cur_data_pos: 0,
        cmd: CMD::UNKNOWN,
        file_name_len_buf: Seq::empty(),
        file_name_len: 0,
        handle_id: 0,
        handle_id_buf: Seq::empty(),
        file_name_buf: Seq::empty(),
        chunk_id: 0,
        chunk_id_buf: Seq::empty(),
        total_len: 0,
        total_len_buf: Seq::empty(),
        chunk_start: 0,
        chunk_start_buf: Seq::empty(),
        chunk_len: 0,
        chunk_len_buf: Seq::empty(),
        status: None,
        with_error: false,
        sent,
    }
}

/// The outcome of each send in a log.
pub open spec fn outcomes(sent: Seq<(MsgView, bool)>) -> Seq<bool> {
    Seq::new(sent.len(), |i: int| sent[i].1)
}

/// Whether send number `i` (counting from 0) is accepted, when `oks` lists the outcomes of
/// all sends in order.
pub open spec fn outcome_at(oks: Seq<bool>, i: nat) -> bool {
    if i < oks.len() {
        oks[i as int]
    } else {
        true
    }
}

/// Whether the next send is accepted, when `oks` lists the outcomes of all sends in order.
pub open spec fn next_outcome(v: ChunkParserView, oks: Seq<bool>) -> bool {
    outcome_at(oks, v.sent.len())
}

/// `v` after handing `m` to the channel.
pub open spec fn emit(v: ChunkParserView, m: MsgView, oks: Seq<bool>) -> ChunkParserView {
    ChunkParserView { sent: v.sent.push((m, next_outcome(v, oks))), ..v }
}

/// The message that the end tag of the frame read so far hands over, if any: a write-file
/// request, a write-file response or a write-chunk response (a write-chunk request was handed
/// over piece by piece).
pub open spec fn end_msg(v: ChunkParserView) -> Option<MsgView> {
    match v.cmd {
        CMD::WRITE_FILE_REQ => Some(
            MsgView::FileReq {
                handle: v.handle_id,
                file_name: decode_utf8(v.file_name_buf),
                total_len: v.total_len,
            },
        ),
        CMD::WRITE_FILE_RESP => Some(
            MsgView::FileResp { handle: v.handle_id, status: status_or_zero(v.status) },
        ),
        CMD::WRITE_CHUNK_RESP => Some(
            MsgView::ChunkResp {
                handle: v.handle_id,
                chunkid: v.chunk_id,
                status: status_or_zero(v.status),
            },
        ),
        _ => None,
    }
}

/// The status byte carried by a response, 0 when none was read.
pub open spec fn status_or_zero(status: Option<u8>) -> u8 {
    match status {
        Some(s) => s,
        None => 0,
    }
}

/// The fields of the frame being read hold only this frame's bytes: the buffer of the field
/// being read holds the bytes read of it so far, the buffers of the fields still to come are
/// empty, and the command is the one whose fields are being read. A refused send is
/// remembered only while the rest of its chunk and its end tag are read.
pub open spec fn inv(v: ChunkParserView) -> bool {
    &&& v.with_error ==> (v.state == GL_CHUNK_STATE::IN_CHUNK || v.state
        == GL_CHUNK_STATE::WAIT_END)
    &&& fields_inv(v)
}

/// The bounds between the fields of the frame being read (see `inv`).
pub open spec fn fields_inv(v: ChunkParserView) -> bool {
    let no_file_fields = v.file_name_len_buf.len() == 0 && v.file_name_buf.len() == 0
        && v.total_len_buf.len() == 0;
    let no_chunk_fields = v.chunk_id_buf.len() == 0 && v.chunk_start_buf.len() == 0
        && v.chunk_len_buf.len() == 0;
    match v.state {
        GL_CHUNK_STATE::WAIT_START => v.handle_id_buf.len() == 0 && no_file_fields
            && no_chunk_fields,
        GL_CHUNK_STATE::IN_HANDLE_ID => v.cur_data_pos < 4 && v.handle_id_buf.len()
            == v.cur_data_pos && no_file_fields && no_chunk_fields,
        GL_CHUNK_STATE::WAIT_CMD => v.handle_id_buf.len() == 4 && no_file_fields
            && no_chunk_fields,
        GL_CHUNK_STATE::IN_NAME_LEN => v.cmd == CMD::WRITE_FILE_REQ && v.cur_data_pos < 4
            && v.file_name_len_buf.len() == v.cur_data_pos && v.file_name_buf.len() == 0
            && v.total_len_buf.len() == 0,
        GL_CHUNK_STATE::IN_FILE_NAME => v.cmd == CMD::WRITE_FILE_REQ && v.cur_data_pos
            < v.file_name_len && v.file_name_buf.len() == v.cur_data_pos && v.total_len_buf.len()
            == 0,
        GL_CHUNK_STATE::IN_TOTAL_LEN => v.cmd == CMD::WRITE_FILE_REQ && v.cur_data_pos < 8
            && v.total_len_buf.len() == v.cur_data_pos,
        GL_CHUNK_STATE::IN_CHUNK_ID => (v.cmd == CMD::WRITE_CHUNK_REQ || v.cmd
            == CMD::WRITE_CHUNK_RESP) && v.cur_data_pos < 4 && v.chunk_id_buf.len()
            == v.cur_data_pos && v.chunk_start_buf.len() == 0 && v.chunk_len_buf.len() == 0,
        GL_CHUNK_STATE::IN_START => v.cmd == CMD::WRITE_CHUNK_REQ && v.cur_data_pos < 8
            && v.chunk_start_buf.len() == v.cur_data_pos && v.chunk_len_buf.len() == 0,
        GL_CHUNK_STATE::IN_CHUNK_LEN => v.cmd == CMD::WRITE_CHUNK_REQ && v.cur_data_pos < 8
            && v.chunk_len_buf.len() == v.cur_data_pos,
        GL_CHUNK_STATE::IN_CHUNK => v.cmd == CMD::WRITE_CHUNK_REQ && v.cur_data_pos
            < v.chunk_len,
        _ => true,
    }
}

/// Why a byte cannot be decoded in state `v`.
#[derive(Clone, Copy, PartialEq, Eq, Structural, Debug)]
pub enum ParseFault {
    /// No decoder was built before bytes arrived.
    NoCommandParser,
    /// Chunk data arrived as a lone byte rather than as the slice of bytes it was read in.
    LoneChunkByte,
    /// A position in the file or in the chunk passes the range of its integer type.
    PositionOverflow,
    /// The file name of a write-file request is not UTF-8.
    InvalidFileName,
}

/// The fault that stops decoding `in_char` (or the chunk bytes `buffer`) in state `v`, if any.
pub open spec fn step_fault(v: ChunkParserView, in_char: u8, buffer: Option<Seq<u8>>) -> Option<
    ParseFault,
> {
    match v.state {
        GL_CHUNK_STATE::IN_CHUNK => match buffer {
            None => if !v.with_error {
                Some(ParseFault::LoneChunkByte)
            } else if v.cur_data_pos >= usize::MAX {
                Some(ParseFault::PositionOverflow)
            } else {
                None
            },
            Some(b) => if v.cur_data_pos + b.len() > usize::MAX || (!v.with_error && v.chunk_start
                + v.cur_data_pos > u64::MAX) {
                Some(ParseFault::PositionOverflow)
            } else {
                None
            },
        },
        GL_CHUNK_STATE::WAIT_END => if in_char == TAG_END_BYTE && v.cmd == CMD::WRITE_FILE_REQ
            && !valid_utf8(v.file_name_buf) {
            Some(ParseFault::InvalidFileName)
        } else {
            None
        },
        _ => None,
    }
}

/// Decoding one byte `in_char`, or in the chunk state the chunk bytes `buffer`: the next
/// state, and the chunk length when the chunk length field has just been read (else 0).
/// `oks` lists, by position in the log, whether each send is accepted.
pub open spec fn chunk_step(v: ChunkParserView, in_char: u8, buffer: Option<Seq<u8>>, oks: Seq<
    bool,
>) -> (ChunkParserView, u64) {
    match v.state {
        GL_CHUNK_STATE::WAIT_START => if in_char == TAG_START_BYTE {
            (ChunkParserView { cur_data_pos: 0, state: GL_CHUNK_STATE::IN_HANDLE_ID, ..v }, 0)
        } else {
            (v, 0)
        },
        GL_CHUNK_STATE::IN_HANDLE_ID => {
            let buf = v.handle_id_buf.push(in_char);
            let pos = (v.cur_data_pos + 1) as usize;
            if pos >= 4 {
                (
                    ChunkParserView {
                        handle_id_buf: buf,
                        cur_data_pos: pos,
                        handle_id: be_u32(buf),
                        state: GL_CHUNK_STATE::WAIT_CMD,
                        ..v
                    },
                    0,
                )
            } else {
                (ChunkParserView { handle_id_buf: buf, cur_data_pos: pos, ..v }, 0)
            }
        },
        GL_CHUNK_STATE::WAIT_CMD => match CMD::spec_from_byte(in_char) {
            Some(CMD::WRITE_FILE_REQ) => (
                ChunkParserView {
                    state: GL_CHUNK_STATE::IN_NAME_LEN,
                    cmd: CMD::WRITE_FILE_REQ,
                    cur_data_pos: 0,
                    ..v
                },
                0,
            ),
            Some(CMD::WRITE_FILE_RESP) => (
                ChunkParserView {
                    state: GL_CHUNK_STATE::WAIT_STATUS_CODE,
                    cmd: CMD::WRITE_FILE_RESP,
                    ..v
                },
                0,
            ),
            Some(CMD::WRITE_CHUNK_REQ) => (
                ChunkParserView {
                    state: GL_CHUNK_STATE::IN_CHUNK_ID,
                    cmd: CMD::WRITE_CHUNK_REQ,
                    cur_data_pos: 0,
                    ..v
                },
                0,
            ),
            Some(CMD::WRITE_CHUNK_RESP) => (
                ChunkParserView {
                    state: GL_CHUNK_STATE::IN_CHUNK_ID,
                    cmd: CMD::WRITE_CHUNK_RESP,
                    cur_data_pos: 0,
                    ..v
                },
                0,
            ),
            _ => (ready_view(v.sent), 0),
        },
        GL_CHUNK_STATE::IN_NAME_LEN => {
            let buf = v.file_name_len_buf.push(in_char);
            let pos = (v.cur_data_pos + 1) as usize;
            if pos >= 4 {
                (
                    ChunkParserView {
                        file_name_len_buf: buf,
                        file_name_len: be_u32(buf),
                        state: if be_u32(buf) == 0 {
                            GL_CHUNK_STATE::IN_TOTAL_LEN
                        } else {
                            GL_CHUNK_STATE::IN_FILE_NAME
                        },
                        cur_data_pos: 0,
                        ..v
                    },
                    0,
                )
            } else {
                (ChunkParserView { file_name_len_buf: buf, cur_data_pos: pos, ..v }, 0)
            }
        },
        GL_CHUNK_STATE::IN_FILE_NAME => {
            let buf = v.file_name_buf.push(in_char);
            let pos = (v.cur_data_pos + 1) as usize;
            if pos >= v.file_name_len {
                (
                    ChunkParserView {
                        file_name_buf: buf,
                        state: GL_CHUNK_STATE::IN_TOTAL_LEN,
                        cur_data_pos: 0,
                        ..v
                    },
                    0,
                )
            } else {
                (ChunkParserView { file_name_buf: buf, cur_data_pos: pos, ..v }, 0)
            }
        },
        GL_CHUNK_STATE::IN_TOTAL_LEN => {
            let buf = v.total_len_buf.push(in_char);
            let pos = (v.cur_data_pos + 1) as usize;
            if pos >= 8 {
                (
                    ChunkParserView {
                        total_len_buf: buf,
                        total_len: be_u64(buf),
                        state: GL_CHUNK_STATE::WAIT_END,
                        cur_data_pos: 0,
                        ..v
                    },
                    0,
                )
            } else {
                (ChunkParserView { total_len_buf: buf, cur_data_pos: pos, ..v }, 0)
            }
        },
        GL_CHUNK_STATE::WAIT_STATUS_CODE => (
            ChunkParserView { status: Some(in_char), state: GL_CHUNK_STATE::WAIT_END, ..v },
            0,
        ),
        GL_CHUNK_STATE::IN_CHUNK_ID => {
            let buf = v.chunk_id_buf.push(in_char);
            let pos = (v.cur_data_pos + 1) as usize;
            if pos >= 4 {
                if v.cmd == CMD::WRITE_CHUNK_REQ {
                    (
                        ChunkParserView {
                            chunk_id_buf: buf,
                            chunk_id: be_u32(buf),
                            state: GL_CHUNK_STATE::IN_START,
                            cur_data_pos: 0,
                            ..v
                        },
                        0,
                    )
                } else {
                    (
                        ChunkParserView {
                            chunk_id_buf: buf,
                            chunk_id: be_u32(buf),
                            cur_data_pos: pos,
                            state: GL_CHUNK_STATE::WAIT_STATUS_CODE,
                            ..v
                        },
                        0,
                    )
                }
            } else {
                (ChunkParserView { chunk_id_buf: buf, cur_data_pos: pos, ..v }, 0)
            }
        },
        GL_CHUNK_STATE::IN_START => {
            let buf = v.chunk_start_buf.push(in_char);
            let pos = (v.cur_data_pos + 1) as usize;
            if pos >= 8 {
                (
                    ChunkParserView {
                        chunk_start_buf: buf,
                        chunk_start: be_u64(buf),
                        state: GL_CHUNK_STATE::IN_CHUNK_LEN,
                        cur_data_pos: 0,
                        ..v
                    },
                    0,
                )
            } else {
                (ChunkParserView { chunk_start_buf: buf, cur_data_pos: pos, ..v }, 0)
            }
        },
        GL_CHUNK_STATE::IN_CHUNK_LEN => {
            let buf = v.chunk_len_buf.push(in_char);
            let pos = (v.cur_data_pos + 1) as usize;
            if pos >= 8 {
                (
                    ChunkParserView {
                        chunk_len_buf: buf,
                        chunk_len: be_u64(buf),
                        state: if be_u64(buf) == 0 {
                            GL_CHUNK_STATE::WAIT_END
                        } else {
                            GL_CHUNK_STATE::IN_CHUNK
                        },
                        cur_data_pos: 0,
                        ..v
                    },
                    be_u64(buf),
                )
            } else {
                (ChunkParserView { chunk_len_buf: buf, cur_data_pos: pos, ..v }, 0)
            }
        },
        GL_CHUNK_STATE::IN_CHUNK => {
            let (v1, advance) = match buffer {
                Some(b) => {
                    let v1 = if !v.with_error {
                        let ok = next_outcome(v, oks);
                        let m = MsgView::ChunkReq {
                            handle: v.handle_id,
                            chunkid: v.chunk_id,
                            start: (v.chunk_start + v.cur_data_pos) as u64,
                            len: b.len() as u64,
                            chunk: b,
                        };
                        ChunkParserView {
                            status: if ok {
                                None
                            } else {
                                Some(0)
                            },
                            with_error: !ok,
                            ..emit(v, m, oks)
                        }
                    } else {
                        v
                    };
                    (v1, b.len())
                },
                None => (v, 1),
            };
            let pos = (v.cur_data_pos + advance) as usize;
            if pos >= v.chunk_len {
                (ChunkParserView { cur_data_pos: pos, state: GL_CHUNK_STATE::WAIT_END, ..v1 }, 0)
            } else {
                (ChunkParserView { cur_data_pos: pos, ..v1 }, 0)
            }
        },
        GL_CHUNK_STATE::WAIT_END => if in_char == TAG_END_BYTE {
            match end_msg(v) {
                Some(m) => (ready_view(emit(v, m, oks).sent), 0),
                None => (ready_view(v.sent), 0),
            }
        } else {
            (v, 0)
        },
    }
}


/// The chunk bytes of an optional slice, as a sequence.
pub open spec fn opt_bytes(buffer: Option<&[u8]>) -> Option<Seq<u8>> {
    match buffer {
        Some(b) => Some(b@),
        None => None,
    }
}

/// Decoding a byte keeps the bounds between the fields.
pub proof fn lemma_step_keeps_inv(
    v: ChunkParserView,
    in_char: u8,
    buffer: Option<Seq<u8>>,
    oks: Seq<bool>,
)
    requires
        inv(v),
        step_fault(v, in_char, buffer) is None,
    ensures
        inv(chunk_step(v, in_char, buffer, oks).0),
        chunk_step(v, in_char, buffer, oks).0.sent == v.sent || chunk_step(
            v,
            in_char,
            buffer,
            oks,
        ).0.sent == v.sent.push((chunk_step(v, in_char, buffer, oks).0.sent.last().0, next_outcome(v, oks))),
{
}

impl ChunkParser {
    /// The decoder's fields keep their bounds.
    pub open spec fn wf(&self) -> bool {
        inv(self@)
    }

    /// The channel the decoder hands its messages to.
    pub closed spec fn channel(&self) -> SyncSender<ProtocolMsgs> {
        self.callback
    }

    /// A decoder that hands the messages it decodes to `callback`.
    pub fn new(callback: SyncSender<ProtocolMsgs>) -> (p: Self)
        ensures
            p@ == ready_view(Seq::empty()),
            p.wf(),
            p.channel() == callback,
    {
        ChunkParser {
            state: GL_CHUNK_STATE::WAIT_START,
            cur_data_pos: 0,
            cmd: CMD::UNKNOWN,
            file_name_len: 0,
            handle_id: 0,
            handle_id_buf: Vec::new(),
            file_name_len_buf: Vec::new(),
            file_name_buf: Vec::new(),
            chunk_id: 0,
            chunk_id_buf: Vec::new(),
            total_len: 0,
            total_len_buf: Vec::new(),
            chunk_start: 0,
            chunk_start_buf: Vec::new(),
            chunk_len: 0,
            chunk_len_buf: Vec::new(),
            status: None,
            with_error: false,
            callback: callback,
            sent: Ghost(Seq::empty()),
        }
    }

    /// Forgets the frame being read: the decoder waits for a start tag again, with empty
    /// field buffers. The channel and the log of sent messages stay.
    pub fn reset(&mut self)
        ensures
            final(self)@ == ready_view(old(self)@.sent),
            final(self).wf(),
            final(self).channel() == old(self).channel(),
    {
        self.state = GL_CHUNK_STATE::WAIT_START;
        self.cur_data_pos = 0;
        self.cmd = CMD::UNKNOWN;
        self.handle_id = 0;
        self.handle_id_buf = Vec::new();
        self.file_name_len = 0;
        self.file_name_len_buf = Vec::new();
        self.file_name_buf = Vec::new();
        self.chunk_id = 0;
        self.chunk_id_buf = Vec::new();
        self.total_len = 0;
        self.total_len_buf = Vec::new();
        self.chunk_len = 0;
        self.chunk_len_buf = Vec::new();
        self.status = None;
        self.chunk_start = 0;
        self.chunk_start_buf = Vec::new();
        self.with_error = false;
        assert(self@ =~= ready_view(old(self)@.sent));
    }

    /// Hands `msg` to the channel and records it with the outcome.
    fn send(&mut self, msg: ProtocolMsgs) -> (ok: bool)
        ensures
            final(self)@ == (ChunkParserView { sent: old(self)@.sent.push((msg@, ok)), ..old(self)@ }),
            final(self).channel() == old(self).channel(),
    {
        let ghost m = msg@;
        let ok = send_msg(&self.callback, msg);
        self.sent = Ghost(self.sent@.push((m, ok)));
        assert(self@ =~= (ChunkParserView { sent: old(self)@.sent.push((m, ok)), ..old(self)@ }));
        ok
    }

    /// Decodes one byte `in_char`; while a chunk is read, `buffer` may instead carry a run of
    /// chunk bytes. Returns the chunk length when the chunk length field has just been read,
    /// else 0. A decoded message is handed to the channel.
    pub fn on_data(&mut self, in_char: u8, buffer: Option<&[u8]>) -> (ret: u64)
        requires
            old(self).wf(),
            step_fault(old(self)@, in_char, opt_bytes(buffer)) is None,
        ensures
            final(self).wf(),
            final(self).channel() == old(self).channel(),
            (final(self)@, ret) == chunk_step(
                old(self)@,
                in_char,
                opt_bytes(buffer),
                outcomes(final(self)@.sent),
            ),
    {
        let ghost v0 = self@;
        let mut ret: u64 = 0;
        match self.state {
            GL_CHUNK_STATE::WAIT_START => {
                if in_char == TAG_START_BYTE {
                    self.cur_data_pos = 0;
                    self.state = GL_CHUNK_STATE::IN_HANDLE_ID;
                }
            },
            GL_CHUNK_STATE::IN_HANDLE_ID => {
                self.handle_id_buf.push(in_char);
                self.cur_data_pos = self.cur_data_pos + 1;
                if self.cur_data_pos >= 4 {
                    self.handle_id = read_be_u32(self.handle_id_buf.as_slice());
                    self.state = GL_CHUNK_STATE::WAIT_CMD;
                }
            },
            GL_CHUNK_STATE::WAIT_CMD => {
                match CMD::from_u8(in_char) {
                    Some(CMD::WRITE_FILE_REQ) => {
                        self.state = GL_CHUNK_STATE::IN_NAME_LEN;
                        self.cmd = CMD::WRITE_FILE_REQ;
                        self.cur_data_pos = 0;
                    },
                    Some(CMD::WRITE_FILE_RESP) => {
                        self.state = GL_CHUNK_STATE::WAIT_STATUS_CODE;
                        self.cmd = CMD::WRITE_FILE_RESP;
                    },
                    Some(CMD::WRITE_CHUNK_REQ) => {
                        self.state = GL_CHUNK_STATE::IN_CHUNK_ID;
                        self.cmd = CMD::WRITE_CHUNK_REQ;
                        self.cur_data_pos = 0;
                    },
                    Some(CMD::WRITE_CHUNK_RESP) => {
                        self.state = GL_CHUNK_STATE::IN_CHUNK_ID;
                        self.cmd = CMD::WRITE_CHUNK_RESP;
                        self.cur_data_pos = 0;
                    },
                    _ => {
                        self.reset();
                    },
                }
            },
            GL_CHUNK_STATE::IN_NAME_LEN => {
                self.file_name_len_buf.push(in_char);
                self.cur_data_pos = self.cur_data_pos + 1;
                if self.cur_data_pos >= 4 {
                    self.file_name_len = read_be_u32(self.file_name_len_buf.as_slice());
                    self.state = if self.file_name_len == 0 {
                        GL_CHUNK_STATE::IN_TOTAL_LEN
                    } else {
                        GL_CHUNK_STATE::IN_FILE_NAME
                    };
                    self.cur_data_pos = 0;
                }
            },
            GL_CHUNK_STATE::IN_FILE_NAME => {
                self.file_name_buf.push(in_char);
                self.cur_data_pos = self.cur_data_pos + 1;
                if self.cur_data_pos >= self.file_name_len as usize {
                    self.state = GL_CHUNK_STATE::IN_TOTAL_LEN;
                    self.cur_data_pos = 0;
                }
            },
            GL_CHUNK_STATE::IN_TOTAL_LEN => {
                self.total_len_buf.push(in_char);
                self.cur_data_pos = self.cur_data_pos + 1;
                if self.cur_data_pos >= 8 {
                    self.total_len = read_be_u64(self.total_len_buf.as_slice());
                    self.state = GL_CHUNK_STATE::WAIT_END;
                    self.cur_data_pos = 0;
                }
            },
            GL_CHUNK_STATE::WAIT_STATUS_CODE => {
                self.status = Some(in_char);
                self.state = GL_CHUNK_STATE::WAIT_END;
            },
            GL_CHUNK_STATE::IN_CHUNK_ID => {
                self.chunk_id_buf.push(in_char);
                self.cur_data_pos = self.cur_data_pos + 1;
                if self.cur_data_pos >= 4 {
                    self.chunk_id = read_be_u32(self.chunk_id_buf.as_slice());
                    if self.cmd == CMD::WRITE_CHUNK_REQ {
                        self.state = GL_CHUNK_STATE::IN_START;
                        self.cur_data_pos = 0;
                    } else {
                        self.state = GL_CHUNK_STATE::WAIT_STATUS_CODE;
                    }
                }
            },
            GL_CHUNK_STATE::IN_START => {
                self.chunk_start_buf.push(in_char);
                self.cur_data_pos = self.cur_data_pos + 1;
                if self.cur_data_pos >= 8 {
                    self.chunk_start = read_be_u64(self.chunk_start_buf.as_slice());
                    self.state = GL_CHUNK_STATE::IN_CHUNK_LEN;
                    self.cur_data_pos = 0;
                }
            },
            GL_CHUNK_STATE::IN_CHUNK_LEN => {
                self.chunk_len_buf.push(in_char);
                self.cur_data_pos = self.cur_data_pos + 1;
                if self.cur_data_pos >= 8 {
                    self.chunk_len = read_be_u64(self.chunk_len_buf.as_slice());
                    self.state = if self.chunk_len == 0 {
                        GL_CHUNK_STATE::WAIT_END
                    } else {
                        GL_CHUNK_STATE::IN_CHUNK
                    };
                    self.cur_data_pos = 0;
                    ret = self.chunk_len;
                }
            },
            GL_CHUNK_STATE::IN_CHUNK => {
                match buffer {
                    Some(buffer) => {
                        if !self.with_error {
                            let chunk_req = WriteChunkReq {
                                handle: self.handle_id,
                                chunkid: self.chunk_id,
                                start: self.chunk_start + self.cur_data_pos as u64,
                                len: buffer.len() as u64,
                                chunk: vstd::slice::slice_to_vec(buffer),
                            };
                            let ok = self.send(ProtocolMsgs::ChunkReq(chunk_req));
                            if ok {
                                self.status = None;
                            } else {
                                self.with_error = true;
                                self.status = Some(0);
                            }
                        }
                        self.cur_data_pos = self.cur_data_pos + buffer.len();
                    },
                    None => {
                        self.cur_data_pos = self.cur_data_pos + 1;
                    },
                }
                if self.cur_data_pos as u64 >= self.chunk_len {
                    self.state = GL_CHUNK_STATE::WAIT_END;
                }
            },
            GL_CHUNK_STATE::WAIT_END => {
                if in_char == TAG_END_BYTE {
                    match self.cmd {
                        CMD::WRITE_FILE_REQ => {
                            let name = string_from_utf8(self.file_name_buf.clone());
                            let file_req = WriteFileReq {
                                handle: self.handle_id,
                                file_name: name.unwrap(),
                                total_len: self.total_len,
                            };
                            self.send(ProtocolMsgs::FileReq(file_req));
                        },
                        CMD::WRITE_FILE_RESP => {
                            let status: u8 = match self.status {
                                Some(s) => s,
                                None => 0,
                            };
                            let file_resp = WriteFileResp { handle: self.handle_id, status };
                            self.send(ProtocolMsgs::FileResp(file_resp));
                        },
                        CMD::WRITE_CHUNK_RESP => {
                            let status: u8 = match self.status {
                                Some(s) => s,
                                None => 0,
                            };
                            let chunk_resp = WriteChunkResp {
                                handle: self.handle_id,
                                chunkid: self.chunk_id,
                                status,
                            };
                            self.send(ProtocolMsgs::ChunkResp(chunk_resp));
                        },
                        _ => {},
                    }
                    self.reset();
                }
            },
        }
        proof {
            let oks = outcomes(self@.sent);
            lemma_step_keeps_inv(v0, in_char, opt_bytes(buffer), oks);
            assert(self@ =~= chunk_step(v0, in_char, opt_bytes(buffer), oks).0);
        }
        ret
    }
}

/// Whether decoding `in_char` (or `buffer`) in state `v` hands a message to the channel.
pub open spec fn step_emits(v: ChunkParserView, in_char: u8, buffer: Option<Seq<u8>>) -> bool {
    ||| v.state == GL_CHUNK_STATE::IN_CHUNK && buffer is Some && !v.with_error
    ||| v.state == GL_CHUNK_STATE::WAIT_END && in_char == TAG_END_BYTE && (v.cmd
        == CMD::WRITE_FILE_REQ || v.cmd == CMD::WRITE_FILE_RESP || v.cmd == CMD::WRITE_CHUNK_RESP)
}

/// A step appends one entry to the log exactly when it emits, and the outcomes it is given
/// matter only through the outcome of that send.
pub proof fn lemma_step_log(
    v: ChunkParserView,
    in_char: u8,
    buffer: Option<Seq<u8>>,
    oks1: Seq<bool>,
    oks2: Seq<bool>,
)
    ensures
        step_emits(v, in_char, buffer) ==> chunk_step(v, in_char, buffer, oks1).0.sent.len()
            == v.sent.len() + 1 && chunk_step(v, in_char, buffer, oks1).0.sent.drop_last()
            == v.sent && chunk_step(v, in_char, buffer, oks1).0.sent.last().1 == next_outcome(
            v,
            oks1,
        ),
        !step_emits(v, in_char, buffer) ==> chunk_step(v, in_char, buffer, oks1).0.sent == v.sent,
        (step_emits(v, in_char, buffer) ==> next_outcome(v, oks1) == next_outcome(v, oks2))
            ==> chunk_step(v, in_char, buffer, oks1) == chunk_step(v, in_char, buffer, oks2),
{
    if step_emits(v, in_char, buffer) {
        assert(chunk_step(v, in_char, buffer, oks1).0.sent.drop_last() =~= v.sent);
    }
}

impl ChunkParser {
    /// The fault that stops decoding `in_char` (or `buffer`) now, if any.
    pub fn fault(&self, in_char: u8, buffer: Option<&[u8]>) -> (f: Option<ParseFault>)
        ensures
            f == step_fault(self@, in_char, opt_bytes(buffer)),
    {
        match self.state {
            GL_CHUNK_STATE::IN_CHUNK => {
                match buffer {
                    None => {
                        if !self.with_error {
                            Some(ParseFault::LoneChunkByte)
                        } else if self.cur_data_pos == usize::MAX {
                            Some(ParseFault::PositionOverflow)
                        } else {
                            None
                        }
                    },
                    Some(b) => {
                        if b.len() > usize::MAX - self.cur_data_pos || (!self.with_error
                            && self.cur_data_pos as u64 > u64::MAX - self.chunk_start) {
                            Some(ParseFault::PositionOverflow)
                        } else {
                            None
                        }
                    },
                }
            },
            GL_CHUNK_STATE::WAIT_END => {
                if in_char == TAG_END_BYTE && self.cmd == CMD::WRITE_FILE_REQ && !is_utf8(
                    self.file_name_buf.as_slice(),
                ) {
                    Some(ParseFault::InvalidFileName)
                } else {
                    None
                }
            },
            _ => None,
        }
    }
}

} // verus!
