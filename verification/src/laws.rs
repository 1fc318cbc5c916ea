//! What the frames written by the encoders decode to, and how reads may be split.
use crate::parser::{
    chunk_step, end_msg, inv, lemma_step_keeps_inv, next_outcome, outcome_at, ready_view, step_fault,
    ChunkParserView, ParseFault,
};
use crate::protocol::{
    chunk_req_frame, chunk_resp_frame, file_req_frame, file_resp_frame, MsgView, CMD,
    CMD_WRITE_CHUNK_REQ, CMD_WRITE_CHUNK_RESP, CMD_WRITE_FILE_REQ, CMD_WRITE_FILE_RESP,
    GL_CHUNK_STATE, TAG_END_BYTE, TAG_START_BYTE,
};
use crate::protocol::GL_STATE;
use crate::stream::{
    pp_feed, pp_inv, pp_sent, pp_unit, unit_fault, unit_len, ProtocolParserView,
};
use crate::wire::{
    be_bytes_u32, be_bytes_u64, be_u64, lemma_be_u32_roundtrip, lemma_be_u64_roundtrip,
};
use vstd::prelude::*;
use vstd::utf8::{encode_utf8, valid_utf8};

verus! {

/// The decoder after the bytes `bytes`, each handed over alone.
#[verifier::opaque]
pub open spec fn byte_steps(cp: ChunkParserView, bytes: Seq<u8>, oks: Seq<bool>) -> ChunkParserView
    decreases bytes.len(),
{
    if bytes.len() == 0 {
        cp
    } else {
        byte_steps(chunk_step(cp, bytes[0], None, oks).0, bytes.drop_first(), oks)
    }
}

/// Each of `bytes`, handed over alone, is decoded without fault and completes no chunk length.
#[verifier::opaque]
pub open spec fn quiet(cp: ChunkParserView, bytes: Seq<u8>, oks: Seq<bool>) -> bool
    decreases bytes.len(),
{
    bytes.len() == 0 || (step_fault(cp, bytes[0], None) is None && chunk_step(
        cp,
        bytes[0],
        None,
        oks,
    ).1 == 0 && quiet(chunk_step(cp, bytes[0], None, oks).0, bytes.drop_first(), oks))
}

/// Splitting a run of bytes in two.
pub proof fn lemma_steps_concat(cp: ChunkParserView, a: Seq<u8>, b: Seq<u8>, oks: Seq<bool>)
    ensures
        byte_steps(cp, a + b, oks) == byte_steps(byte_steps(cp, a, oks), b, oks),
        quiet(cp, a + b, oks) == (quiet(cp, a, oks) && quiet(byte_steps(cp, a, oks), b, oks)),
    decreases a.len(),
{
    reveal_with_fuel(byte_steps, 1);
    reveal_with_fuel(quiet, 1);
    if a.len() == 0 {
        assert(a + b =~= b);
    } else {
        let c1 = chunk_step(cp, a[0], None, oks).0;
        assert((a + b)[0] == a[0]);
        assert((a + b).drop_first() =~= a.drop_first() + b);
        lemma_steps_concat(c1, a.drop_first(), b, oks);
    }
}

/// A reader in byte mode hands a quiet run of bytes to its decoder one by one.
pub proof fn lemma_feed_quiet(
    p: ProtocolParserView,
    cp: ChunkParserView,
    bytes: Seq<u8>,
    rest: Seq<u8>,
    oks: Seq<bool>,
)
    requires
        p.state == GL_STATE::IN_BYTE_MODE,
        p.cmd_parser == Some(cp),
        quiet(cp, bytes, oks),
    ensures
        pp_feed(p, bytes + rest, oks) == pp_feed(
            (ProtocolParserView { cmd_parser: Some(byte_steps(cp, bytes, oks)), ..p }),
            rest,
            oks,
        ),
    decreases bytes.len(),
{
    reveal(pp_feed);
    reveal_with_fuel(byte_steps, 1);
    reveal_with_fuel(quiet, 1);
    if bytes.len() == 0 {
        assert(bytes + rest =~= rest);
        assert(p == ProtocolParserView { cmd_parser: Some(byte_steps(cp, bytes, oks)), ..p });
    } else {
        let data = bytes + rest;
        assert(data[0] == bytes[0]);
        let c1 = chunk_step(cp, bytes[0], None, oks).0;
        let p1 = ProtocolParserView { cmd_parser: Some(c1), ..p };
        assert(unit_len(p, data) == 1);
        assert(unit_fault(p, data) is None);
        assert(pp_unit(p, data, oks) == p1);
        assert(data.skip(1) =~= bytes.drop_first() + rest);
        lemma_feed_quiet(p1, c1, bytes.drop_first(), rest, oks);
    }
}

/// The width of the fixed-size field that state `s` reads, 0 for the other states.
pub open spec fn field_width(s: GL_CHUNK_STATE) -> nat {
    match s {
        GL_CHUNK_STATE::IN_HANDLE_ID => 4,
        GL_CHUNK_STATE::IN_NAME_LEN => 4,
        GL_CHUNK_STATE::IN_CHUNK_ID => 4,
        GL_CHUNK_STATE::IN_TOTAL_LEN => 8,
        GL_CHUNK_STATE::IN_START => 8,
        GL_CHUNK_STATE::IN_CHUNK_LEN => 8,
        _ => 0,
    }
}

/// The buffer of the field that state `v.state` reads.
pub open spec fn field_buf(v: ChunkParserView) -> Seq<u8> {
    match v.state {
        GL_CHUNK_STATE::IN_HANDLE_ID => v.handle_id_buf,
        GL_CHUNK_STATE::IN_NAME_LEN => v.file_name_len_buf,
        GL_CHUNK_STATE::IN_CHUNK_ID => v.chunk_id_buf,
        GL_CHUNK_STATE::IN_TOTAL_LEN => v.total_len_buf,
        GL_CHUNK_STATE::IN_START => v.chunk_start_buf,
        _ => v.chunk_len_buf,
    }
}

/// `v` with the buffer of the field that its state reads replaced by `b`.
pub open spec fn with_field_buf(v: ChunkParserView, b: Seq<u8>) -> ChunkParserView {
    match v.state {
        GL_CHUNK_STATE::IN_HANDLE_ID => ChunkParserView { handle_id_buf: b, ..v },
        GL_CHUNK_STATE::IN_NAME_LEN => ChunkParserView { file_name_len_buf: b, ..v },
        GL_CHUNK_STATE::IN_CHUNK_ID => ChunkParserView { chunk_id_buf: b, ..v },
        GL_CHUNK_STATE::IN_TOTAL_LEN => ChunkParserView { total_len_buf: b, ..v },
        GL_CHUNK_STATE::IN_START => ChunkParserView { chunk_start_buf: b, ..v },
        _ => ChunkParserView { chunk_len_buf: b, ..v },
    }
}

/// Bytes that do not yet complete a fixed-size field are added to its buffer.
pub proof fn lemma_field_prefix(v: ChunkParserView, bytes: Seq<u8>, oks: Seq<bool>)
    requires
        field_width(v.state) > 0,
        v.cur_data_pos + bytes.len() < field_width(v.state),
    ensures
        quiet(v, bytes, oks),
        byte_steps(v, bytes, oks) == (ChunkParserView {
            cur_data_pos: (v.cur_data_pos + bytes.len()) as usize,
            ..with_field_buf(v, field_buf(v) + bytes)
        }),
    decreases bytes.len(),
{
    reveal_with_fuel(byte_steps, 1);
    reveal_with_fuel(quiet, 1);
    if bytes.len() == 0 {
        assert(field_buf(v) + bytes =~= field_buf(v));
        assert(with_field_buf(v, field_buf(v)) == v);
    } else {
        let v1 = chunk_step(v, bytes[0], None, oks).0;
        assert(v1 == ChunkParserView {
            cur_data_pos: (v.cur_data_pos + 1) as usize,
            ..with_field_buf(v, field_buf(v).push(bytes[0]))
        });
        lemma_field_prefix(v1, bytes.drop_first(), oks);
        assert(field_buf(v).push(bytes[0]) + bytes.drop_first() =~= field_buf(v) + bytes);
    }
}

/// A single byte handed over alone.
pub proof fn lemma_one_byte(cp: ChunkParserView, c: u8, oks: Seq<bool>)
    ensures
        byte_steps(cp, seq![c], oks) == chunk_step(cp, c, None, oks).0,
        quiet(cp, seq![c], oks) == (step_fault(cp, c, None) is None && chunk_step(
            cp,
            c,
            None,
            oks,
        ).1 == 0),
{
    reveal_with_fuel(byte_steps, 2);
    reveal_with_fuel(quiet, 2);
    assert(seq![c][0] == c);
    assert(seq![c].drop_first() =~= Seq::<u8>::empty());
}

/// Reading a complete handle field from its first byte on.
pub proof fn lemma_handle_field(cp: ChunkParserView, h: u32, oks: Seq<bool>)
    requires
        cp.state == GL_CHUNK_STATE::IN_HANDLE_ID,
        cp.cur_data_pos == 0,
        cp.handle_id_buf == Seq::<u8>::empty(),
    ensures
        quiet(cp, be_bytes_u32(h), oks),
        byte_steps(cp, be_bytes_u32(h), oks) == (ChunkParserView {
            handle_id_buf: be_bytes_u32(h),
            cur_data_pos: 4,
            handle_id: h,
            state: GL_CHUNK_STATE::WAIT_CMD,
            ..cp
        }),
{
    let b = be_bytes_u32(h);
    lemma_be_u32_roundtrip(h);
    let head = b.take(3);
    lemma_field_prefix(cp, head, oks);
    let c1 = byte_steps(cp, head, oks);
    assert(Seq::<u8>::empty() + head =~= head);
    lemma_one_byte(c1, b[3], oks);
    assert(head.push(b[3]) =~= b);
    assert(head + seq![b[3]] =~= b);
    lemma_steps_concat(cp, head, seq![b[3]], oks);
}

/// Reading a complete chunk id field from its first byte on.
pub proof fn lemma_chunk_id_field(cp: ChunkParserView, id: u32, oks: Seq<bool>)
    requires
        cp.state == GL_CHUNK_STATE::IN_CHUNK_ID,
        cp.cur_data_pos == 0,
        cp.chunk_id_buf == Seq::<u8>::empty(),
    ensures
        quiet(cp, be_bytes_u32(id), oks),
        cp.cmd == CMD::WRITE_CHUNK_REQ ==> byte_steps(cp, be_bytes_u32(id), oks) == (
        ChunkParserView {
            chunk_id_buf: be_bytes_u32(id),
            cur_data_pos: 0,
            chunk_id: id,
            state: GL_CHUNK_STATE::IN_START,
            ..cp
        }),
        cp.cmd != CMD::WRITE_CHUNK_REQ ==> byte_steps(cp, be_bytes_u32(id), oks) == (
        ChunkParserView {
            chunk_id_buf: be_bytes_u32(id),
            cur_data_pos: 4,
            chunk_id: id,
            state: GL_CHUNK_STATE::WAIT_STATUS_CODE,
            ..cp
        }),
{
    let b = be_bytes_u32(id);
    lemma_be_u32_roundtrip(id);
    let head = b.take(3);
    lemma_field_prefix(cp, head, oks);
    let c1 = byte_steps(cp, head, oks);
    assert(Seq::<u8>::empty() + head =~= head);
    lemma_one_byte(c1, b[3], oks);
    assert(head.push(b[3]) =~= b);
    assert(head + seq![b[3]] =~= b);
    lemma_steps_concat(cp, head, seq![b[3]], oks);
}

/// Reading a complete name length field from its first byte on; a zero length skips the
/// name.
pub proof fn lemma_name_len_field(cp: ChunkParserView, n: u32, oks: Seq<bool>)
    requires
        cp.state == GL_CHUNK_STATE::IN_NAME_LEN,
        cp.cur_data_pos == 0,
        cp.file_name_len_buf == Seq::<u8>::empty(),
    ensures
        quiet(cp, be_bytes_u32(n), oks),
        byte_steps(cp, be_bytes_u32(n), oks) == (ChunkParserView {
            file_name_len_buf: be_bytes_u32(n),
            cur_data_pos: 0,
            file_name_len: n,
            state: if n == 0 {
                GL_CHUNK_STATE::IN_TOTAL_LEN
            } else {
                GL_CHUNK_STATE::IN_FILE_NAME
            },
            ..cp
        }),
{
    let b = be_bytes_u32(n);
    lemma_be_u32_roundtrip(n);
    let head = b.take(3);
    lemma_field_prefix(cp, head, oks);
    let c1 = byte_steps(cp, head, oks);
    assert(Seq::<u8>::empty() + head =~= head);
    lemma_one_byte(c1, b[3], oks);
    assert(head.push(b[3]) =~= b);
    assert(head + seq![b[3]] =~= b);
    lemma_steps_concat(cp, head, seq![b[3]], oks);
}

/// Reading a complete total length field from its first byte on.
pub proof fn lemma_total_len_field(cp: ChunkParserView, t: u64, oks: Seq<bool>)
    requires
        cp.state == GL_CHUNK_STATE::IN_TOTAL_LEN,
        cp.cur_data_pos == 0,
        cp.total_len_buf == Seq::<u8>::empty(),
    ensures
        quiet(cp, be_bytes_u64(t), oks),
        byte_steps(cp, be_bytes_u64(t), oks) == (ChunkParserView {
            total_len_buf: be_bytes_u64(t),
            cur_data_pos: 0,
            total_len: t,
            state: GL_CHUNK_STATE::WAIT_END,
            ..cp
        }),
{
    let b = be_bytes_u64(t);
    lemma_be_u64_roundtrip(t);
    let head = b.take(7);
    lemma_field_prefix(cp, head, oks);
    let c1 = byte_steps(cp, head, oks);
    assert(Seq::<u8>::empty() + head =~= head);
    lemma_one_byte(c1, b[7], oks);
    assert(head.push(b[7]) =~= b);
    assert(head + seq![b[7]] =~= b);
    lemma_steps_concat(cp, head, seq![b[7]], oks);
}

/// Reading a complete chunk start field from its first byte on.
pub proof fn lemma_start_field(cp: ChunkParserView, st: u64, oks: Seq<bool>)
    requires
        cp.state == GL_CHUNK_STATE::IN_START,
        cp.cur_data_pos == 0,
        cp.chunk_start_buf == Seq::<u8>::empty(),
    ensures
        quiet(cp, be_bytes_u64(st), oks),
        byte_steps(cp, be_bytes_u64(st), oks) == (ChunkParserView {
            chunk_start_buf: be_bytes_u64(st),
            cur_data_pos: 0,
            chunk_start: st,
            state: GL_CHUNK_STATE::IN_CHUNK_LEN,
            ..cp
        }),
{
    let b = be_bytes_u64(st);
    lemma_be_u64_roundtrip(st);
    let head = b.take(7);
    lemma_field_prefix(cp, head, oks);
    let c1 = byte_steps(cp, head, oks);
    assert(Seq::<u8>::empty() + head =~= head);
    lemma_one_byte(c1, b[7], oks);
    assert(head.push(b[7]) =~= b);
    assert(head + seq![b[7]] =~= b);
    lemma_steps_concat(cp, head, seq![b[7]], oks);
}

/// Reading the name bytes that remain of a file name.
pub proof fn lemma_name_field(cp: ChunkParserView, bytes: Seq<u8>, oks: Seq<bool>)
    requires
        cp.state == GL_CHUNK_STATE::IN_FILE_NAME,
        bytes.len() >= 1,
        cp.cur_data_pos + bytes.len() == cp.file_name_len,
    ensures
        quiet(cp, bytes, oks),
        byte_steps(cp, bytes, oks) == (ChunkParserView {
            file_name_buf: cp.file_name_buf + bytes,
            cur_data_pos: 0,
            state: GL_CHUNK_STATE::IN_TOTAL_LEN,
            ..cp
        }),
    decreases bytes.len(),
{
    reveal_with_fuel(byte_steps, 1);
    reveal_with_fuel(quiet, 1);
    let c1 = chunk_step(cp, bytes[0], None, oks).0;
    if bytes.len() == 1 {
        lemma_one_byte(cp, bytes[0], oks);
        assert(bytes =~= seq![bytes[0]]);
        assert(cp.file_name_buf + bytes =~= cp.file_name_buf.push(bytes[0]));
    } else {
        lemma_name_field(c1, bytes.drop_first(), oks);
        assert(cp.file_name_buf.push(bytes[0]) + bytes.drop_first() =~= cp.file_name_buf + bytes);
    }
}

/// The reader `p` after a frame, with its decoder waiting for the next one and the log
/// `sent`.
pub open spec fn after_frame(p: ProtocolParserView, sent: Seq<(MsgView, bool)>) -> ProtocolParserView {
    ProtocolParserView { cmd_parser: Some(ready_view(sent)), ..p }
}

/// The reader `p` is in byte mode between two frames.
pub open spec fn at_frame_boundary(p: ProtocolParserView) -> bool {
    &&& pp_inv(p)
    &&& p.state == GL_STATE::IN_BYTE_MODE
    &&& p.cmd_parser matches Some(cp) && cp == ready_view(cp.sent)
}

/// The log after sending `m`.
pub open spec fn log_send(p: ProtocolParserView, m: MsgView, oks: Seq<bool>) -> Seq<(MsgView, bool)> {
    pp_sent(p).push((m, outcome_at(oks, pp_sent(p).len())))
}

/// A reader between frames, handed the frame of a write-file response in one read, hands
/// exactly that response to its channel and waits for the next frame.
pub proof fn law_file_resp_decodes(
    p: ProtocolParserView,
    handle_id: u32,
    status: u8,
    oks: Seq<bool>,
)
    requires
        at_frame_boundary(p),
    ensures
        pp_feed(p, file_resp_frame(handle_id, status), oks) == (after_frame(
            p,
            log_send(p, MsgView::FileResp { handle: handle_id, status }, oks),
        ), None::<ParseFault>),
        quiet(p.cmd_parser.unwrap(), file_resp_frame(handle_id, status), oks),
        byte_steps(p.cmd_parser.unwrap(), file_resp_frame(handle_id, status), oks) == ready_view(
            log_send(p, MsgView::FileResp { handle: handle_id, status }, oks),
        ),
{
    let cp = p.cmd_parser.unwrap();
    let h = be_bytes_u32(handle_id);
    let a = seq![TAG_START_BYTE];
    let b = seq![CMD_WRITE_FILE_RESP];
    let c = seq![status];
    let d = seq![TAG_END_BYTE];
    lemma_one_byte(cp, TAG_START_BYTE, oks);
    let c1 = byte_steps(cp, a, oks);
    lemma_handle_field(c1, handle_id, oks);
    let c2 = byte_steps(c1, h, oks);
    lemma_one_byte(c2, CMD_WRITE_FILE_RESP, oks);
    let c3 = byte_steps(c2, b, oks);
    lemma_one_byte(c3, status, oks);
    let c4 = byte_steps(c3, c, oks);
    lemma_one_byte(c4, TAG_END_BYTE, oks);
    let c5 = byte_steps(c4, d, oks);
    lemma_steps_concat(cp, a, h, oks);
    lemma_steps_concat(cp, a + h, b, oks);
    lemma_steps_concat(cp, a + h + b, c, oks);
    lemma_steps_concat(cp, a + h + b + c, d, oks);
    let frame = file_resp_frame(handle_id, status);
    assert(frame =~= a + h + b + c + d + Seq::<u8>::empty());
    lemma_feed_quiet(p, cp, a + h + b + c + d, Seq::<u8>::empty(), oks);
    let p5 = ProtocolParserView { cmd_parser: Some(c5), ..p };
    assert(pp_feed(p5, Seq::<u8>::empty(), oks) == (p5, None::<ParseFault>)) by {
        reveal(pp_feed);
    }
    assert(c5 == ready_view(log_send(p, MsgView::FileResp { handle: handle_id, status }, oks)));
    assert(frame =~= a + h + b + c + d);
}

/// A reader between frames, handed the frame of a write-chunk response in one read, hands
/// exactly that response to its channel and waits for the next frame.
pub proof fn law_chunk_resp_decodes(
    p: ProtocolParserView,
    handle_id: u32,
    chunk_id: u32,
    status: u8,
    oks: Seq<bool>,
)
    requires
        at_frame_boundary(p),
    ensures
        pp_feed(p, chunk_resp_frame(handle_id, chunk_id, status), oks) == (after_frame(
            p,
            log_send(p, MsgView::ChunkResp { handle: handle_id, chunkid: chunk_id, status }, oks),
        ), None::<ParseFault>),
        quiet(p.cmd_parser.unwrap(), chunk_resp_frame(handle_id, chunk_id, status), oks),
        byte_steps(p.cmd_parser.unwrap(), chunk_resp_frame(handle_id, chunk_id, status), oks)
            == ready_view(
            log_send(p, MsgView::ChunkResp { handle: handle_id, chunkid: chunk_id, status }, oks),
        ),
{
    let cp = p.cmd_parser.unwrap();
    let a = seq![TAG_START_BYTE];
    let h = be_bytes_u32(handle_id);
    let b = seq![CMD_WRITE_CHUNK_RESP];
    let i = be_bytes_u32(chunk_id);
    let c = seq![status];
    let d = seq![TAG_END_BYTE];
    lemma_one_byte(cp, TAG_START_BYTE, oks);
    let c1 = byte_steps(cp, a, oks);
    lemma_handle_field(c1, handle_id, oks);
    let c2 = byte_steps(c1, h, oks);
    lemma_one_byte(c2, CMD_WRITE_CHUNK_RESP, oks);
    let c3 = byte_steps(c2, b, oks);
    lemma_chunk_id_field(c3, chunk_id, oks);
    let c4 = byte_steps(c3, i, oks);
    lemma_one_byte(c4, status, oks);
    let c5 = byte_steps(c4, c, oks);
    lemma_one_byte(c5, TAG_END_BYTE, oks);
    let c6 = byte_steps(c5, d, oks);
    lemma_steps_concat(cp, a, h, oks);
    lemma_steps_concat(cp, a + h, b, oks);
    lemma_steps_concat(cp, a + h + b, i, oks);
    lemma_steps_concat(cp, a + h + b + i, c, oks);
    lemma_steps_concat(cp, a + h + b + i + c, d, oks);
    let frame = chunk_resp_frame(handle_id, chunk_id, status);
    assert(frame =~= a + h + b + i + c + d + Seq::<u8>::empty());
    lemma_feed_quiet(p, cp, a + h + b + i + c + d, Seq::<u8>::empty(), oks);
    let p6 = ProtocolParserView { cmd_parser: Some(c6), ..p };
    assert(pp_feed(p6, Seq::<u8>::empty(), oks) == (p6, None::<ParseFault>)) by {
        reveal(pp_feed);
    }
    assert(c6 == ready_view(
        log_send(p, MsgView::ChunkResp { handle: handle_id, chunkid: chunk_id, status }, oks),
    ));
    assert(frame =~= a + h + b + i + c + d);
}

/// The decoder after the head of a write-file request frame, up to its name.
pub proof fn lemma_file_req_head(cp: ChunkParserView, handle_id: u32, n: u32, oks: Seq<bool>)
    requires
        cp == ready_view(cp.sent),
    ensures
        ({
            let head = seq![TAG_START_BYTE] + be_bytes_u32(handle_id) + seq![CMD_WRITE_FILE_REQ]
                + be_bytes_u32(n);
            &&& quiet(cp, head, oks)
            &&& byte_steps(cp, head, oks) == (ChunkParserView {
                state: if n == 0 {
                    GL_CHUNK_STATE::IN_TOTAL_LEN
                } else {
                    GL_CHUNK_STATE::IN_FILE_NAME
                },
                cur_data_pos: 0,
                cmd: CMD::WRITE_FILE_REQ,
                handle_id_buf: be_bytes_u32(handle_id),
                handle_id: handle_id,
                file_name_len_buf: be_bytes_u32(n),
                file_name_len: n,
                ..cp
            })
        }),
{
    let a = seq![TAG_START_BYTE];
    let h = be_bytes_u32(handle_id);
    let b = seq![CMD_WRITE_FILE_REQ];
    let l = be_bytes_u32(n);
    lemma_one_byte(cp, TAG_START_BYTE, oks);
    let c1 = byte_steps(cp, a, oks);
    lemma_handle_field(c1, handle_id, oks);
    let c2 = byte_steps(c1, h, oks);
    lemma_one_byte(c2, CMD_WRITE_FILE_REQ, oks);
    let c3 = byte_steps(c2, b, oks);
    lemma_name_len_field(c3, n, oks);
    lemma_steps_concat(cp, a, h, oks);
    lemma_steps_concat(cp, a + h, b, oks);
    lemma_steps_concat(cp, a + h + b, l, oks);
}

/// Bytes handed over alone: none at all changes nothing.
pub proof fn lemma_no_bytes(cp: ChunkParserView, oks: Seq<bool>)
    ensures
        quiet(cp, Seq::<u8>::empty(), oks),
        byte_steps(cp, Seq::<u8>::empty(), oks) == cp,
{
    reveal_with_fuel(byte_steps, 1);
    reveal_with_fuel(quiet, 1);
}

/// A reader between frames, handed the frame of a write-file request in one read, hands
/// exactly that request to its channel and waits for the next frame.
pub proof fn law_file_req_decodes(
    p: ProtocolParserView,
    handle_id: u32,
    file_name: Seq<char>,
    data_len: u64,
    oks: Seq<bool>,
)
    requires
        at_frame_boundary(p),
        encode_utf8(file_name).len() <= u32::MAX,
    ensures
        pp_feed(p, file_req_frame(handle_id, encode_utf8(file_name), data_len), oks) == (
        after_frame(
            p,
            log_send(
                p,
                MsgView::FileReq { handle: handle_id, file_name, total_len: data_len },
                oks,
            ),
        ), None::<ParseFault>),
        quiet(p.cmd_parser.unwrap(), file_req_frame(handle_id, encode_utf8(file_name), data_len), oks),
        byte_steps(p.cmd_parser.unwrap(), file_req_frame(handle_id, encode_utf8(file_name), data_len), oks)
            == ready_view(
            log_send(
                p,
                MsgView::FileReq { handle: handle_id, file_name, total_len: data_len },
                oks,
            ),
        ),
{
    broadcast use {vstd::utf8::encode_utf8_valid_utf8, vstd::utf8::encode_utf8_decode_utf8};

    let cp = p.cmd_parser.unwrap();
    let name = encode_utf8(file_name);
    let n = name.len() as u32;
    let head = seq![TAG_START_BYTE] + be_bytes_u32(handle_id) + seq![CMD_WRITE_FILE_REQ]
        + be_bytes_u32(n);
    let t = be_bytes_u64(data_len);
    let d = seq![TAG_END_BYTE];
    lemma_file_req_head(cp, handle_id, n, oks);
    let c4 = byte_steps(cp, head, oks);
    if name.len() == 0 {
        lemma_no_bytes(c4, oks);
        assert(name =~= Seq::<u8>::empty());
    } else {
        lemma_name_field(c4, name, oks);
        assert(Seq::<u8>::empty() + name =~= name);
    }
    let c5 = byte_steps(c4, name, oks);
    assert(c5.file_name_buf == name);
    lemma_total_len_field(c5, data_len, oks);
    let c6 = byte_steps(c5, t, oks);
    assert(valid_utf8(c6.file_name_buf));
    lemma_one_byte(c6, TAG_END_BYTE, oks);
    let c7 = byte_steps(c6, d, oks);
    lemma_steps_concat(cp, head, name, oks);
    lemma_steps_concat(cp, head + name, t, oks);
    lemma_steps_concat(cp, head + name + t, d, oks);
    let frame = file_req_frame(handle_id, name, data_len);
    assert(frame =~= head + name + t + d + Seq::<u8>::empty());
    lemma_feed_quiet(p, cp, head + name + t + d, Seq::<u8>::empty(), oks);
    let p7 = ProtocolParserView { cmd_parser: Some(c7), ..p };
    assert(pp_feed(p7, Seq::<u8>::empty(), oks) == (p7, None::<ParseFault>)) by {
        reveal(pp_feed);
    }
    assert(c7 == ready_view(
        log_send(p, MsgView::FileReq { handle: handle_id, file_name, total_len: data_len }, oks),
    ));
    assert(frame =~= head + name + t + d);
}

/// The decoder after the head of a write-chunk request frame: everything up to the last byte
/// of the chunk length field.
pub proof fn lemma_chunk_req_head(
    cp: ChunkParserView,
    handle_id: u32,
    chunk_id: u32,
    start: u64,
    chunk_len: u64,
    oks: Seq<bool>,
)
    requires
        cp == ready_view(cp.sent),
    ensures
        ({
            let head = seq![TAG_START_BYTE] + be_bytes_u32(handle_id) + seq![CMD_WRITE_CHUNK_REQ]
                + be_bytes_u32(chunk_id) + be_bytes_u64(start) + be_bytes_u64(chunk_len).take(7);
            &&& quiet(cp, head, oks)
            &&& byte_steps(cp, head, oks) == (ChunkParserView {
                state: GL_CHUNK_STATE::IN_CHUNK_LEN,
                cur_data_pos: 7,
                cmd: CMD::WRITE_CHUNK_REQ,
                handle_id_buf: be_bytes_u32(handle_id),
                handle_id: handle_id,
                chunk_id_buf: be_bytes_u32(chunk_id),
                chunk_id: chunk_id,
                chunk_start_buf: be_bytes_u64(start),
                chunk_start: start,
                chunk_len_buf: be_bytes_u64(chunk_len).take(7),
                ..cp
            })
        }),
{
    let a = seq![TAG_START_BYTE];
    let h = be_bytes_u32(handle_id);
    let b = seq![CMD_WRITE_CHUNK_REQ];
    let i = be_bytes_u32(chunk_id);
    let st = be_bytes_u64(start);
    let l7 = be_bytes_u64(chunk_len).take(7);
    lemma_one_byte(cp, TAG_START_BYTE, oks);
    let c1 = byte_steps(cp, a, oks);
    lemma_handle_field(c1, handle_id, oks);
    let c2 = byte_steps(c1, h, oks);
    lemma_one_byte(c2, CMD_WRITE_CHUNK_REQ, oks);
    let c3 = byte_steps(c2, b, oks);
    lemma_chunk_id_field(c3, chunk_id, oks);
    let c4 = byte_steps(c3, i, oks);
    lemma_start_field(c4, start, oks);
    let c5 = byte_steps(c4, st, oks);
    lemma_field_prefix(c5, l7, oks);
    assert(Seq::<u8>::empty() + l7 =~= l7);
    lemma_steps_concat(cp, a, h, oks);
    lemma_steps_concat(cp, a + h, b, oks);
    lemma_steps_concat(cp, a + h + b, i, oks);
    lemma_steps_concat(cp, a + h + b + i, st, oks);
    lemma_steps_concat(cp, a + h + b + i + st, l7, oks);
}

/// The end of a write-chunk request frame whose chunk length field lacks its last byte `lb7`
/// and whose chunk is empty: the frame ends with no message.
#[verifier::rlimit(50)]
pub proof fn lemma_chunk_req_tail_empty(
    p: ProtocolParserView,
    ch: ChunkParserView,
    lb7: u8,
    data: Seq<u8>,
    oks: Seq<bool>,
)
    requires
        pp_inv(p),
        p.state == GL_STATE::IN_BYTE_MODE,
        p.cmd_parser == Some(ch),
        ch.state == GL_CHUNK_STATE::IN_CHUNK_LEN,
        ch.cmd == CMD::WRITE_CHUNK_REQ,
        ch.cur_data_pos == 7,
        ch.chunk_len_buf.len() == 7,
        be_u64(ch.chunk_len_buf.push(lb7)) == data.len(),
        data.len() <= usize::MAX,
        !ch.with_error,
        data.len() == 0,
    ensures
        pp_feed(p, seq![lb7] + data + seq![TAG_END_BYTE], oks) == (after_frame(p, ch.sent), None::<
            ParseFault,
        >),
{
    reveal(pp_feed);
    let rest = seq![lb7] + data + seq![TAG_END_BYTE];
    let (c8, r8) = chunk_step(ch, lb7, None, oks);
    assert(rest[0] == lb7);
    assert(unit_len(p, rest) == 1);
    assert(unit_fault(p, rest) is None);
    let rest2 = seq![TAG_END_BYTE];
    assert(rest.skip(1) =~= rest2);
    let p8 = ProtocolParserView { cmd_parser: Some(c8), ..p };
    assert(pp_unit(p, rest, oks) == p8);
    assert(rest2[0] == TAG_END_BYTE);
    assert(unit_len(p8, rest2) == 1);
    assert(unit_fault(p8, rest2) is None);
    let c9 = chunk_step(c8, TAG_END_BYTE, None, oks).0;
    let p9 = ProtocolParserView { cmd_parser: Some(c9), ..p };
    assert(pp_unit(p8, rest2, oks) == p9);
    assert(rest2.skip(1) =~= Seq::<u8>::empty());
    assert(pp_feed(p9, Seq::<u8>::empty(), oks) == (p9, None::<ParseFault>));
    assert(pp_feed(p8, rest2, oks) == pp_feed(p9, rest2.skip(1), oks));
    assert(pp_feed(p, rest, oks) == pp_feed(p8, rest.skip(1), oks));
    assert(c9 == ready_view(ch.sent));
}

/// The end of a write-chunk request frame whose chunk length field lacks its last byte `lb7`
/// and whose chunk `data` is not empty: the chunk goes to the channel in one piece.
#[verifier::rlimit(50)]
pub proof fn lemma_chunk_req_tail_piece(
    p: ProtocolParserView,
    ch: ChunkParserView,
    lb7: u8,
    data: Seq<u8>,
    oks: Seq<bool>,
)
    requires
        pp_inv(p),
        p.state == GL_STATE::IN_BYTE_MODE,
        p.cmd_parser == Some(ch),
        ch.state == GL_CHUNK_STATE::IN_CHUNK_LEN,
        ch.cmd == CMD::WRITE_CHUNK_REQ,
        ch.cur_data_pos == 7,
        ch.chunk_len_buf.len() == 7,
        be_u64(ch.chunk_len_buf.push(lb7)) == data.len(),
        data.len() <= usize::MAX,
        !ch.with_error,
        data.len() > 0,
    ensures
        pp_feed(p, seq![lb7] + data + seq![TAG_END_BYTE], oks) == (after_frame(
            p,
            ch.sent.push(
                (
                    MsgView::ChunkReq {
                        handle: ch.handle_id,
                        chunkid: ch.chunk_id,
                        start: ch.chunk_start,
                        len: data.len() as u64,
                        chunk: data,
                    },
                    outcome_at(oks, ch.sent.len()),
                ),
            ),
        ), None::<ParseFault>),
{
    let dlen = data.len() as u64;
    let rest = seq![lb7] + data + seq![TAG_END_BYTE];
    let rest2 = data + seq![TAG_END_BYTE];
    let tail = seq![TAG_END_BYTE];
    let (c8, r8) = chunk_step(ch, lb7, None, oks);
    let p8 = ProtocolParserView {
        cmd_parser: Some(c8),
        buff_mode_left: dlen,
        state: GL_STATE::IN_BUFFER_MODE,
        ..p
    };
    let c9 = chunk_step(c8, 0, Some(data), oks).0;
    let p9 = ProtocolParserView {
        cmd_parser: Some(c9),
        state: GL_STATE::IN_BYTE_MODE,
        buff_mode_left: 0,
        ..p
    };
    let c10 = chunk_step(c9, TAG_END_BYTE, None, oks).0;
    let p10 = ProtocolParserView { cmd_parser: Some(c10), ..p };
    // the last length byte switches the reader to buffer mode
    assert(pp_feed(p, rest, oks) == pp_feed(p8, rest2, oks)) by {
        reveal(pp_feed);
        assert(rest[0] == lb7);
        assert(unit_len(p, rest) == 1);
        assert(unit_fault(p, rest) is None);
        assert(rest.skip(1) =~= rest2);
        assert(pp_unit(p, rest, oks) == p8);
    }
    // the chunk bytes are handed over as one piece
    assert(pp_feed(p8, rest2, oks) == pp_feed(p9, tail, oks)) by {
        reveal(pp_feed);
        assert(rest2.take(data.len() as int) =~= data);
        assert(unit_len(p8, rest2) == data.len());
        assert(unit_fault(p8, rest2) is None);
        assert(pp_unit(p8, rest2, oks) == p9);
        assert(rest2.skip(data.len() as int) =~= tail);
    }
    // the end tag ends the frame
    assert(pp_feed(p9, tail, oks) == (p10, None::<ParseFault>)) by {
        reveal(pp_feed);
        assert(tail[0] == TAG_END_BYTE);
        assert(unit_len(p9, tail) == 1);
        assert(unit_fault(p9, tail) is None);
        assert(pp_unit(p9, tail, oks) == p10);
        assert(tail.skip(1) =~= Seq::<u8>::empty());
        assert(pp_feed(p10, Seq::<u8>::empty(), oks) == (p10, None::<ParseFault>));
    }
    assert(c10 == ready_view(c9.sent));
}

/// A reader between frames, handed the frame of a write-chunk request in one read, hands its
/// chunk, when there is one, to its channel in one piece and waits for the next frame.
pub proof fn law_chunk_req_decodes(
    p: ProtocolParserView,
    handle_id: u32,
    chunk_id: u32,
    start: u64,
    data: Seq<u8>,
    oks: Seq<bool>,
)
    requires
        at_frame_boundary(p),
        data.len() <= usize::MAX,
    ensures
        pp_feed(p, chunk_req_frame(handle_id, chunk_id, start, data), oks) == (after_frame(
            p,
            if data.len() == 0 {
                pp_sent(p)
            } else {
                log_send(
                    p,
                    MsgView::ChunkReq {
                        handle: handle_id,
                        chunkid: chunk_id,
                        start,
                        len: data.len() as u64,
                        chunk: data,
                    },
                    oks,
                )
            },
        ), None::<ParseFault>),
{
    let cp = p.cmd_parser.unwrap();
    let dlen = data.len() as u64;
    let lb = be_bytes_u64(dlen);
    lemma_be_u64_roundtrip(dlen);
    let head = seq![TAG_START_BYTE] + be_bytes_u32(handle_id) + seq![CMD_WRITE_CHUNK_REQ]
        + be_bytes_u32(chunk_id) + be_bytes_u64(start) + lb.take(7);
    lemma_chunk_req_head(cp, handle_id, chunk_id, start, dlen, oks);
    let ch = byte_steps(cp, head, oks);
    let rest = seq![lb[7]] + data + seq![TAG_END_BYTE];
    let frame = chunk_req_frame(handle_id, chunk_id, start, data);
    assert(frame =~= head + rest);
    lemma_feed_quiet(p, cp, head, rest, oks);
    let ph = ProtocolParserView { cmd_parser: Some(ch), ..p };
    assert(lb.take(7).push(lb[7]) =~= lb);
    lemma_unit_keeps_inv_quiet(p, ch);
    if data.len() == 0 {
        lemma_chunk_req_tail_empty(ph, ch, lb[7], data, oks);
    } else {
        lemma_chunk_req_tail_piece(ph, ch, lb[7], data, oks);
    }
}

/// Replacing the decoder of a reader in byte mode by one that keeps its bounds keeps the
/// reader's bounds.
pub proof fn lemma_unit_keeps_inv_quiet(p: ProtocolParserView, cp: ChunkParserView)
    requires
        pp_inv(p),
        p.state == GL_STATE::IN_BYTE_MODE,
        inv(cp),
    ensures
        pp_inv(ProtocolParserView { cmd_parser: Some(cp), ..p }),
{
}

/// A step of the reader keeps its bounds.
pub proof fn lemma_unit_keeps_inv(p: ProtocolParserView, data: Seq<u8>, oks: Seq<bool>)
    requires
        pp_inv(p),
        data.len() > 0,
        unit_fault(p, data) is None,
    ensures
        pp_inv(pp_unit(p, data, oks)),
{
    let cp = p.cmd_parser.unwrap();
    if p.state == GL_STATE::IN_BYTE_MODE {
        lemma_step_keeps_inv(cp, data[0], None, oks);
    } else {
        lemma_step_keeps_inv(cp, 0, Some(data.take(unit_len(p, data) as int)), oks);
    }
}

/// Handing `a` and then `b` to the reader in two reads does what one read of `a + b` does,
/// when the first read ends in byte mode without a fault (so no run of chunk bytes is cut
/// in two).
pub proof fn law_feed_split(p: ProtocolParserView, a: Seq<u8>, b: Seq<u8>, oks: Seq<bool>)
    requires
        pp_inv(p),
        pp_feed(p, a, oks).1 is None,
        pp_feed(p, a, oks).0.state == GL_STATE::IN_BYTE_MODE,
    ensures
        pp_feed(p, a + b, oks) == pp_feed(pp_feed(p, a, oks).0, b, oks),
    decreases a.len(),
{
    reveal(pp_feed);
    if a.len() == 0 {
        assert(a + b =~= b);
    } else {
        let ab = a + b;
        let k = unit_len(p, a);
        assert(k > 0);
        assert(unit_fault(p, a) is None);
        if p.state == GL_STATE::IN_BYTE_MODE {
            assert(ab[0] == a[0]);
            assert(unit_len(p, ab) == 1);
            assert(unit_fault(p, ab) == unit_fault(p, a));
            assert(pp_unit(p, ab, oks) == pp_unit(p, a, oks));
        } else {
            if a.len() < p.buff_mode_left {
                let q = pp_unit(p, a, oks);
                assert(a.skip(k as int) =~= Seq::<u8>::empty());
                assert(pp_feed(q, a.skip(k as int), oks) == (q, None::<ParseFault>));
                assert(q.state == GL_STATE::IN_BUFFER_MODE);
                assert(false);
            }
            assert(unit_len(p, ab) == k);
            assert(ab.take(k as int) =~= a.take(k as int));
            assert(unit_fault(p, ab) == unit_fault(p, a));
            assert(pp_unit(p, ab, oks) == pp_unit(p, a, oks));
        }
        let q = pp_unit(p, a, oks);
        lemma_unit_keeps_inv(p, a, oks);
        assert(ab.skip(k as int) =~= a.skip(k as int) + b);
        law_feed_split(q, a.skip(k as int), b, oks);
    }
}

/// Chunk bytes that come in two reads are handed to the channel as two pieces, the second
/// starting where the first ends; the second is sent only if the channel took the first.
pub proof fn law_chunk_in_two_reads(
    p: ProtocolParserView,
    d1: Seq<u8>,
    d2: Seq<u8>,
    oks: Seq<bool>,
)
    requires
        p.state == GL_STATE::IN_BUFFER_MODE,
        p.cmd_parser matches Some(cp) && cp.state == GL_CHUNK_STATE::IN_CHUNK && !cp.with_error
            && cp.cur_data_pos + p.buff_mode_left == cp.chunk_len && cp.chunk_len <= usize::MAX
            && cp.chunk_start + cp.chunk_len <= u64::MAX,
        d1.len() > 0,
        d2.len() > 0,
        d1.len() + d2.len() == p.buff_mode_left,
    ensures
        ({
            let cp = p.cmd_parser.unwrap();
            let first = pp_feed(p, d1, oks);
            let second = pp_feed(first.0, d2, oks);
            let o1 = outcome_at(oks, cp.sent.len());
            let m1 = MsgView::ChunkReq {
                handle: cp.handle_id,
                chunkid: cp.chunk_id,
                start: (cp.chunk_start + cp.cur_data_pos) as u64,
                len: d1.len() as u64,
                chunk: d1,
            };
            let m2 = MsgView::ChunkReq {
                handle: cp.handle_id,
                chunkid: cp.chunk_id,
                start: (cp.chunk_start + cp.cur_data_pos + d1.len()) as u64,
                len: d2.len() as u64,
                chunk: d2,
            };
            &&& first.1 is None
            &&& first.0.state == GL_STATE::IN_BUFFER_MODE
            &&& second.1 is None
            &&& second.0.state == GL_STATE::IN_BYTE_MODE
            &&& pp_sent(second.0) == pp_sent(p).push((m1, o1)) + (if o1 {
                seq![(m2, outcome_at(oks, cp.sent.len() + 1))]
            } else {
                Seq::empty()
            })
        }),
{
    reveal(pp_feed);
    let cp = p.cmd_parser.unwrap();
    // the first read is one piece, short of the chunk's end
    assert(unit_len(p, d1) == d1.len());
    assert(d1.take(d1.len() as int) =~= d1);
    assert(unit_fault(p, d1) is None);
    let q = pp_unit(p, d1, oks);
    let cq = q.cmd_parser.unwrap();
    assert(cq.state == GL_CHUNK_STATE::IN_CHUNK);
    assert(q.state == GL_STATE::IN_BUFFER_MODE);
    assert(d1.skip(d1.len() as int) =~= Seq::<u8>::empty());
    assert(pp_feed(q, Seq::<u8>::empty(), oks) == (q, None::<ParseFault>));
    assert(pp_feed(p, d1, oks) == (q, None::<ParseFault>));
    // the second read completes the chunk
    assert(unit_len(q, d2) == d2.len());
    assert(d2.take(d2.len() as int) =~= d2);
    assert(unit_fault(q, d2) is None);
    let r = pp_unit(q, d2, oks);
    assert(d2.skip(d2.len() as int) =~= Seq::<u8>::empty());
    assert(pp_feed(r, Seq::<u8>::empty(), oks) == (r, None::<ParseFault>));
    assert(pp_feed(q, d2, oks) == (r, None::<ParseFault>));
    let o1 = outcome_at(oks, cp.sent.len());
    if o1 {
        assert(pp_sent(r) =~= pp_sent(q).push(pp_sent(r).last()));
    } else {
        assert(pp_sent(r) == pp_sent(q));
    }
    assert(pp_sent(r) =~= pp_sent(p).push(pp_sent(q).last()) + (if o1 {
        seq![pp_sent(r).last()]
    } else {
        Seq::empty()
    }));
}

/// A message the encoders can write: a name of at most `u32::MAX` bytes, a chunk of at most
/// `usize::MAX` bytes that is not empty and whose length field is its length.
pub open spec fn encodable(m: MsgView) -> bool {
    match m {
        MsgView::FileReq { file_name, .. } => encode_utf8(file_name).len() <= u32::MAX,
        MsgView::ChunkReq { len, chunk, .. } => 1 <= chunk.len() <= usize::MAX && len
            == chunk.len(),
        _ => true,
    }
}

/// The frame that carries `m`.
pub open spec fn msg_frame(m: MsgView) -> Seq<u8> {
    match m {
        MsgView::FileReq { handle, file_name, total_len } => file_req_frame(
            handle,
            encode_utf8(file_name),
            total_len,
        ),
        MsgView::FileResp { handle, status } => file_resp_frame(handle, status),
        MsgView::ChunkReq { handle, chunkid, start, chunk, .. } => chunk_req_frame(
            handle,
            chunkid,
            start,
            chunk,
        ),
        MsgView::ChunkResp { handle, chunkid, status } => chunk_resp_frame(
            handle,
            chunkid,
            status,
        ),
    }
}

/// The frames of `ms`, one after the other.
pub open spec fn frames(ms: Seq<MsgView>) -> Seq<u8>
    decreases ms.len(),
{
    if ms.len() == 0 {
        Seq::empty()
    } else {
        frames(ms.drop_last()) + msg_frame(ms.last())
    }
}

/// The log entries for sending `ms` after `base` earlier sends.
pub open spec fn logged(ms: Seq<MsgView>, oks: Seq<bool>, base: nat) -> Seq<(MsgView, bool)> {
    Seq::new(ms.len(), |i: int| (ms[i], outcome_at(oks, base + i as nat)))
}

/// Any one frame decodes to its message from a frame boundary.
pub proof fn law_frame_decodes(p: ProtocolParserView, m: MsgView, oks: Seq<bool>)
    requires
        at_frame_boundary(p),
        encodable(m),
    ensures
        pp_feed(p, msg_frame(m), oks) == (after_frame(p, log_send(p, m, oks)), None::<
            ParseFault,
        >),
{
    match m {
        MsgView::FileReq { handle, file_name, total_len } => {
            law_file_req_decodes(p, handle, file_name, total_len, oks);
        },
        MsgView::FileResp { handle, status } => {
            law_file_resp_decodes(p, handle, status, oks);
        },
        MsgView::ChunkReq { handle, chunkid, start, len, chunk } => {
            law_chunk_req_decodes(p, handle, chunkid, start, chunk, oks);
        },
        MsgView::ChunkResp { handle, chunkid, status } => {
            law_chunk_resp_decodes(p, handle, chunkid, status, oks);
        },
    }
}

/// A reader between frames, handed any run of encoder-written frames in one read, hands
/// their messages to its channel in order, one per frame, and ends between frames again.
pub proof fn law_frames_decode(p: ProtocolParserView, ms: Seq<MsgView>, oks: Seq<bool>)
    requires
        at_frame_boundary(p),
        forall|i: int| 0 <= i < ms.len() ==> encodable(#[trigger] ms[i]),
    ensures
        pp_feed(p, frames(ms), oks) == (after_frame(
            p,
            pp_sent(p) + logged(ms, oks, pp_sent(p).len()),
        ), None::<ParseFault>),
    decreases ms.len(),
{
    let base = pp_sent(p).len();
    if ms.len() == 0 {
        assert(pp_feed(p, Seq::<u8>::empty(), oks) == (p, None::<ParseFault>)) by {
            reveal(pp_feed);
        }
        assert(pp_sent(p) + logged(ms, oks, base) =~= pp_sent(p));
        assert(after_frame(p, pp_sent(p)) == p);
    } else {
        let init = ms.drop_last();
        let last = ms.last();
        assert forall|i: int| 0 <= i < init.len() implies encodable(#[trigger] init[i]) by {
            assert(init[i] == ms[i]);
        }
        law_frames_decode(p, init, oks);
        let q = after_frame(p, pp_sent(p) + logged(init, oks, base));
        assert(pp_sent(q) == pp_sent(p) + logged(init, oks, base));
        law_feed_split(p, frames(init), msg_frame(last), oks);
        assert(encodable(ms[ms.len() - 1]));
        law_frame_decodes(q, last, oks);
        assert(log_send(q, last, oks) =~= pp_sent(p) + logged(ms, oks, base));
    }
}


/// Bytes other than the start tag, handed to a decoder waiting for a frame, are skipped: none
/// is a fault, none sends anything or returns a length, and the decoder still waits, as a
/// fresh one does.
pub proof fn law_junk_skipped(sent: Seq<(MsgView, bool)>, junk: Seq<u8>, oks: Seq<bool>)
    requires
        forall|i: int| 0 <= i < junk.len() ==> junk[i] != TAG_START_BYTE,
    ensures
        quiet(ready_view(sent), junk, oks),
        byte_steps(ready_view(sent), junk, oks) == ready_view(sent),
    decreases junk.len(),
{
    reveal_with_fuel(byte_steps, 1);
    reveal_with_fuel(quiet, 1);
    if junk.len() > 0 {
        let rest = junk.drop_first();
        assert forall|i: int| 0 <= i < rest.len() implies rest[i] != TAG_START_BYTE by {
            assert(rest[i] == junk[i + 1]);
        }
        law_junk_skipped(sent, rest, oks);
    }
}

/// A decoding step returns a nonzero length only on the byte that completes the length field
/// of a write-chunk request's chunk, and then the length is that field read big-endian.
pub proof fn law_nonzero_only_chunk_len(
    v: ChunkParserView,
    in_char: u8,
    buffer: Option<Seq<u8>>,
    oks: Seq<bool>,
)
    requires
        inv(v),
    ensures
        chunk_step(v, in_char, buffer, oks).1 != 0 ==> v.state == GL_CHUNK_STATE::IN_CHUNK_LEN
            && v.cmd == CMD::WRITE_CHUNK_REQ && v.chunk_len_buf.len() == 7,
        v.state == GL_CHUNK_STATE::IN_CHUNK_LEN && v.chunk_len_buf.len() == 7 ==> chunk_step(
            v,
            in_char,
            buffer,
            oks,
        ).1 == be_u64(v.chunk_len_buf.push(in_char)),
{
}

/// The total length of the pieces `ps`.
pub open spec fn pieces_len(ps: Seq<Seq<u8>>) -> nat
    decreases ps.len(),
{
    if ps.len() == 0 {
        0
    } else {
        pieces_len(ps.drop_last()) + ps.last().len()
    }
}

/// The decoder `v` after the chunk pieces `ps`, each handed over in a call of its own.
pub open spec fn piece_steps(v: ChunkParserView, ps: Seq<Seq<u8>>, oks: Seq<bool>) -> ChunkParserView
    decreases ps.len(),
{
    if ps.len() == 0 {
        v
    } else {
        chunk_step(piece_steps(v, ps.drop_last(), oks), 0, Some(ps.last()), oks).0
    }
}

/// Each of the pieces `ps` is decoded without fault and returns no length.
pub open spec fn pieces_quiet(v: ChunkParserView, ps: Seq<Seq<u8>>, oks: Seq<bool>) -> bool
    decreases ps.len(),
{
    ps.len() == 0 || (pieces_quiet(v, ps.drop_last(), oks) && step_fault(
        piece_steps(v, ps.drop_last(), oks),
        0,
        Some(ps.last()),
    ) is None && chunk_step(piece_steps(v, ps.drop_last(), oks), 0, Some(ps.last()), oks).1 == 0)
}

/// The write-chunk requests, all taken by the channel, for the pieces `ps` of the chunk that
/// `v` reads: piece `i` starts where the pieces before it end.
pub open spec fn piece_msgs(v: ChunkParserView, ps: Seq<Seq<u8>>) -> Seq<(MsgView, bool)> {
    Seq::new(
        ps.len(),
        |i: int|
            (
                MsgView::ChunkReq {
                    handle: v.handle_id,
                    chunkid: v.chunk_id,
                    start: (v.chunk_start + v.cur_data_pos + pieces_len(ps.take(i))) as u64,
                    len: ps[i].len() as u64,
                    chunk: ps[i],
                },
                true,
            ),
    )
}

/// Pieces of a chunk, each handed over in a call of its own while the channel takes every
/// send, are sent one message each, in order, and move the position past them.
pub proof fn lemma_piece_steps(v: ChunkParserView, ps: Seq<Seq<u8>>, oks: Seq<bool>)
    requires
        inv(v),
        v.state == GL_CHUNK_STATE::IN_CHUNK,
        !v.with_error,
        forall|i: int| 0 <= i < ps.len() ==> (#[trigger] ps[i]).len() > 0,
        v.cur_data_pos + pieces_len(ps) <= v.chunk_len,
        v.chunk_len <= usize::MAX,
        v.chunk_start + v.chunk_len <= u64::MAX + 1,
        forall|i: nat| v.sent.len() <= i < v.sent.len() + ps.len() ==> #[trigger] outcome_at(oks, i),
    ensures
        pieces_quiet(v, ps, oks),
        inv(piece_steps(v, ps, oks)),
        piece_steps(v, ps, oks).sent == v.sent + piece_msgs(v, ps),
        piece_steps(v, ps, oks).cur_data_pos == v.cur_data_pos + pieces_len(ps),
        piece_steps(v, ps, oks).state == (if v.cur_data_pos + pieces_len(ps) >= v.chunk_len {
            GL_CHUNK_STATE::WAIT_END
        } else {
            GL_CHUNK_STATE::IN_CHUNK
        }),
        piece_steps(v, ps, oks).cmd == v.cmd,
        piece_steps(v, ps, oks).handle_id == v.handle_id,
        piece_steps(v, ps, oks).chunk_id == v.chunk_id,
        piece_steps(v, ps, oks).chunk_start == v.chunk_start,
        piece_steps(v, ps, oks).chunk_len == v.chunk_len,
        !piece_steps(v, ps, oks).with_error,
    decreases ps.len(),
{
    if ps.len() == 0 {
        assert(v.sent + piece_msgs(v, ps) =~= v.sent);
    } else {
        let init = ps.drop_last();
        let b = ps.last();
        let k = ps.len() - 1;
        assert forall|i: int| 0 <= i < init.len() implies (#[trigger] init[i]).len() > 0 by {
            assert(init[i] == ps[i]);
        }
        assert(ps[k] == b);
        lemma_piece_steps(v, init, oks);
        let u = piece_steps(v, init, oks);
        assert(outcome_at(oks, u.sent.len()));
        assert(ps.take(k) =~= init);
        lemma_step_keeps_inv(u, 0, Some(b), oks);
        assert forall|i: int| 0 <= i < init.len() implies #[trigger] ps.take(i) == init.take(i) by {
            assert(ps.take(i) =~= init.take(i));
        }
        assert(piece_msgs(v, ps) =~= piece_msgs(v, init).push(piece_msgs(v, ps)[k]));
        assert(piece_steps(v, ps, oks).sent =~= v.sent + piece_msgs(v, ps));
    }
}

/// Once the length field of a write-chunk request's chunk has been read and gave a length
/// `n` above 0, chunk pieces that together make up `n` bytes, each handed over in a call of
/// its own while the channel takes every send, are sent as one write-chunk request each, in
/// order, piece `i` starting where the pieces before it end; the end tag that follows sends
/// nothing more and leaves the decoder waiting for the next frame.
pub proof fn law_chunk_in_pieces(
    u: ChunkParserView,
    last_len_byte: u8,
    ps: Seq<Seq<u8>>,
    oks: Seq<bool>,
)
    requires
        inv(u),
        u.state == GL_CHUNK_STATE::IN_CHUNK_LEN,
        u.chunk_len_buf.len() == 7,
        chunk_step(u, last_len_byte, None, oks).1 > 0,
        forall|i: int| 0 <= i < ps.len() ==> (#[trigger] ps[i]).len() > 0,
        pieces_len(ps) == chunk_step(u, last_len_byte, None, oks).1,
        chunk_step(u, last_len_byte, None, oks).1 <= usize::MAX,
        u.chunk_start + chunk_step(u, last_len_byte, None, oks).1 <= u64::MAX + 1,
        forall|i: nat| u.sent.len() <= i < u.sent.len() + ps.len() ==> #[trigger] outcome_at(oks, i),
    ensures
        ({
            let v = chunk_step(u, last_len_byte, None, oks).0;
            let w = piece_steps(v, ps, oks);
            &&& v.state == GL_CHUNK_STATE::IN_CHUNK
            &&& pieces_quiet(v, ps, oks)
            &&& w.sent == u.sent + Seq::new(
                ps.len(),
                |i: int|
                    (
                        MsgView::ChunkReq {
                            handle: u.handle_id,
                            chunkid: u.chunk_id,
                            start: (u.chunk_start + pieces_len(ps.take(i))) as u64,
                            len: ps[i].len() as u64,
                            chunk: ps[i],
                        },
                        true,
                    ),
            )
            &&& w.state == GL_CHUNK_STATE::WAIT_END
            &&& step_fault(w, TAG_END_BYTE, None) is None
            &&& chunk_step(w, TAG_END_BYTE, None, oks) == (ready_view(w.sent), 0u64)
        }),
{
    let v = chunk_step(u, last_len_byte, None, oks).0;
    lemma_step_keeps_inv(u, last_len_byte, None, oks);
    assert(v.cur_data_pos == 0);
    lemma_piece_steps(v, ps, oks);
    let w = piece_steps(v, ps, oks);
    assert(piece_msgs(v, ps) =~= Seq::new(
        ps.len(),
        |i: int|
            (
                MsgView::ChunkReq {
                    handle: u.handle_id,
                    chunkid: u.chunk_id,
                    start: (u.chunk_start + pieces_len(ps.take(i))) as u64,
                    len: ps[i].len() as u64,
                    chunk: ps[i],
                },
                true,
            ),
    ));
}


/// The reader `p` after the reads `rs`, each handed over in a call of its own.
pub open spec fn reads_feed(p: ProtocolParserView, rs: Seq<Seq<u8>>, oks: Seq<bool>) -> ProtocolParserView
    decreases rs.len(),
{
    if rs.len() == 0 {
        p
    } else {
        pp_feed(reads_feed(p, rs.drop_last(), oks), rs.last(), oks).0
    }
}

/// None of the reads `rs` stops at a fault.
pub open spec fn reads_quiet(p: ProtocolParserView, rs: Seq<Seq<u8>>, oks: Seq<bool>) -> bool
    decreases rs.len(),
{
    rs.len() == 0 || (reads_quiet(p, rs.drop_last(), oks) && pp_feed(
        reads_feed(p, rs.drop_last(), oks),
        rs.last(),
        oks,
    ).1 is None)
}

/// A reader that expects chunk bytes hands each read of them, up to the end of the chunk,
/// to its decoder as one piece.
pub proof fn lemma_reads_are_pieces(p: ProtocolParserView, rs: Seq<Seq<u8>>, oks: Seq<bool>)
    requires
        p.state == GL_STATE::IN_BUFFER_MODE,
        p.cmd_parser matches Some(cp) && inv(cp) && cp.state == GL_CHUNK_STATE::IN_CHUNK
            && !cp.with_error && cp.cur_data_pos + p.buff_mode_left == cp.chunk_len
            && cp.chunk_len <= usize::MAX && cp.chunk_start + cp.chunk_len <= u64::MAX + 1,
        forall|i: int| 0 <= i < rs.len() ==> (#[trigger] rs[i]).len() > 0,
        pieces_len(rs) <= p.buff_mode_left,
        forall|i: nat|
            p.cmd_parser.unwrap().sent.len() <= i < p.cmd_parser.unwrap().sent.len() + rs.len()
                ==> #[trigger] outcome_at(oks, i),
    ensures
        reads_quiet(p, rs, oks),
        reads_feed(p, rs, oks).cmd_parser == Some(piece_steps(p.cmd_parser.unwrap(), rs, oks)),
        reads_feed(p, rs, oks).state == (if pieces_len(rs) == p.buff_mode_left {
            GL_STATE::IN_BYTE_MODE
        } else {
            GL_STATE::IN_BUFFER_MODE
        }),
        reads_feed(p, rs, oks).buff_mode_left == p.buff_mode_left - pieces_len(rs),
    decreases rs.len(),
{
    let cp = p.cmd_parser.unwrap();
    if rs.len() > 0 {
        let init = rs.drop_last();
        let r = rs.last();
        assert(rs[rs.len() - 1] == r);
        assert forall|i: int| 0 <= i < init.len() implies (#[trigger] init[i]).len() > 0 by {
            assert(init[i] == rs[i]);
        }
        lemma_reads_are_pieces(p, init, oks);
        lemma_piece_steps(cp, rs, oks);
        let q = reads_feed(p, init, oks);
        reveal(pp_feed);
        assert(q.state == GL_STATE::IN_BUFFER_MODE);
        assert(unit_len(q, r) == r.len());
        assert(r.take(r.len() as int) =~= r);
        assert(unit_fault(q, r) is None);
        let q1 = pp_unit(q, r, oks);
        assert(r.skip(r.len() as int) =~= Seq::<u8>::empty());
        assert(pp_feed(q1, Seq::<u8>::empty(), oks) == (q1, None::<ParseFault>));
        assert(pp_feed(q, r, oks) == (q1, None::<ParseFault>));
    }
}

/// Chunk bytes that come in any number of reads, which together make up the rest of the
/// chunk, are handed to the channel as one write-chunk request per read, in order, each
/// starting where the one before ends, as long as the channel takes them; the reader then
/// reads bytes one by one again, and the decoder expects the frame's end tag.
pub proof fn law_chunk_in_reads(p: ProtocolParserView, rs: Seq<Seq<u8>>, oks: Seq<bool>)
    requires
        p.state == GL_STATE::IN_BUFFER_MODE,
        p.cmd_parser matches Some(cp) && inv(cp) && cp.state == GL_CHUNK_STATE::IN_CHUNK
            && !cp.with_error && cp.cur_data_pos + p.buff_mode_left == cp.chunk_len
            && cp.chunk_len <= usize::MAX && cp.chunk_start + cp.chunk_len <= u64::MAX + 1,
        forall|i: int| 0 <= i < rs.len() ==> (#[trigger] rs[i]).len() > 0,
        pieces_len(rs) == p.buff_mode_left,
        forall|i: nat|
            pp_sent(p).len() <= i < pp_sent(p).len() + rs.len() ==> #[trigger] outcome_at(oks, i),
    ensures
        reads_quiet(p, rs, oks),
        reads_feed(p, rs, oks).state == GL_STATE::IN_BYTE_MODE,
        pp_sent(reads_feed(p, rs, oks)) == pp_sent(p) + piece_msgs(p.cmd_parser.unwrap(), rs),
        reads_feed(p, rs, oks).cmd_parser.unwrap().state == GL_CHUNK_STATE::WAIT_END,
{
    lemma_reads_are_pieces(p, rs, oks);
    lemma_piece_steps(p.cmd_parser.unwrap(), rs, oks);
}


/// `v` with an empty log.
pub open spec fn strip(v: ChunkParserView) -> ChunkParserView {
    ChunkParserView { sent: Seq::empty(), ..v }
}

/// `p` with an empty log.
pub open spec fn pp_strip(p: ProtocolParserView) -> ProtocolParserView {
    ProtocolParserView {
        cmd_parser: match p.cmd_parser {
            Some(cp) => Some(strip(cp)),
            None => None,
        },
        ..p
    }
}

/// The channel takes every send.
pub open spec fn all_taken(oks: Seq<bool>) -> bool {
    forall|i: nat| #[trigger] outcome_at(oks, i)
}

/// While the channel takes every send, a decoding step does not depend on the log: it
/// appends to it what it appends to an empty one.
#[verifier::rlimit(40)]
pub proof fn lemma_step_log_free(v: ChunkParserView, c: u8, b: Option<Seq<u8>>, oks: Seq<bool>)
    requires
        all_taken(oks),
    ensures
        chunk_step(v, c, b, oks).1 == chunk_step(strip(v), c, b, oks).1,
        strip(chunk_step(v, c, b, oks).0) == strip(chunk_step(strip(v), c, b, oks).0),
        chunk_step(v, c, b, oks).0.sent == v.sent + chunk_step(strip(v), c, b, oks).0.sent,
        step_fault(v, c, b) == step_fault(strip(v), c, b),
{
    assert(outcome_at(oks, v.sent.len()));
    assert(outcome_at(oks, 0));
    let w = chunk_step(v, c, b, oks).0;
    let z = chunk_step(strip(v), c, b, oks).0;
    match v.state {
        GL_CHUNK_STATE::IN_CHUNK => {
            if b is Some && !v.with_error {
                assert(z.sent.len() == 1);
                assert(w.sent =~= v.sent + z.sent);
            } else {
                assert(z.sent =~= Seq::<(MsgView, bool)>::empty());
                assert(w.sent =~= v.sent + z.sent);
            }
            assert(strip(w) =~= strip(z));
        },
        GL_CHUNK_STATE::WAIT_END => {
            if c == TAG_END_BYTE && end_msg(v) is Some {
                assert(end_msg(v) == end_msg(strip(v)));
                assert(z.sent.len() == 1);
                assert(w.sent =~= v.sent + z.sent);
            } else {
                assert(z.sent =~= Seq::<(MsgView, bool)>::empty());
                assert(w.sent =~= v.sent + z.sent);
            }
            assert(strip(w) =~= strip(z));
        },
        _ => {
            assert(z.sent =~= Seq::<(MsgView, bool)>::empty());
            assert(w.sent =~= v.sent + z.sent);
            assert(strip(w) =~= strip(z));
        },
    }
}


/// While the channel takes every send, a reader's step does not depend on the log.
pub proof fn lemma_unit_log_free(p: ProtocolParserView, d: Seq<u8>, oks: Seq<bool>)
    requires
        all_taken(oks),
        p.cmd_parser is Some,
        d.len() > 0,
    ensures
        unit_fault(p, d) == unit_fault(pp_strip(p), d),
        pp_strip(pp_unit(p, d, oks)) == pp_strip(pp_unit(pp_strip(p), d, oks)),
        pp_sent(pp_unit(p, d, oks)) == pp_sent(p) + pp_sent(pp_unit(pp_strip(p), d, oks)),
{
    let cp = p.cmd_parser.unwrap();
    if p.state == GL_STATE::IN_BYTE_MODE {
        lemma_step_log_free(cp, d[0], None, oks);
    } else {
        lemma_step_log_free(cp, 0, Some(d.take(unit_len(p, d) as int)), oks);
    }
    assert(pp_strip(pp_unit(p, d, oks)) =~= pp_strip(pp_unit(pp_strip(p), d, oks)));
}

/// While the channel takes every send, what a reader does with `d` does not depend on its
/// log: it appends to the log what it appends to an empty one.
#[verifier::rlimit(40)]
pub proof fn lemma_feed_log_free(p: ProtocolParserView, d: Seq<u8>, oks: Seq<bool>)
    requires
        all_taken(oks),
    ensures
        pp_feed(p, d, oks).1 == pp_feed(pp_strip(p), d, oks).1,
        pp_strip(pp_feed(p, d, oks).0) == pp_strip(pp_feed(pp_strip(p), d, oks).0),
        pp_sent(pp_feed(p, d, oks).0) == pp_sent(p) + pp_sent(pp_feed(pp_strip(p), d, oks).0),
    decreases d.len(),
{
    reveal(pp_feed);
    let sp = pp_strip(p);
    assert(pp_strip(sp) == sp);
    assert(pp_sent(sp) =~= Seq::<(MsgView, bool)>::empty());
    if d.len() == 0 || unit_len(p, d) == 0 {
        assert(pp_sent(p) + pp_sent(sp) =~= pp_sent(p));
    } else if p.cmd_parser is None {
        assert(pp_sent(p) + pp_sent(sp) =~= pp_sent(p));
    } else {
        lemma_unit_log_free(p, d, oks);
        if unit_fault(p, d) is Some {
            assert(pp_sent(p) + pp_sent(sp) =~= pp_sent(p));
        } else {
            let k = unit_len(p, d);
            let r = d.skip(k as int);
            let q = pp_unit(p, d, oks);
            let q2 = pp_unit(sp, d, oks);
            assert(unit_len(sp, d) == k);
            lemma_feed_log_free(q, r, oks);
            lemma_feed_log_free(q2, r, oks);
            assert(pp_strip(q) == pp_strip(q2));
            assert(pp_sent(q) == pp_sent(p) + pp_sent(q2));
            let e = pp_sent(pp_feed(pp_strip(q), r, oks).0);
            assert(pp_sent(p) + pp_sent(q2) + e =~= pp_sent(p) + (pp_sent(q2) + e));
        }
    }
}


/// A reader whose decoder, while chunk bytes are expected, is reading that chunk's bytes and
/// expects exactly as many as the reader does.
pub open spec fn pp_valid(p: ProtocolParserView) -> bool {
    &&& pp_inv(p)
    &&& p.state == GL_STATE::IN_BUFFER_MODE ==> (p.cmd_parser matches Some(cp) && cp.state
        == GL_CHUNK_STATE::IN_CHUNK && cp.cur_data_pos + p.buff_mode_left == cp.chunk_len)
}

/// A step of the reader keeps it valid.
pub proof fn lemma_unit_keeps_valid(p: ProtocolParserView, data: Seq<u8>, oks: Seq<bool>)
    requires
        pp_valid(p),
        data.len() > 0,
        unit_fault(p, data) is None,
    ensures
        pp_valid(pp_unit(p, data, oks)),
{
    lemma_unit_keeps_inv(p, data, oks);
}

/// The log `s` is the log `w` with its entry `j`, a write-chunk request taken by the
/// channel, sent instead as two pieces cut after its first `k` bytes, both taken.
pub open spec fn cut_piece(w: Seq<(MsgView, bool)>, s: Seq<(MsgView, bool)>, j: int, k: int) -> bool {
    &&& 0 <= j < w.len()
    &&& w[j].1
    &&& w[j].0 matches MsgView::ChunkReq { handle, chunkid, start, len, chunk }
    &&& 0 < k < chunk.len()
    &&& s == w.take(j) + seq![
        (
            MsgView::ChunkReq {
                handle,
                chunkid,
                start,
                len: k as u64,
                chunk: chunk.take(k),
            },
            true,
        ),
        (
            MsgView::ChunkReq {
                handle,
                chunkid,
                start: (start + k) as u64,
                len: (chunk.len() - k) as u64,
                chunk: chunk.skip(k),
            },
            true,
        ),
    ] + w.skip(j + 1)
}

/// Two pieces of a chunk, handed over one after the other, do what their concatenation
/// handed over at once does, but for the cut in the log.
#[verifier::rlimit(40)]
pub proof fn lemma_two_pieces(cp: ChunkParserView, x: Seq<u8>, y: Seq<u8>, oks: Seq<bool>)
    requires
        inv(cp),
        all_taken(oks),
        cp.state == GL_CHUNK_STATE::IN_CHUNK,
        x.len() > 0,
        y.len() > 0,
        cp.cur_data_pos + x.len() < cp.chunk_len,
        step_fault(cp, 0, Some(x + y)) is None,
        step_fault(chunk_step(cp, 0, Some(x), oks).0, 0, Some(y)) is None,
    ensures
        ({
            let w = chunk_step(cp, 0, Some(x + y), oks).0;
            let s = chunk_step(chunk_step(cp, 0, Some(x), oks).0, 0, Some(y), oks).0;
            &&& strip(w) == strip(s)
            &&& cp.with_error ==> s.sent == w.sent
            &&& !cp.with_error ==> cut_piece(w.sent, s.sent, cp.sent.len() as int, x.len() as int)
        }),
{
    assert(outcome_at(oks, cp.sent.len()));
    assert(outcome_at(oks, cp.sent.len() + 1));
    let w = chunk_step(cp, 0, Some(x + y), oks).0;
    let s1 = chunk_step(cp, 0, Some(x), oks).0;
    let s = chunk_step(s1, 0, Some(y), oks).0;
    assert((x + y).len() == x.len() + y.len());
    assert(s1.state == GL_CHUNK_STATE::IN_CHUNK);
    assert(s1.cur_data_pos == cp.cur_data_pos + x.len());
    assert(s1.with_error == cp.with_error);
    assert(s1.cur_data_pos + y.len() <= usize::MAX);
    assert((x + y).len() == x.len() + y.len());
    assert(w.cur_data_pos == s.cur_data_pos);
    assert(w.state == s.state);
    assert(w.status == s.status);
    assert(strip(w) =~= strip(s));
    if !cp.with_error {
        assert(cp.chunk_start + s1.cur_data_pos <= u64::MAX);
        let xy = x + y;
        let k = x.len() as int;
        assert(xy.take(k) =~= x);
        assert(xy.skip(k) =~= y);
        assert(w.sent.take(cp.sent.len() as int) =~= cp.sent);
        assert(w.sent.skip(cp.sent.len() + 1int) =~= Seq::<(MsgView, bool)>::empty());
        let j = cp.sent.len() as int;
        assert(w.sent[j].0 == MsgView::ChunkReq {
            handle: cp.handle_id,
            chunkid: cp.chunk_id,
            start: (cp.chunk_start + cp.cur_data_pos) as u64,
            len: xy.len() as u64,
            chunk: xy,
        });
        assert(((cp.chunk_start + cp.cur_data_pos) as u64 + k) as u64 == (cp.chunk_start
            + s1.cur_data_pos) as u64);
        assert(s.sent =~= w.sent.take(j) + seq![
            (
                MsgView::ChunkReq {
                    handle: cp.handle_id,
                    chunkid: cp.chunk_id,
                    start: (cp.chunk_start + cp.cur_data_pos) as u64,
                    len: k as u64,
                    chunk: xy.take(k),
                },
                true,
            ),
            (
                MsgView::ChunkReq {
                    handle: cp.handle_id,
                    chunkid: cp.chunk_id,
                    start: ((cp.chunk_start + cp.cur_data_pos) as u64 + k) as u64,
                    len: (xy.len() - k) as u64,
                    chunk: xy.skip(k),
                },
                true,
            ),
        ] + w.sent.skip(j + 1));
    } else {
        assert(s.sent == w.sent);
    }
}


/// A cut in a log stays a cut when both logs go on alike.
pub proof fn lemma_cut_piece_append(
    w: Seq<(MsgView, bool)>,
    s: Seq<(MsgView, bool)>,
    e: Seq<(MsgView, bool)>,
    j: int,
    k: int,
)
    requires
        cut_piece(w, s, j, k),
    ensures
        cut_piece(w + e, s + e, j, k),
{
    assert((w + e)[j] == w[j]);
    assert((w + e).take(j) =~= w.take(j));
    assert((w + e).skip(j + 1) =~= w.skip(j + 1) + e);
    match w[j].0 {
        MsgView::ChunkReq { handle, chunkid, start, len, chunk } => {
            let mid = seq![
                (
                    MsgView::ChunkReq {
                        handle,
                        chunkid,
                        start,
                        len: k as u64,
                        chunk: chunk.take(k),
                    },
                    true,
                ),
                (
                    MsgView::ChunkReq {
                        handle,
                        chunkid,
                        start: (start + k) as u64,
                        len: (chunk.len() - k) as u64,
                        chunk: chunk.skip(k),
                    },
                    true,
                ),
            ];
            assert(s + e =~= (w + e).take(j) + mid + (w + e).skip(j + 1));
        },
        _ => {},
    }
}

/// Handing `a` and then `b` to a reader in two reads does what one read of `a + b` does,
/// while the channel takes every send and neither way stops at a fault: the reader ends in
/// the same state, and the log is the same, except that when the cut falls inside a run of
/// chunk bytes, the piece of that run is sent as two pieces, cut where the first read ended.
#[verifier::rlimit(40)]
pub proof fn law_any_split(p: ProtocolParserView, a: Seq<u8>, b: Seq<u8>, oks: Seq<bool>)
    requires
        pp_valid(p),
        all_taken(oks),
        pp_feed(p, a + b, oks).1 is None,
        pp_feed(p, a, oks).1 is None,
        pp_feed(pp_feed(p, a, oks).0, b, oks).1 is None,
    ensures
        ({
            let w = pp_feed(p, a + b, oks).0;
            let s = pp_feed(pp_feed(p, a, oks).0, b, oks).0;
            &&& pp_strip(s) == pp_strip(w)
            &&& (pp_sent(s) == pp_sent(w) || exists|j: int, k: int|
                cut_piece(pp_sent(w), pp_sent(s), j, k))
        }),
    decreases a.len(),
{
    reveal(pp_feed);
    let ab = a + b;
    if a.len() == 0 {
        assert(ab =~= b);
    } else {
        let k = unit_len(p, a);
        assert(k > 0);
        assert(unit_fault(p, a) is None);
        if p.state == GL_STATE::IN_BYTE_MODE || a.len() >= p.buff_mode_left {
            if p.state == GL_STATE::IN_BYTE_MODE {
                assert(ab[0] == a[0]);
            }
            assert(unit_len(p, ab) == k);
            assert(ab.take(k as int) =~= a.take(k as int));
            assert(unit_fault(p, ab) == unit_fault(p, a));
            assert(pp_unit(p, ab, oks) == pp_unit(p, a, oks));
            let q = pp_unit(p, a, oks);
            lemma_unit_keeps_valid(p, a, oks);
            assert(ab.skip(k as int) =~= a.skip(k as int) + b);
            law_any_split(q, a.skip(k as int), b, oks);
        } else {
            lemma_split_in_run(p, a, b, oks);
        }
    }
}

/// The case of `law_any_split` where the first read ends inside a run of chunk bytes that
/// it started.
#[verifier::rlimit(40)]
pub proof fn lemma_split_in_run(p: ProtocolParserView, a: Seq<u8>, b: Seq<u8>, oks: Seq<bool>)
    requires
        pp_valid(p),
        all_taken(oks),
        p.state == GL_STATE::IN_BUFFER_MODE,
        0 < a.len() < p.buff_mode_left,
        pp_feed(p, a + b, oks).1 is None,
        pp_feed(p, a, oks).1 is None,
        pp_feed(pp_feed(p, a, oks).0, b, oks).1 is None,
    ensures
        ({
            let w = pp_feed(p, a + b, oks).0;
            let s = pp_feed(pp_feed(p, a, oks).0, b, oks).0;
            &&& pp_strip(s) == pp_strip(w)
            &&& (pp_sent(s) == pp_sent(w) || exists|j: int, k: int|
                cut_piece(pp_sent(w), pp_sent(s), j, k))
        }),
{
    reveal(pp_feed);
    let ab = a + b;
    let k = unit_len(p, a);
    assert(unit_fault(p, a) is None);
    let cp = p.cmd_parser.unwrap();
    let left = p.buff_mode_left;
    assert(k == a.len());
    assert(a.take(k as int) =~= a);
    let q = pp_unit(p, a, oks);
    assert(a.skip(k as int) =~= Seq::<u8>::empty());
    assert(pp_feed(q, Seq::<u8>::empty(), oks) == (q, None::<ParseFault>));
    assert(pp_feed(p, a, oks) == (q, None::<ParseFault>));
    if b.len() == 0 {
        assert(ab =~= a);
    } else {
        let m: nat = if b.len() >= left - a.len() {
            (left - a.len()) as nat
        } else {
            b.len()
        };
        let t = a.len() + m;
        assert(unit_len(p, ab) == t);
        assert(ab.take(t as int) =~= a + b.take(m as int));
        assert(ab.skip(t as int) =~= b.skip(m as int));
        assert(unit_fault(p, ab) is None);
        let w1 = pp_unit(p, ab, oks);
        assert(unit_len(q, b) == m);
        assert(unit_fault(q, b) is None);
        let s1 = pp_unit(q, b, oks);
        let rest = b.skip(m as int);
        assert(pp_feed(p, ab, oks) == pp_feed(w1, rest, oks));
        assert(pp_feed(q, b, oks) == pp_feed(s1, rest, oks));
        lemma_two_pieces(cp, a, b.take(m as int), oks);
        assert(pp_strip(w1) =~= pp_strip(s1));
        lemma_feed_log_free(w1, rest, oks);
        lemma_feed_log_free(s1, rest, oks);
        let e = pp_sent(pp_feed(pp_strip(w1), rest, oks).0);
        if !cp.with_error {
            lemma_cut_piece_append(
                pp_sent(w1),
                pp_sent(s1),
                e,
                cp.sent.len() as int,
                a.len() as int,
            );
        }
    }
}


/// Handing bytes to a valid reader leaves it valid, so a reader built in byte mode stays
/// valid through every read.
pub proof fn lemma_feed_keeps_valid(p: ProtocolParserView, d: Seq<u8>, oks: Seq<bool>)
    requires
        pp_valid(p),
    ensures
        pp_valid(pp_feed(p, d, oks).0),
    decreases d.len(),
{
    reveal(pp_feed);
    if d.len() > 0 && unit_len(p, d) > 0 && unit_fault(p, d) is None {
        lemma_unit_keeps_valid(p, d, oks);
        lemma_feed_keeps_valid(pp_unit(p, d, oks), d.skip(unit_len(p, d) as int), oks);
    }
}


/// A byte that names no command, where the command is expected, abandons the frame: nothing
/// is sent and the decoder waits for a start tag with nothing of the frame kept, as a fresh
/// decoder does.
pub proof fn law_unknown_command_recovers(
    v: ChunkParserView,
    c: u8,
    oks: Seq<bool>,
)
    requires
        v.state == GL_CHUNK_STATE::WAIT_CMD,
        c != CMD_WRITE_FILE_REQ,
        c != CMD_WRITE_CHUNK_REQ,
        c != CMD_WRITE_FILE_RESP,
        c != CMD_WRITE_CHUNK_RESP,
    ensures
        step_fault(v, c, None) is None,
        chunk_step(v, c, None, oks) == (ready_view(v.sent), 0u64),
{
}


/// Fed to a decoder waiting for a frame one byte per call, every frame the encoders write
/// that carries no chunk bytes is decoded without fault and without a returned length, hands
/// exactly its message to the channel, and leaves the decoder waiting for the next frame.
pub proof fn law_frame_decodes_by_bytes(sent: Seq<(MsgView, bool)>, m: MsgView, oks: Seq<bool>)
    requires
        encodable(m),
        !(m is ChunkReq),
    ensures
        quiet(ready_view(sent), msg_frame(m), oks),
        byte_steps(ready_view(sent), msg_frame(m), oks) == ready_view(
            sent.push((m, outcome_at(oks, sent.len()))),
        ),
{
    let p = ProtocolParserView {
        buf_size: 0,
        state: GL_STATE::IN_BYTE_MODE,
        buff_mode_left: 0,
        cmd_parser: Some(ready_view(sent)),
    };
    assert(at_frame_boundary(p));
    match m {
        MsgView::FileReq { handle, file_name, total_len } => {
            law_file_req_decodes(p, handle, file_name, total_len, oks);
        },
        MsgView::FileResp { handle, status } => {
            law_file_resp_decodes(p, handle, status, oks);
        },
        MsgView::ChunkResp { handle, chunkid, status } => {
            law_chunk_resp_decodes(p, handle, chunkid, status, oks);
        },
        _ => {},
    }
}


/// A decoder after the calls `xs`, each a byte and, in the chunk state, the chunk bytes
/// handed over with it.
pub open spec fn run_calls(
    v: ChunkParserView,
    xs: Seq<(u8, Option<Seq<u8>>)>,
    oks: Seq<bool>,
) -> ChunkParserView
    decreases xs.len(),
{
    if xs.len() == 0 {
        v
    } else {
        chunk_step(run_calls(v, xs.drop_last(), oks), xs.last().0, xs.last().1, oks).0
    }
}

/// What each of the calls `xs` returns.
pub open spec fn call_returns(v: ChunkParserView, xs: Seq<(u8, Option<Seq<u8>>)>, oks: Seq<bool>) -> Seq<
    u64,
>
    decreases xs.len(),
{
    if xs.len() == 0 {
        Seq::empty()
    } else {
        call_returns(v, xs.drop_last(), oks).push(
            chunk_step(run_calls(v, xs.drop_last(), oks), xs.last().0, xs.last().1, oks).1,
        )
    }
}

/// The fault of each of the calls `xs` (`None` where the call is decoded).
pub open spec fn call_faults(v: ChunkParserView, xs: Seq<(u8, Option<Seq<u8>>)>, oks: Seq<bool>) -> Seq<
    Option<ParseFault>,
>
    decreases xs.len(),
{
    if xs.len() == 0 {
        Seq::empty()
    } else {
        call_faults(v, xs.drop_last(), oks).push(
            step_fault(run_calls(v, xs.drop_last(), oks), xs.last().0, xs.last().1),
        )
    }
}

/// The channel answers the sends after `n1` earlier ones under `oks1` as it answers those
/// after `n2` earlier ones under `oks2`.
pub open spec fn answers_alike(oks1: Seq<bool>, n1: nat, oks2: Seq<bool>, n2: nat) -> bool {
    forall|i: nat| #[trigger] outcome_at(oks1, n1 + i) == outcome_at(oks2, n2 + i)
}

/// A decoding step does not depend on the log but through the channel's answers: two
/// decoders that differ only in their logs, answered alike, append the same messages.
#[verifier::rlimit(40)]
pub proof fn lemma_step_ignores_log(
    v1: ChunkParserView,
    v2: ChunkParserView,
    c: u8,
    b: Option<Seq<u8>>,
    oks1: Seq<bool>,
    oks2: Seq<bool>,
)
    requires
        strip(v1) == strip(v2),
        answers_alike(oks1, v1.sent.len(), oks2, v2.sent.len()),
    ensures
        chunk_step(v1, c, b, oks1).1 == chunk_step(v2, c, b, oks2).1,
        strip(chunk_step(v1, c, b, oks1).0) == strip(chunk_step(v2, c, b, oks2).0),
        step_fault(v1, c, b) == step_fault(v2, c, b),
        chunk_step(v1, c, b, oks1).0.sent == v1.sent + chunk_step(v1, c, b, oks1).0.sent.skip(
            v1.sent.len() as int,
        ),
        chunk_step(v2, c, b, oks2).0.sent == v2.sent + chunk_step(v1, c, b, oks1).0.sent.skip(
            v1.sent.len() as int,
        ),
{
    assert(outcome_at(oks1, v1.sent.len() + 0) == outcome_at(oks2, v2.sent.len() + 0));
    let w1 = chunk_step(v1, c, b, oks1).0;
    let w2 = chunk_step(v2, c, b, oks2).0;
    let d = w1.sent.skip(v1.sent.len() as int);
    assert(v2 == ChunkParserView { sent: v2.sent, ..v1 });
    match v1.state {
        GL_CHUNK_STATE::IN_CHUNK => {
            if b is Some && !v1.with_error {
                assert(w1.sent =~= v1.sent + d);
                assert(w2.sent =~= v2.sent + d);
            } else {
                assert(d =~= Seq::<(MsgView, bool)>::empty());
                assert(w1.sent =~= v1.sent + d);
                assert(w2.sent =~= v2.sent + d);
            }
            assert(strip(w1) =~= strip(w2));
        },
        GL_CHUNK_STATE::WAIT_END => {
            assert(end_msg(v1) == end_msg(v2));
            if c == TAG_END_BYTE && end_msg(v1) is Some {
                assert(w1.sent =~= v1.sent + d);
                assert(w2.sent =~= v2.sent + d);
            } else {
                assert(d =~= Seq::<(MsgView, bool)>::empty());
                assert(w1.sent =~= v1.sent + d);
                assert(w2.sent =~= v2.sent + d);
            }
            assert(strip(w1) =~= strip(w2));
        },
        _ => {
            assert(d =~= Seq::<(MsgView, bool)>::empty());
            assert(w1.sent =~= v1.sent + d);
            assert(w2.sent =~= v2.sent + d);
            assert(strip(w1) =~= strip(w2));
        },
    }
}

/// Two decoders that differ only in their logs, handed the same calls and answered alike by
/// the channel, fault at the same calls, return the same values, send the same messages and
/// end alike but for their logs.
pub proof fn law_calls_ignore_log(
    v1: ChunkParserView,
    v2: ChunkParserView,
    xs: Seq<(u8, Option<Seq<u8>>)>,
    oks1: Seq<bool>,
    oks2: Seq<bool>,
)
    requires
        strip(v1) == strip(v2),
        answers_alike(oks1, v1.sent.len(), oks2, v2.sent.len()),
    ensures
        strip(run_calls(v1, xs, oks1)) == strip(run_calls(v2, xs, oks2)),
        call_returns(v1, xs, oks1) == call_returns(v2, xs, oks2),
        call_faults(v1, xs, oks1) == call_faults(v2, xs, oks2),
        run_calls(v1, xs, oks1).sent == v1.sent + run_calls(v1, xs, oks1).sent.skip(
            v1.sent.len() as int,
        ),
        run_calls(v2, xs, oks2).sent == v2.sent + run_calls(v1, xs, oks1).sent.skip(
            v1.sent.len() as int,
        ),
    decreases xs.len(),
{
    if xs.len() == 0 {
        assert(v1.sent.skip(v1.sent.len() as int) =~= Seq::<(MsgView, bool)>::empty());
        assert(v1.sent + Seq::<(MsgView, bool)>::empty() =~= v1.sent);
        assert(v2.sent + Seq::<(MsgView, bool)>::empty() =~= v2.sent);
    } else {
        let init = xs.drop_last();
        law_calls_ignore_log(v1, v2, init, oks1, oks2);
        let u1 = run_calls(v1, init, oks1);
        let u2 = run_calls(v2, init, oks2);
        let d0 = u1.sent.skip(v1.sent.len() as int);
        assert forall|i: nat| #[trigger] outcome_at(oks1, u1.sent.len() + i) == outcome_at(
            oks2,
            u2.sent.len() + i,
        ) by {
            assert(outcome_at(oks1, v1.sent.len() + (d0.len() + i)) == outcome_at(
                oks2,
                v2.sent.len() + (d0.len() + i),
            ));
        }
        lemma_step_ignores_log(u1, u2, xs.last().0, xs.last().1, oks1, oks2);
        let w1 = run_calls(v1, xs, oks1);
        let d1 = w1.sent.skip(u1.sent.len() as int);
        assert(w1.sent.skip(v1.sent.len() as int) =~= d0 + d1);
        assert(w1.sent =~= v1.sent + (d0 + d1));
        assert(run_calls(v2, xs, oks2).sent =~= v2.sent + (d0 + d1));
    }
}

/// A decoder that waits for a frame, whatever it sent before (after `reset`, or after bytes
/// without a start tag), does on any later calls what a fresh decoder does, when the channel
/// answers their sends alike: the same faults, the same returned values and the same
/// messages.
pub proof fn law_waiting_decoder_is_fresh(
    sent: Seq<(MsgView, bool)>,
    xs: Seq<(u8, Option<Seq<u8>>)>,
    oks: Seq<bool>,
    fresh_oks: Seq<bool>,
)
    requires
        answers_alike(oks, sent.len(), fresh_oks, 0),
    ensures
        call_returns(ready_view(sent), xs, oks) == call_returns(ready_view(Seq::empty()), xs, fresh_oks),
        call_faults(ready_view(sent), xs, oks) == call_faults(ready_view(Seq::empty()), xs, fresh_oks),
        run_calls(ready_view(sent), xs, oks).sent == sent + run_calls(
            ready_view(Seq::empty()),
            xs,
            fresh_oks,
        ).sent,
{
    assert(strip(ready_view(sent)) =~= strip(ready_view(Seq::empty())));
    law_calls_ignore_log(ready_view(Seq::empty()), ready_view(sent), xs, fresh_oks, oks);
    let e = run_calls(ready_view(Seq::empty()), xs, fresh_oks).sent;
    assert(Seq::<(MsgView, bool)>::empty() + e.skip(0) =~= e);
}


/// A decoding step sends at most one message, and only where the frame layout says: a
/// write-file request, write-file response or write-chunk response only on the end tag that
/// closes a frame of that command (after which the decoder waits for the next frame, so each
/// such frame sends one), a write-chunk request only on chunk bytes.
pub proof fn law_where_messages_are_sent(
    v: ChunkParserView,
    c: u8,
    b: Option<Seq<u8>>,
    oks: Seq<bool>,
)
    ensures
        ({
            let w = chunk_step(v, c, b, oks).0;
            &&& w.sent.len() == v.sent.len() || w.sent.len() == v.sent.len() + 1
            &&& w.sent.take(v.sent.len() as int) == v.sent
            &&& w.sent.len() > v.sent.len() ==> match w.sent.last().0 {
                MsgView::FileReq { .. } => v.state == GL_CHUNK_STATE::WAIT_END && c == TAG_END_BYTE
                    && v.cmd == CMD::WRITE_FILE_REQ && w == ready_view(w.sent),
                MsgView::FileResp { .. } => v.state == GL_CHUNK_STATE::WAIT_END && c == TAG_END_BYTE
                    && v.cmd == CMD::WRITE_FILE_RESP && w == ready_view(w.sent),
                MsgView::ChunkResp { .. } => v.state == GL_CHUNK_STATE::WAIT_END && c
                    == TAG_END_BYTE && v.cmd == CMD::WRITE_CHUNK_RESP && w == ready_view(w.sent),
                MsgView::ChunkReq { .. } => v.state == GL_CHUNK_STATE::IN_CHUNK && b is Some,
            }
        }),
{
    let w = chunk_step(v, c, b, oks).0;
    if w.sent.len() == v.sent.len() {
        assert(w.sent =~= v.sent);
    }
    assert(w.sent.take(v.sent.len() as int) =~= v.sent);
}


/// The log `s` comes from the log `w` by `n` cuts, each sending a write-chunk request as two
/// pieces.
pub open spec fn cut_n(w: Seq<(MsgView, bool)>, s: Seq<(MsgView, bool)>, n: nat) -> bool
    decreases n,
{
    if n == 0 {
        s == w
    } else {
        exists|m: Seq<(MsgView, bool)>, j: int, k: int|
            cut_n(w, m, (n - 1) as nat) && #[trigger] cut_piece(m, s, j, k)
    }
}

/// Cuts stay cuts when both logs go on alike.
pub proof fn lemma_cut_n_append(
    w: Seq<(MsgView, bool)>,
    s: Seq<(MsgView, bool)>,
    e: Seq<(MsgView, bool)>,
    n: nat,
)
    requires
        cut_n(w, s, n),
    ensures
        cut_n(w + e, s + e, n),
    decreases n,
{
    if n > 0 {
        let (m, j, k) = choose|m: Seq<(MsgView, bool)>, j: int, k: int|
            cut_n(w, m, (n - 1) as nat) && #[trigger] cut_piece(m, s, j, k);
        lemma_cut_n_append(w, m, e, (n - 1) as nat);
        lemma_cut_piece_append(m, s, e, j, k);
        assert(cut_n(w + e, m + e, (n - 1) as nat) && cut_piece(m + e, s + e, j, k));
    }
}

/// Cuts after cuts are cuts.
pub proof fn lemma_cut_n_trans(
    w: Seq<(MsgView, bool)>,
    m: Seq<(MsgView, bool)>,
    s: Seq<(MsgView, bool)>,
    a: nat,
    b: nat,
)
    requires
        cut_n(w, m, a),
        cut_n(m, s, b),
    ensures
        cut_n(w, s, a + b),
    decreases b,
{
    if b > 0 {
        let (m2, j, k) = choose|m2: Seq<(MsgView, bool)>, j: int, k: int|
            cut_n(m, m2, (b - 1) as nat) && #[trigger] cut_piece(m2, s, j, k);
        lemma_cut_n_trans(w, m, m2, a, (b - 1) as nat);
        assert(cut_n(w, m2, (a + b - 1) as nat) && cut_piece(m2, s, j, k));
    }
}

/// The reads `rs` one after the other, as one run of bytes.
pub open spec fn joined(rs: Seq<Seq<u8>>) -> Seq<u8>
    decreases rs.len(),
{
    if rs.len() == 0 {
        Seq::empty()
    } else {
        joined(rs.drop_last()) + rs.last()
    }
}

/// A read that the reader takes without fault takes its first part without fault too.
#[verifier::rlimit(40)]
pub proof fn lemma_prefix_quiet(p: ProtocolParserView, a: Seq<u8>, b: Seq<u8>, oks: Seq<bool>)
    requires
        pp_feed(p, a + b, oks).1 is None,
    ensures
        pp_feed(p, a, oks).1 is None,
    decreases a.len(),
{
    reveal(pp_feed);
    let ab = a + b;
    if a.len() > 0 && unit_len(p, a) > 0 {
        let k = unit_len(p, a);
        if p.cmd_parser is None {
            assert(unit_len(p, ab) > 0);
            assert(unit_fault(p, ab) is Some);
        } else if p.state == GL_STATE::IN_BYTE_MODE || a.len() >= p.buff_mode_left {
            if p.state == GL_STATE::IN_BYTE_MODE {
                assert(ab[0] == a[0]);
            }
            assert(unit_len(p, ab) == k);
            assert(ab.take(k as int) =~= a.take(k as int));
            assert(unit_fault(p, ab) == unit_fault(p, a));
            assert(pp_unit(p, ab, oks) == pp_unit(p, a, oks));
            assert(ab.skip(k as int) =~= a.skip(k as int) + b);
            lemma_prefix_quiet(pp_unit(p, a, oks), a.skip(k as int), b, oks);
        } else {
            let t = unit_len(p, ab);
            assert(t >= a.len());
            assert(ab.take(t as int).len() >= a.take(k as int).len());
            assert(unit_fault(p, ab) is None);
            assert(unit_fault(p, a) is None);
            let q = pp_unit(p, a, oks);
            assert(a.skip(k as int) =~= Seq::<u8>::empty());
            assert(pp_feed(q, Seq::<u8>::empty(), oks) == (q, None::<ParseFault>));
        }
    }
}

/// A run of bytes split into any number of reads does what one read of it does, while the
/// channel takes every send and no read stops at a fault: the reader ends in the same state,
/// and the log differs only by cuts, each sending a piece of a run of chunk bytes as two
/// pieces, cut where a read ended.
#[verifier::rlimit(40)]
pub proof fn law_split_into_reads(p: ProtocolParserView, rs: Seq<Seq<u8>>, oks: Seq<bool>)
    requires
        pp_valid(p),
        all_taken(oks),
        pp_feed(p, joined(rs), oks).1 is None,
        reads_quiet(p, rs, oks),
    ensures
        pp_strip(reads_feed(p, rs, oks)) == pp_strip(pp_feed(p, joined(rs), oks).0),
        exists|n: nat|
            cut_n(pp_sent(pp_feed(p, joined(rs), oks).0), pp_sent(reads_feed(p, rs, oks)), n),
    decreases rs.len(),
{
    if rs.len() == 0 {
        reveal(pp_feed);
        assert(pp_feed(p, Seq::<u8>::empty(), oks) == (p, None::<ParseFault>));
        assert(cut_n(pp_sent(p), pp_sent(p), 0));
    } else {
        let init = rs.drop_last();
        let a = joined(init);
        let b = rs.last();
        lemma_prefix_quiet(p, a, b, oks);
        law_split_into_reads(p, init, oks);
        let m0 = pp_feed(p, a, oks).0;
        let s0 = reads_feed(p, init, oks);
        let n0 = choose|n: nat| cut_n(pp_sent(m0), pp_sent(s0), n);
        lemma_feed_log_free(m0, b, oks);
        lemma_feed_log_free(s0, b, oks);
        law_any_split(p, a, b, oks);
        let w = pp_feed(p, a + b, oks).0;
        let m1 = pp_feed(m0, b, oks).0;
        let s = pp_feed(s0, b, oks).0;
        let e = pp_sent(pp_feed(pp_strip(m0), b, oks).0);
        lemma_cut_n_append(pp_sent(m0), pp_sent(s0), e, n0);
        let c: nat = if pp_sent(m1) == pp_sent(w) {
            0
        } else {
            1
        };
        if c == 1 {
            let (j, k) = choose|j: int, k: int| cut_piece(pp_sent(w), pp_sent(m1), j, k);
            assert(cut_n(pp_sent(w), pp_sent(w), 0));
            assert(cut_n(pp_sent(w), pp_sent(m1), 1));
        }
        assert(cut_n(pp_sent(w), pp_sent(m1), c));
        lemma_cut_n_trans(pp_sent(w), pp_sent(m1), pp_sent(s), c, n0);
        assert(cut_n(pp_sent(w), pp_sent(s), c + n0));
    }
}

} // verus!
