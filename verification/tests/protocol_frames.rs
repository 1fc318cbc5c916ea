use qfiletrans::parser::{ChunkParser, ParseFault};
use qfiletrans::protocol::{
    create_chunk_req, create_chunk_resp, create_file_req, create_file_resp, encode_file_req,
    ProtocolMsgs, CMD, P_TAG,
};
use qfiletrans::stream::ProtocolParser;
use std::sync::mpsc::{sync_channel, Receiver};

fn parser_with_channel() -> (ProtocolParser, Receiver<ProtocolMsgs>) {
    let (tx, rx) = sync_channel(64);
    let mut p = ProtocolParser::new(1024);
    p.build(tx);
    (p, rx)
}

fn drain(rx: &Receiver<ProtocolMsgs>) -> Vec<ProtocolMsgs> {
    let mut out = Vec::new();
    while let Ok(m) = rx.try_recv() {
        out.push(m);
    }
    out
}

#[test]
fn tags_and_commands_have_their_bytes() {
    assert_eq!(P_TAG::TAG_START.byte(), 0xBE);
    assert_eq!(P_TAG::TAG_END.byte(), 0x4C);
    assert_eq!(CMD::WRITE_FILE_REQ.byte(), 0x01);
    assert_eq!(CMD::WRITE_CHUNK_REQ.byte(), 0x02);
    assert_eq!(CMD::WRITE_FILE_RESP.byte(), 0x11);
    assert_eq!(CMD::WRITE_CHUNK_RESP.byte(), 0x12);
    assert_eq!(CMD::from_u8(0x00), Some(CMD::UNKNOWN));
    assert_eq!(CMD::from_u8(0x12), Some(CMD::WRITE_CHUNK_RESP));
    assert_eq!(CMD::from_u8(0x03), None);
}

#[test]
fn file_resp_frame_layout() {
    assert_eq!(
        create_file_resp(0x0102_0304, 7),
        vec![0xBE, 0x01, 0x02, 0x03, 0x04, 0x11, 7, 0x4C]
    );
}

#[test]
fn chunk_resp_frame_layout() {
    assert_eq!(
        create_chunk_resp(1, 0x0A0B_0C0D, 3),
        vec![0xBE, 0, 0, 0, 1, 0x12, 0x0A, 0x0B, 0x0C, 0x0D, 3, 0x4C]
    );
}

#[test]
fn file_req_frame_layout() {
    let frame = encode_file_req(5, "ab", 0x0102);
    assert_eq!(
        frame,
        vec![
            0xBE, 0, 0, 0, 5, 0x01, 0, 0, 0, 2, b'a', b'b', 0, 0, 0, 0, 0, 0, 0x01, 0x02, 0x4C
        ]
    );
    assert_eq!(frame.len(), 19 + 2);
}

#[test]
fn create_file_req_puts_its_handle_in_the_frame() {
    let (handle, frame) = create_file_req(String::from("name"), 10);
    assert_eq!(frame.len(), 23);
    assert_eq!(&frame[1..5], &handle.to_be_bytes()[..]);
    assert_eq!(frame, encode_file_req(handle, "name", 10));
}

#[test]
fn chunk_req_frame_ends_at_its_end_tag() {
    // three bytes were read into a five-byte buffer: the frame carries the three
    let frame = create_chunk_req(&[7, 8, 9], 1, 2, 3, 5);
    let mut expected = vec![0xBE, 0, 0, 0, 1, 0x02, 0, 0, 0, 2];
    expected.extend_from_slice(&[0, 0, 0, 0, 0, 0, 0, 3]);
    expected.extend_from_slice(&[0, 0, 0, 0, 0, 0, 0, 3]);
    expected.extend_from_slice(&[7, 8, 9, 0x4C]);
    assert_eq!(frame, expected);
    assert_eq!(frame.len(), 27 + 3);
}

#[test]
fn file_req_frame_decodes_to_its_request() {
    let (mut p, rx) = parser_with_channel();
    let frame = encode_file_req(0xDEAD_BEEF, "dir/file.bin", 4096);
    assert_eq!(p.feed(&frame), Ok(()));
    let msgs = drain(&rx);
    assert_eq!(msgs.len(), 1);
    match &msgs[0] {
        ProtocolMsgs::FileReq(r) => {
            assert_eq!(r.handle, 0xDEAD_BEEF);
            assert_eq!(r.file_name, "dir/file.bin");
            assert_eq!(r.total_len, 4096);
        }
        other => panic!("unexpected message {:?}", other),
    }
}

#[test]
fn file_resp_frame_decodes_to_its_response() {
    let (mut p, rx) = parser_with_channel();
    assert_eq!(p.feed(&create_file_resp(42, 1)), Ok(()));
    let msgs = drain(&rx);
    assert_eq!(msgs.len(), 1);
    match &msgs[0] {
        ProtocolMsgs::FileResp(r) => {
            assert_eq!(r.handle, 42);
            assert_eq!(r.status, 1);
        }
        other => panic!("unexpected message {:?}", other),
    }
}

#[test]
fn chunk_resp_frame_decodes_to_its_response() {
    let (mut p, rx) = parser_with_channel();
    assert_eq!(p.feed(&create_chunk_resp(9, 77, 2)), Ok(()));
    let msgs = drain(&rx);
    assert_eq!(msgs.len(), 1);
    match &msgs[0] {
        ProtocolMsgs::ChunkResp(r) => {
            assert_eq!(r.handle, 9);
            assert_eq!(r.chunkid, 77);
            assert_eq!(r.status, 2);
        }
        other => panic!("unexpected message {:?}", other),
    }
}

#[test]
fn chunk_req_frame_decodes_to_one_piece() {
    let (mut p, rx) = parser_with_channel();
    let frame = create_chunk_req(&[1, 2, 3, 4], 5, 6, 100, 8);
    assert_eq!(p.feed(&frame), Ok(()));
    let msgs = drain(&rx);
    assert_eq!(msgs.len(), 1);
    match &msgs[0] {
        ProtocolMsgs::ChunkReq(r) => {
            assert_eq!(r.handle, 5);
            assert_eq!(r.chunkid, 6);
            assert_eq!(r.start, 100);
            assert_eq!(r.len, 4);
            assert_eq!(r.chunk, vec![1, 2, 3, 4]);
        }
        other => panic!("unexpected message {:?}", other),
    }
}

#[test]
fn chunk_split_over_reads_arrives_in_pieces() {
    let (mut p, rx) = parser_with_channel();
    let frame = create_chunk_req(&[1, 2, 3, 4, 5], 5, 6, 100, 5);
    // header and the first two chunk bytes in one read, the rest in another
    assert_eq!(p.feed(&frame[..28]), Ok(()));
    assert_eq!(p.feed(&frame[28..]), Ok(()));
    let msgs = drain(&rx);
    assert_eq!(msgs.len(), 2);
    match (&msgs[0], &msgs[1]) {
        (ProtocolMsgs::ChunkReq(a), ProtocolMsgs::ChunkReq(b)) => {
            assert_eq!((a.start, a.len, a.chunk.clone()), (100, 2, vec![1, 2]));
            assert_eq!((b.start, b.len, b.chunk.clone()), (102, 3, vec![3, 4, 5]));
        }
        other => panic!("unexpected messages {:?}", other),
    }
}

#[test]
fn bytes_before_the_start_tag_are_skipped() {
    let (mut p, rx) = parser_with_channel();
    let mut data = vec![0x00, 0x4C, 0x13];
    data.extend_from_slice(&create_file_resp(3, 0));
    assert_eq!(p.feed(&data), Ok(()));
    assert_eq!(drain(&rx).len(), 1);
}

#[test]
fn feeding_without_a_decoder_is_a_fault() {
    let mut p = ProtocolParser::new(16);
    assert_eq!(p.feed(&[0xBE]), Err(ParseFault::NoCommandParser));
    assert_eq!(p.feed(&[]), Ok(()));
}

#[test]
fn unknown_command_abandons_the_frame() {
    let (mut p, rx) = parser_with_channel();
    assert_eq!(p.feed(&[0xBE, 0, 0, 0, 1, 0x05, 0x4C]), Ok(()));
    assert_eq!(drain(&rx).len(), 0);
    // the decoder waits for a new frame
    assert_eq!(p.feed(&create_file_resp(6, 2)), Ok(()));
    let msgs = drain(&rx);
    assert_eq!(msgs.len(), 1);
    match &msgs[0] {
        ProtocolMsgs::FileResp(r) => assert_eq!((r.handle, r.status), (6, 2)),
        other => panic!("unexpected message {:?}", other),
    }
}

#[test]
fn unknown_command_zero_restarts_the_frame() {
    let (mut p, rx) = parser_with_channel();
    let mut data = vec![0xBE, 0, 0, 0, 1, 0x00];
    data.extend_from_slice(&create_file_resp(8, 5));
    assert_eq!(p.feed(&data), Ok(()));
    let msgs = drain(&rx);
    assert_eq!(msgs.len(), 1);
    match &msgs[0] {
        // nothing of the abandoned frame is kept
        ProtocolMsgs::FileResp(r) => assert_eq!((r.handle, r.status), (8, 5)),
        other => panic!("unexpected message {:?}", other),
    }
}

#[test]
fn empty_chunk_sends_nothing() {
    let (mut p, rx) = parser_with_channel();
    let frame = create_chunk_req(&[], 1, 2, 3, 0);
    assert_eq!(frame.len(), 27);
    assert_eq!(p.feed(&frame), Ok(()));
    assert_eq!(drain(&rx).len(), 0);
    assert_eq!(p.feed(&create_chunk_resp(1, 2, 0)), Ok(()));
    assert_eq!(drain(&rx).len(), 1);
}

#[test]
fn a_lone_byte_in_chunk_data_is_a_fault() {
    let (tx, _rx) = sync_channel(8);
    let mut cp = ChunkParser::new(tx);
    let frame = create_chunk_req(&[1, 2], 1, 2, 0, 2);
    for &b in &frame[..26] {
        cp.on_data(b, None);
    }
    assert_eq!(cp.fault(frame[26], None), Some(ParseFault::LoneChunkByte));
}

#[test]
fn empty_file_name_decodes() {
    let (mut p, rx) = parser_with_channel();
    let frame = encode_file_req(3, "", 9);
    assert_eq!(frame.len(), 19);
    assert_eq!(p.feed(&frame), Ok(()));
    let msgs = drain(&rx);
    assert_eq!(msgs.len(), 1);
    match &msgs[0] {
        ProtocolMsgs::FileReq(r) => {
            assert_eq!((r.handle, r.file_name.as_str(), r.total_len), (3, "", 9))
        }
        other => panic!("unexpected message {:?}", other),
    }
}

#[test]
fn invalid_file_name_is_a_fault() {
    let (mut p, rx) = parser_with_channel();
    let frame = vec![
        0xBE, 0, 0, 0, 1, 0x01, 0, 0, 0, 1, 0xFF, 0, 0, 0, 0, 0, 0, 0, 1, 0x4C,
    ];
    assert_eq!(p.feed(&frame), Err(ParseFault::InvalidFileName));
    assert_eq!(drain(&rx).len(), 0);
}

#[test]
fn position_past_u64_is_a_fault() {
    let (mut p, _rx) = parser_with_channel();
    let frame = create_chunk_req(&[1, 2], 1, 2, u64::MAX, 2);
    assert_eq!(p.feed(&frame[..27]), Ok(()));
    assert_eq!(p.feed(&frame[27..]), Err(ParseFault::PositionOverflow));
}

#[test]
fn chunk_parser_decodes_bytes_and_reports_chunk_length() {
    let (tx, rx) = sync_channel(8);
    let mut cp = ChunkParser::new(tx);
    let frame = create_chunk_req(&[9, 9, 9], 1, 2, 0, 3);
    let mut lens = Vec::new();
    for &b in &frame[..26] {
        assert_eq!(cp.fault(b, None), None);
        lens.push(cp.on_data(b, None));
    }
    assert_eq!(lens[25], 3);
    assert!(lens[..25].iter().all(|&l| l == 0));
    assert_eq!(cp.on_data(0, Some(&frame[26..29])), 0);
    match rx.try_recv() {
        Ok(ProtocolMsgs::ChunkReq(r)) => assert_eq!(r.chunk, vec![9, 9, 9]),
        other => panic!("unexpected {:?}", other),
    }
    // the chunk is complete: the end tag comes next
    assert_eq!(cp.fault(0x4C, None), None);
    assert_eq!(cp.on_data(0x4C, None), 0);
    assert!(rx.try_recv().is_err());
}

#[test]
fn chunk_in_three_pieces_starts_each_where_the_last_ended() {
    let (tx, rx) = sync_channel(8);
    let mut cp = ChunkParser::new(tx);
    let frame = create_chunk_req(&[1, 2, 3, 4, 5, 6], 7, 8, 40, 6);
    for &b in &frame[..26] {
        cp.on_data(b, None);
    }
    assert_eq!(cp.on_data(0, Some(&frame[26..27])), 0);
    assert_eq!(cp.on_data(0, Some(&frame[27..30])), 0);
    assert_eq!(cp.on_data(0, Some(&frame[30..32])), 0);
    assert_eq!(cp.on_data(frame[32], None), 0);
    let msgs = drain(&rx);
    assert_eq!(msgs.len(), 3);
    let got: Vec<(u32, u32, u64, u64, Vec<u8>)> = msgs
        .iter()
        .map(|m| match m {
            ProtocolMsgs::ChunkReq(r) => (r.handle, r.chunkid, r.start, r.len, r.chunk.clone()),
            other => panic!("unexpected message {:?}", other),
        })
        .collect();
    assert_eq!(
        got,
        vec![
            (7, 8, 40, 1, vec![1]),
            (7, 8, 41, 3, vec![2, 3, 4]),
            (7, 8, 44, 2, vec![5, 6]),
        ]
    );
}

#[test]
fn reset_lets_the_decoder_read_another_frame() {
    let (tx, rx) = sync_channel(8);
    let mut cp = ChunkParser::new(tx);
    for &b in &create_file_resp(1, 1) {
        cp.on_data(b, None);
    }
    cp.reset();
    for &b in &create_file_resp(2, 0) {
        cp.on_data(b, None);
    }
    let msgs = drain(&rx);
    assert_eq!(msgs.len(), 2);
    match &msgs[1] {
        ProtocolMsgs::FileResp(r) => assert_eq!((r.handle, r.status), (2, 0)),
        other => panic!("unexpected message {:?}", other),
    }
}

#[test]
fn closed_channel_stops_sending_chunk_pieces() {
    let (tx, rx) = sync_channel(8);
    drop(rx);
    let mut cp = ChunkParser::new(tx);
    let frame = create_chunk_req(&[1, 2], 1, 2, 0, 2);
    for &b in &frame[..26] {
        cp.on_data(b, None);
    }
    assert_eq!(cp.on_data(0, Some(&frame[26..27])), 0);
    // after a failed send the rest of the chunk is taken without being sent
    assert_eq!(cp.fault(0, None), None);
    cp.on_data(frame[27], None);
    // then the end tag, and the decoder waits for the next frame
    assert_eq!(cp.on_data(frame[28], None), 0);
    assert_eq!(frame.len(), 29);
}

#[test]
fn a_frame_split_anywhere_outside_chunk_bytes_decodes_the_same() {
    let frame = encode_file_req(0x0102_0304, "x/y", 77);
    for k in 0..=frame.len() {
        let (mut p, rx) = parser_with_channel();
        assert_eq!(p.feed(&frame[..k]), Ok(()));
        assert_eq!(p.feed(&frame[k..]), Ok(()));
        let msgs = drain(&rx);
        assert_eq!(msgs.len(), 1);
        match &msgs[0] {
            ProtocolMsgs::FileReq(r) => {
                assert_eq!((r.handle, r.file_name.as_str(), r.total_len), (0x0102_0304, "x/y", 77))
            }
            other => panic!("unexpected message {:?}", other),
        }
    }
}

#[test]
fn consecutive_frames_each_decode() {
    let (mut p, rx) = parser_with_channel();
    let mut data = create_file_resp(1, 0);
    data.extend_from_slice(&create_file_resp(2, 5));
    assert_eq!(p.feed(&data), Ok(()));
    let msgs = drain(&rx);
    assert_eq!(msgs.len(), 2);
    match (&msgs[0], &msgs[1]) {
        (ProtocolMsgs::FileResp(a), ProtocolMsgs::FileResp(b)) => {
            assert_eq!((a.handle, a.status), (1, 0));
            assert_eq!((b.handle, b.status), (2, 5));
        }
        other => panic!("unexpected messages {:?}", other),
    }
}

#[test]
fn a_stray_end_tag_after_a_frame_sends_nothing() {
    let (tx, rx) = sync_channel(8);
    let mut cp = ChunkParser::new(tx);
    for &b in &create_file_resp(1, 0) {
        cp.on_data(b, None);
    }
    cp.on_data(0x4C, None);
    assert_eq!(drain(&rx).len(), 1);
}

#[test]
fn frames_of_every_kind_decode_in_a_row() {
    let (mut p, rx) = parser_with_channel();
    let mut data = encode_file_req(1, "f", 2);
    data.extend_from_slice(&create_chunk_req(&[5, 6], 1, 0, 0, 2));
    data.extend_from_slice(&create_chunk_resp(1, 0, 0));
    data.extend_from_slice(&create_file_resp(1, 0));
    assert_eq!(p.feed(&data), Ok(()));
    let msgs = drain(&rx);
    assert_eq!(msgs.len(), 4);
    assert!(matches!(&msgs[0], ProtocolMsgs::FileReq(r) if r.handle == 1 && r.file_name == "f" && r.total_len == 2));
    assert!(matches!(&msgs[1], ProtocolMsgs::ChunkReq(r) if r.chunk == vec![5, 6] && r.start == 0));
    assert!(matches!(&msgs[2], ProtocolMsgs::ChunkResp(r) if r.handle == 1 && r.chunkid == 0 && r.status == 0));
    assert!(matches!(&msgs[3], ProtocolMsgs::FileResp(r) if r.handle == 1 && r.status == 0));
}

#[test]
fn frames_split_anywhere_place_the_same_chunk_bytes() {
    let mut data = create_file_resp(4, 0);
    data.extend_from_slice(&create_chunk_req(&[1, 2, 3, 4, 5, 6], 4, 9, 100, 6));
    data.extend_from_slice(&create_chunk_resp(4, 9, 0));
    for k in 0..=data.len() {
        let (mut p, rx) = parser_with_channel();
        assert_eq!(p.feed(&data[..k]), Ok(()));
        assert_eq!(p.feed(&data[k..]), Ok(()));
        let msgs = drain(&rx);
        assert!(matches!(&msgs[0], ProtocolMsgs::FileResp(r) if r.handle == 4 && r.status == 0));
        assert!(matches!(msgs.last(), Some(ProtocolMsgs::ChunkResp(r)) if r.chunkid == 9));
        let pieces = &msgs[1..msgs.len() - 1];
        // inside the chunk bytes the cut makes two pieces, elsewhere one
        let inside = k > 8 + 26 && k < 8 + 26 + 6;
        assert_eq!(pieces.len(), if inside { 2 } else { 1 });
        let mut next = 100;
        let mut bytes = Vec::new();
        for m in pieces {
            match m {
                ProtocolMsgs::ChunkReq(r) => {
                    assert_eq!((r.handle, r.chunkid, r.start), (4, 9, next));
                    assert_eq!(r.len as usize, r.chunk.len());
                    next += r.len;
                    bytes.extend_from_slice(&r.chunk);
                }
                other => panic!("unexpected message {:?}", other),
            }
        }
        assert_eq!(bytes, vec![1, 2, 3, 4, 5, 6]);
    }
}

#[test]
fn frames_in_three_reads_place_the_same_chunk_bytes() {
    let mut data = create_file_resp(4, 0);
    data.extend_from_slice(&create_chunk_req(&[1, 2, 3, 4, 5, 6], 4, 9, 100, 6));
    data.extend_from_slice(&create_chunk_resp(4, 9, 0));
    for i in 0..=data.len() {
        for j in i..=data.len() {
            let (mut p, rx) = parser_with_channel();
            assert_eq!(p.feed(&data[..i]), Ok(()));
            assert_eq!(p.feed(&data[i..j]), Ok(()));
            assert_eq!(p.feed(&data[j..]), Ok(()));
            let msgs = drain(&rx);
            assert!(matches!(&msgs[0], ProtocolMsgs::FileResp(r) if r.handle == 4));
            assert!(matches!(msgs.last(), Some(ProtocolMsgs::ChunkResp(r)) if r.chunkid == 9));
            let mut next = 100;
            let mut bytes = Vec::new();
            for m in &msgs[1..msgs.len() - 1] {
                match m {
                    ProtocolMsgs::ChunkReq(r) => {
                        assert_eq!(r.start, next);
                        next += r.len;
                        bytes.extend_from_slice(&r.chunk);
                    }
                    other => panic!("unexpected message {:?}", other),
                }
            }
            assert_eq!(bytes, vec![1, 2, 3, 4, 5, 6]);
        }
    }
}

#[test]
fn a_reset_decoder_reads_like_a_fresh_one() {
    let (tx, rx) = sync_channel(8);
    let mut cp = ChunkParser::new(tx);
    for &b in &create_file_resp(1, 1)[..5] {
        cp.on_data(b, None);
    }
    cp.reset();
    for &b in &[0x4C, 0x00, 0x13] {
        assert_eq!(cp.on_data(b, None), 0);
    }
    for &b in &create_chunk_resp(3, 4, 5) {
        cp.on_data(b, None);
    }
    let msgs = drain(&rx);
    assert_eq!(msgs.len(), 1);
    assert!(matches!(&msgs[0], ProtocolMsgs::ChunkResp(r) if r.handle == 3 && r.chunkid == 4 && r.status == 5));
}
