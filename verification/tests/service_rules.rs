use qfiletrans::file_manager::{
    chunk_req_response, chunk_write_status, file_req_response, upload_transition, FileTable,
    ProtoProcIntf,
    UpEvent, UpEvtChunkResp, UpEvtHeaderResp, UpEvtOtherError, UpEvtStart, UploadState,
};
use qfiletrans::model::{Sector, SectorNotifyForm, Status};
use qfiletrans::protocol::{
    create_chunk_resp, create_file_resp, ProtocolMsgs, WriteChunkReq, WriteChunkResp, WriteFileReq,
    WriteFileResp,
};
use qfiletrans::web::{AuthRoute, CheckLoginMiddleware};
use std::sync::mpsc::RecvError;

#[test]
fn status_values() {
    let s = Status::success();
    assert_eq!((s.code(), s.msg()), (1, "success"));
    let f = Status::fail();
    assert_eq!((f.code(), f.msg()), (0, "fail"));
    let m = Status::fail_with_msg(String::from("db down"));
    assert_eq!((m.code(), m.msg()), (0, "db down"));
    let r = Status::data(vec![Sector { id: 1, title: String::from("t"), content: String::from("c") }]);
    let (code, msg, data) = r.into_parts();
    assert_eq!((code, msg.as_str(), data.len(), data[0].id), (1, "success", 1, 1));
    let form = SectorNotifyForm { filename: String::from("a"), sector_id: String::from("b") };
    assert_eq!(form.filename, "a");
}

#[test]
fn login_check_routes() {
    assert_eq!(CheckLoginMiddleware::<()>::route("/login", false), AuthRoute::Login);
    assert_eq!(CheckLoginMiddleware::<()>::route("/ping", true), AuthRoute::Authorized);
    assert_eq!(CheckLoginMiddleware::<()>::route("/ping", false), AuthRoute::Anonymous);
    assert_eq!(CheckLoginMiddleware::<()>::route("/login/", false), AuthRoute::Anonymous);
    assert!(AuthRoute::Anonymous.forwards());
    let mut m = CheckLoginMiddleware::new(5u32);
    *m.service() += 1;
    assert_eq!(*m.service(), 6);
}

#[test]
fn server_answers() {
    assert_eq!(file_req_response(4, false), create_file_resp(4, 0));
    assert_eq!(file_req_response(4, true), create_file_resp(4, 1));
    assert_eq!(chunk_write_status(false, true, true), 3);
    assert_eq!(chunk_write_status(true, false, true), 2);
    assert_eq!(chunk_write_status(true, true, false), 1);
    assert_eq!(chunk_write_status(true, true, true), 0);
    assert_eq!(chunk_req_response(1, 2, 0, 10, 5, 15), (Some(create_chunk_resp(1, 2, 0)), false));
    assert_eq!(chunk_req_response(1, 2, 0, 10, 4, 15), (None, false));
    assert_eq!(chunk_req_response(1, 2, 2, 10, 5, 15), (Some(create_chunk_resp(1, 2, 2)), true));
}

#[test]
fn upload_client_transitions() {
    let start = UpEvent::EvtStart(UpEvtStart { file_name: String::from("f") });
    assert_eq!(upload_transition(UploadState::US_IDLE, 7, &start), (UploadState::US_WRITING_H, 7));
    let ok = UpEvent::EvtHeadResp(UpEvtHeaderResp { handle_id: 7, status: 0 });
    assert_eq!(upload_transition(UploadState::US_WRITING_H, 7, &ok), (UploadState::US_WRITING_H, 0));
    assert_eq!(upload_transition(UploadState::US_IDLE, 7, &ok), (UploadState::US_IDLE, 7));
    let bad = UpEvent::EvtHeadResp(UpEvtHeaderResp { handle_id: 7, status: 1 });
    assert_eq!(upload_transition(UploadState::US_WRITING_H, 7, &bad), (UploadState::US_WRITING_H, 7));
    let chunk = UpEvent::EvtChunkResp(UpEvtChunkResp { handle_id: 7, chunk_id: 1, start: 0, len: 1, status: 0 });
    assert_eq!(upload_transition(UploadState::US_WRITING_CHUNK, 7, &chunk), (UploadState::US_WRITING_CHUNK, 7));
    assert_eq!(upload_transition(UploadState::US_WRITING_END, 7, &UpEvent::EvtTimeOut), (UploadState::US_WRITING_END, 7));
    let other = UpEvent::EvtOther(UpEvtOtherError { reason: 3 });
    assert_eq!(upload_transition(UploadState::US_IDLE, 7, &other), (UploadState::US_IDLE, 7));
}

struct Recorder {
    seen: Vec<String>,
}

impl ProtoProcIntf for Recorder {
    fn recv(&self) -> Result<ProtocolMsgs, RecvError> {
        Err(RecvError)
    }

    fn on_write_file_req(&mut self, handle_id: u32, file_name: String, file_len: u64) -> bool {
        self.seen.push(format!("file {} {} {}", handle_id, file_name, file_len));
        true
    }

    fn on_write_file_resp(&mut self, handle_id: u32, status: u8) -> bool {
        self.seen.push(format!("file resp {} {}", handle_id, status));
        false
    }

    fn on_write_chunk_req(
        &mut self,
        handle_id: u32,
        chunk_id: u32,
        chunk_start: u64,
        chunk_len: u64,
        chunk_data: Vec<u8>,
    ) -> bool {
        self.seen.push(format!("chunk {} {} {} {} {:?}", handle_id, chunk_id, chunk_start, chunk_len, chunk_data));
        false
    }

    fn on_write_chunk_resp(&mut self, handle_id: u32, chunk_id: u32, status: u8) -> bool {
        self.seen.push(format!("chunk resp {} {} {}", handle_id, chunk_id, status));
        status != 0
    }
}

#[test]
fn messages_go_to_their_handlers() {
    let mut r = Recorder { seen: Vec::new() };
    let req = ProtocolMsgs::FileReq(WriteFileReq { handle: 1, file_name: String::from("n"), total_len: 3 });
    assert!(r.dispatch(req));
    let chunk = ProtocolMsgs::ChunkReq(WriteChunkReq { handle: 1, chunkid: 2, start: 0, len: 1, chunk: vec![1] });
    assert!(!r.dispatch(chunk));
    let resp = ProtocolMsgs::FileResp(WriteFileResp { handle: 4, status: 1 });
    assert!(!r.dispatch(resp));
    let chunk_resp = ProtocolMsgs::ChunkResp(WriteChunkResp { handle: 5, chunkid: 6, status: 2 });
    assert!(r.dispatch(chunk_resp));
    assert_eq!(
        r.seen,
        vec![
            String::from("file 1 n 3"),
            String::from("chunk 1 2 0 1 [1]"),
            String::from("file resp 4 1"),
            String::from("chunk resp 5 6 2"),
        ]
    );
    assert!(r.recv().is_err());
}

#[test]
fn file_table_records_a_new_handle_and_refuses_a_reused_one() {
    let mut t: FileTable<&str> = FileTable::new();
    assert!(!t.contains(7));
    let (resp, stop) = t.file_req_step(7, Some("a"));
    assert_eq!(resp, create_file_resp(7, 0));
    assert!(!stop);
    assert!(t.contains(7));
    assert_eq!(t.position(7), Some(0));
    // a reused handle is refused and the first file stays
    let (resp, stop) = t.file_req_step(7, Some("b"));
    assert_eq!(resp, create_file_resp(7, 1));
    assert!(stop);
    assert_eq!(*t.file_at_mut(0), "a");
    // a file that could not be opened is refused and not recorded
    let (resp, stop) = t.file_req_step(8, None);
    assert_eq!(resp, create_file_resp(8, 1));
    assert!(stop);
    assert!(!t.contains(8));
    assert_eq!(t.position(8), None);
}

#[test]
fn file_table_answers_chunks_by_status() {
    let mut t: FileTable<u8> = FileTable::new();
    t.file_req_step(1, Some(0));
    assert_eq!(t.chunk_req_step(2, 5, 0, 10, 4, true, true), (Some(create_chunk_resp(2, 5, 3)), true));
    assert_eq!(t.chunk_req_step(1, 5, 0, 10, 4, false, false), (Some(create_chunk_resp(1, 5, 2)), true));
    assert_eq!(t.chunk_req_step(1, 5, 0, 10, 4, true, false), (Some(create_chunk_resp(1, 5, 1)), true));
    assert_eq!(t.chunk_req_step(1, 5, 0, 10, 4, true, true), (None, false));
    assert_eq!(t.chunk_req_step(1, 5, 6, 10, 4, true, true), (Some(create_chunk_resp(1, 5, 0)), false));
    *t.file_at_mut(0) = 9;
    assert_eq!(*t.file_at_mut(0), 9);
    assert!(t.contains(1));
}
