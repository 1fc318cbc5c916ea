//! The decisions of the file server and the uploading client that speak the framed protocol.
use crate::protocol::{
    chunk_resp_frame, create_chunk_resp, create_file_resp, file_resp_frame, ProtocolMsgs,
};
use std::sync::mpsc::RecvError;
use vstd::prelude::*;

verus! {

/// The status a write-file response carries: 0 when the file was opened and sized, 1 when not.
pub open spec fn file_req_status(failed: bool) -> u8 {
    if failed {
        1
    } else {
        0
    }
}

/// The server's answer to a write-file request under `handle_id`, given whether opening and
/// sizing the file failed (or the handle was already in use).
pub fn file_req_response(handle_id: u32, failed: bool) -> (frame: Vec<u8>)
    ensures
        frame@ == file_resp_frame(handle_id, file_req_status(failed)),
{
    create_file_resp(handle_id, if failed {
        1
    } else {
        0
    })
}

/// The status of writing a chunk: 3 when the handle is unknown, else 2 when seeking failed,
/// else 1 when writing failed, else 0.
pub fn chunk_write_status(handle_found: bool, seek_ok: bool, write_ok: bool) -> (status: u8)
    ensures
        status == chunk_status(handle_found, seek_ok, write_ok),
        !handle_found ==> status == 3,
        handle_found && !seek_ok ==> status == 2,
        handle_found && seek_ok && !write_ok ==> status == 1,
        handle_found && seek_ok && write_ok ==> status == 0,
{
    if !handle_found {
        3
    } else if !seek_ok {
        2
    } else if !write_ok {
        1
    } else {
        0
    }
}

/// The server's answer to a written chunk piece: a write-chunk response when the write failed
/// or the piece reaches `chunk_len`, and whether the server stops serving (on failure).
pub fn chunk_req_response(
    handle_id: u32,
    chunk_id: u32,
    status: u8,
    chunk_start: u64,
    written: u64,
    chunk_len: u64,
) -> (r: (Option<Vec<u8>>, bool))
    requires
        status == 0 ==> chunk_start + written <= u64::MAX,
    ensures
        status == 0 && chunk_start + written >= chunk_len ==> (r.0 matches Some(f) && f@
            == chunk_resp_frame(handle_id, chunk_id, 0)),
        status == 0 && chunk_start + written < chunk_len ==> r.0 is None,
        status != 0 ==> (r.0 matches Some(f) && f@ == chunk_resp_frame(handle_id, chunk_id, status)),
        r.1 == (status != 0),
{
    if status == 0 {
        if chunk_start + written >= chunk_len {
            (Some(create_chunk_resp(handle_id, chunk_id, status)), false)
        } else {
            (None, false)
        }
    } else {
        (Some(create_chunk_resp(handle_id, chunk_id, status)), true)
    }
}

/// The files a server has open, each under the handle that its write-file request named.
pub struct FileTable<F> {
    entries: Vec<(u32, F)>,
}

impl<F> View for FileTable<F> {
    type V = Seq<(u32, F)>;

    closed spec fn view(&self) -> Seq<(u32, F)> {
        self.entries@
    }
}

/// Whether a handle is in use in the entries `t`.
pub open spec fn has_handle<F>(t: Seq<(u32, F)>, h: u32) -> bool {
    exists|i: int| 0 <= i < t.len() && (#[trigger] t[i]).0 == h
}

/// The status of writing a chunk: 3 when the handle is unknown, else 2 when seeking failed,
/// else 1 when writing failed, else 0.
pub open spec fn chunk_status(handle_found: bool, seek_ok: bool, write_ok: bool) -> u8 {
    if !handle_found {
        3
    } else if !seek_ok {
        2
    } else if !write_ok {
        1
    } else {
        0
    }
}

impl<F> FileTable<F> {
    /// No handle is in use twice.
    pub open spec fn wf(&self) -> bool {
        forall|i: int, j: int|
            0 <= i < j < self@.len() ==> (#[trigger] self@[i]).0 != (#[trigger] self@[j]).0
    }

    /// A table with no open file.
    pub fn new() -> (t: Self)
        ensures
            t@ == Seq::<(u32, F)>::empty(),
            t.wf(),
    {
        FileTable { entries: Vec::new() }
    }

    /// Where the file of handle `h` stands in the table, if `h` is in use.
    pub fn position(&self, h: u32) -> (r: Option<usize>)
        ensures
            r matches Some(i) ==> i < self@.len() && self@[i as int].0 == h,
            r is None <==> !has_handle(self@, h),
    {
        let mut i: usize = 0;
        while i < self.entries.len()
            invariant
                i <= self@.len(),
                forall|k: int| 0 <= k < i ==> (#[trigger] self@[k]).0 != h,
            decreases self@.len() - i,
        {
            if self.entries[i].0 == h {
                return Some(i);
            }
            i = i + 1;
        }
        None
    }

    /// Whether handle `h` is in use.
    pub fn contains(&self, h: u32) -> (b: bool)
        ensures
            b == has_handle(self@, h),
    {
        self.position(h).is_some()
    }

    /// The file at position `i`, to read or write it; its handle stays.
    pub fn file_at_mut(&mut self, i: usize) -> (f: &mut F)
        requires
            i < old(self)@.len(),
        ensures
            *f == old(self)@[i as int].1,
            final(self)@ == old(self)@.update(i as int, (old(self)@[i as int].0, *final(f))),
    {
        &mut self.entries[i].1
    }

    /// The server's decision on a write-file request under `handle_id`, given the file that
    /// opening and sizing it gave (`None` when either failed, or when it was not tried because
    /// the handle is in use): the response to send and whether to stop. A handle in use is
    /// refused with status 1 and the table stays as it was; so does a file that could not be
    /// opened or sized; otherwise the file is recorded under the handle and answered with
    /// status 0, and the server goes on.
    pub fn file_req_step(&mut self, handle_id: u32, opened: Option<F>) -> (r: (Vec<u8>, bool))
        requires
            old(self).wf(),
        ensures
            final(self).wf(),
            has_handle(old(self)@, handle_id) ==> final(self)@ == old(self)@ && r.0@
                == file_resp_frame(handle_id, 1) && r.1,
            !has_handle(old(self)@, handle_id) && opened is None ==> final(self)@ == old(self)@
                && r.0@ == file_resp_frame(handle_id, 1) && r.1,
            !has_handle(old(self)@, handle_id) && opened is Some ==> final(self)@ == old(
                self,
            )@.push((handle_id, opened.unwrap())) && r.0@ == file_resp_frame(handle_id, 0)
                && !r.1,
    {
        if self.contains(handle_id) {
            return (file_req_response(handle_id, true), true);
        }
        match opened {
            Some(f) => {
                self.entries.push((handle_id, f));
                (file_req_response(handle_id, false), false)
            },
            None => (file_req_response(handle_id, true), true),
        }
    }

    /// The server's decision on a piece of a chunk for `handle_id`, given whether seeking the
    /// handle's file to `chunk_start` and writing the piece's `data_len` bytes succeeded: with
    /// the status of `chunk_status`, a write-chunk response is sent when the status is not 0
    /// or the piece reaches `chunk_len`, and the server stops exactly when the status is not 0.
    pub fn chunk_req_step(
        &self,
        handle_id: u32,
        chunk_id: u32,
        chunk_start: u64,
        chunk_len: u64,
        data_len: u64,
        seek_ok: bool,
        write_ok: bool,
    ) -> (r: (Option<Vec<u8>>, bool))
        requires
            chunk_status(has_handle(self@, handle_id), seek_ok, write_ok) == 0 ==> chunk_start
                + data_len <= u64::MAX,
        ensures
            ({
                let s = chunk_status(has_handle(self@, handle_id), seek_ok, write_ok);
                &&& !has_handle(self@, handle_id) ==> (r.0 matches Some(f) && f@ == chunk_resp_frame(
                    handle_id,
                    chunk_id,
                    3,
                )) && r.1
                &&& s != 0 ==> (r.0 matches Some(f) && f@ == chunk_resp_frame(
                    handle_id,
                    chunk_id,
                    s,
                ))
                &&& s == 0 && chunk_start + data_len >= chunk_len ==> (r.0 matches Some(f) && f@
                    == chunk_resp_frame(handle_id, chunk_id, 0))
                &&& s == 0 && chunk_start + data_len < chunk_len ==> r.0 is None
                &&& r.1 == (s != 0)
            }),
    {
        let found = self.contains(handle_id);
        let status = chunk_write_status(found, seek_ok, write_ok);
        chunk_req_response(handle_id, chunk_id, status, chunk_start, data_len, chunk_len)
    }
}

/// Where an upload stands.
#[allow(non_camel_case_types)]
#[derive(Clone, Copy, PartialEq, Eq, Structural, Debug)]
pub enum UploadState {
    US_IDLE,
    US_WRITING_H,
    US_WRITING_CHUNK,
    US_WRITING_END,
}

/// A request to upload `file_name`.
pub struct UpEvtStart {
    pub file_name: String,
}

/// The server's answer to the upload's write-file request.
pub struct UpEvtHeaderResp {
    pub handle_id: u32,
    pub status: u8,
}

/// The server's answer to a chunk.
pub struct UpEvtChunkResp {
    pub handle_id: u32,
    pub chunk_id: u32,
    pub start: u64,
    pub len: u64,
    pub status: u8,
}

/// No answer came in time.
pub struct UpEvtTimeout();

/// Another failure, with its reason code.
pub struct UpEvtOtherError {
    pub reason: u8,
}

/// What an uploading client reacts to.
pub enum UpEvent {
    EvtStart(UpEvtStart),
    EvtHeadResp(UpEvtHeaderResp),
    EvtChunkResp(UpEvtChunkResp),
    EvtTimeOut,
    EvtOther(UpEvtOtherError),
}

/// The client's state and handle after `event`, from state `state` and handle `handle_id`.
/// A start (once its write-file request is sent) moves to writing the header; a successful
/// header answer while the header is written clears the handle; nothing else changes.
pub fn upload_transition(state: UploadState, handle_id: u32, event: &UpEvent) -> (r: (
    UploadState,
    u32,
))
    ensures
        event is EvtStart ==> r == (UploadState::US_WRITING_H, handle_id),
        event matches UpEvent::EvtHeadResp(h) ==> r == (if state == UploadState::US_WRITING_H
            && h.status == 0 {
            (state, 0u32)
        } else {
            (state, handle_id)
        }),
        !(event is EvtStart) && !(event is EvtHeadResp) ==> r == (state, handle_id),
{
    match event {
        UpEvent::EvtStart(_) => (UploadState::US_WRITING_H, handle_id),
        UpEvent::EvtHeadResp(h_resp) => {
            if state == UploadState::US_WRITING_H && h_resp.status == 0 {
                (state, 0)
            } else {
                (state, handle_id)
            }
        },
        _ => (state, handle_id),
    }
}

/// A receiver of decoded messages: each kind of message goes to its handler, whose result
/// tells whether to stop. What a handler does is the impl's own relation between the receiver
/// before and after the call, the call's arguments and its answer. The file server's handlers
/// decide by `FileTable::file_req_step` and `FileTable::chunk_req_step`.
pub trait ProtoProcIntf: Sized {
    /// The next decoded message.
    fn recv(&self) -> Result<ProtocolMsgs, RecvError>;

    /// What handling a write-file request under `handle_id` for `file_name` of `file_len` bytes
    /// does: `before` and `after` are the receiver around the call, `stop` its answer. An impl
    /// that does not state it leaves it open.
    open spec fn handled_file_req(
        before: Self,
        after: Self,
        handle_id: u32,
        file_name: Seq<char>,
        file_len: u64,
        stop: bool,
    ) -> bool {
        true
    }

    /// What handling a write-file response does (as above).
    open spec fn handled_file_resp(before: Self, after: Self, handle_id: u32, status: u8, stop: bool)
        -> bool {
        true
    }

    /// What handling a piece of a chunk does (as above).
    open spec fn handled_chunk_req(
        before: Self,
        after: Self,
        handle_id: u32,
        chunk_id: u32,
        chunk_start: u64,
        chunk_len: u64,
        chunk_data: Seq<u8>,
        stop: bool,
    ) -> bool {
        true
    }

    /// What handling a write-chunk response does (as above).
    open spec fn handled_chunk_resp(
        before: Self,
        after: Self,
        handle_id: u32,
        chunk_id: u32,
        status: u8,
        stop: bool,
    ) -> bool {
        true
    }

    /// Hands `msg` to the handler of its kind, with the message's fields, and returns the
    /// handler's result.
    fn dispatch(&mut self, msg: ProtocolMsgs) -> (stop: bool)
        ensures
            msg matches ProtocolMsgs::FileReq(r) ==> Self::handled_file_req(
                *old(self),
                *final(self),
                r.handle,
                r.file_name@,
                r.total_len,
                stop,
            ),
            msg matches ProtocolMsgs::FileResp(r) ==> Self::handled_file_resp(
                *old(self),
                *final(self),
                r.handle,
                r.status,
                stop,
            ),
            msg matches ProtocolMsgs::ChunkReq(r) ==> Self::handled_chunk_req(
                *old(self),
                *final(self),
                r.handle,
                r.chunkid,
                r.start,
                r.len,
                r.chunk@,
                stop,
            ),
            msg matches ProtocolMsgs::ChunkResp(r) ==> Self::handled_chunk_resp(
                *old(self),
                *final(self),
                r.handle,
                r.chunkid,
                r.status,
                stop,
            ),
    {
        match msg {
            ProtocolMsgs::FileReq(file_req) => self.on_write_file_req(
                file_req.handle,
                file_req.file_name,
                file_req.total_len,
            ),
            ProtocolMsgs::FileResp(file_resp) => self.on_write_file_resp(
                file_resp.handle,
                file_resp.status,
            ),
            ProtocolMsgs::ChunkReq(chunk_req) => self.on_write_chunk_req(
                chunk_req.handle,
                chunk_req.chunkid,
                chunk_req.start,
                chunk_req.len,
                chunk_req.chunk,
            ),
            ProtocolMsgs::ChunkResp(chunk_resp) => self.on_write_chunk_resp(
                chunk_resp.handle,
                chunk_resp.chunkid,
                chunk_resp.status,
            ),
        }
    }

    /// Handles a write-file request.
    fn on_write_file_req(&mut self, handle_id: u32, file_name: String, file_len: u64) -> (stop:
        bool)
        ensures
            Self::handled_file_req(*old(self), *final(self), handle_id, file_name@, file_len, stop),
    ;

    /// Handles a write-file response.
    fn on_write_file_resp(&mut self, handle_id: u32, status: u8) -> (stop: bool)
        ensures
            Self::handled_file_resp(*old(self), *final(self), handle_id, status, stop),
    ;

    /// Handles a piece of a chunk.
    fn on_write_chunk_req(
        &mut self,
        handle_id: u32,
        chunk_id: u32,
        chunk_start: u64,
        chunk_len: u64,
        chunk_data: Vec<u8>,
    ) -> (stop: bool)
        ensures
            Self::handled_chunk_req(
                *old(self),
                *final(self),
                handle_id,
                chunk_id,
                chunk_start,
                chunk_len,
                chunk_data@,
                stop,
            ),
    ;

    /// Handles a write-chunk response.
    fn on_write_chunk_resp(&mut self, handle_id: u32, chunk_id: u32, status: u8) -> (stop: bool)
        ensures
            Self::handled_chunk_resp(*old(self), *final(self), handle_id, chunk_id, status, stop),
    ;
}


/// The status of a written chunk piece tells the first thing that went wrong: 3 for a handle
/// the server has no file for, whatever the seek and write flags say (no seek is tried then);
/// else 2 for a failed seek, 1 for a failed write, and 0 only when the handle is known and
/// both succeeded.
pub proof fn law_chunk_status_order(handle_found: bool, seek_ok: bool, write_ok: bool)
    ensures
        !handle_found ==> chunk_status(handle_found, seek_ok, write_ok) == 3,
        handle_found && !seek_ok ==> chunk_status(handle_found, seek_ok, write_ok) == 2,
        handle_found && seek_ok && !write_ok ==> chunk_status(handle_found, seek_ok, write_ok)
            == 1,
        chunk_status(handle_found, seek_ok, write_ok) == 0 <==> (handle_found && seek_ok
            && write_ok),
{
}

} // verus!
