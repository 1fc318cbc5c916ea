//! The rules of the plain transfer connection: what opens an upload or a removal, how a
//! receiver buffers what it reads, and when a failed transfer is tried again.
use crate::file_info::{header_bytes, FileInfo, FileInfoView, MAX_NAME_BYTES};
use vstd::prelude::*;
use vstd::string::StringSliceAdditionalSpecFns;
use vstd::utf8::encode_utf8;

verus! {

/// What the byte after the header asks of the receiver.
#[derive(Clone, Copy, PartialEq, Eq, Structural, Debug)]
pub enum TransferAction {
    /// Store the file's bytes that follow.
    Upload,
    /// Remove the file's directory.
    Remove,
}

impl TransferAction {
    pub open spec fn spec_byte(self) -> u8 {
        match self {
            TransferAction::Upload => 0,
            TransferAction::Remove => 1,
        }
    }

    /// The byte that asks for the action.
    pub fn byte(&self) -> (b: u8)
        ensures
            b == self.spec_byte(),
    {
        match self {
            TransferAction::Upload => 0,
            TransferAction::Remove => 1,
        }
    }

    /// The action a received byte asks for: 1 asks for removal, any other byte for an upload.
    pub open spec fn spec_from_byte(b: u8) -> TransferAction {
        if b == 1 {
            TransferAction::Remove
        } else {
            TransferAction::Upload
        }
    }

    /// The action a received byte asks for.
    pub fn from_byte(b: u8) -> (a: TransferAction)
        ensures
            a == TransferAction::spec_from_byte(b),
    {
        if b == 1 {
            TransferAction::Remove
        } else {
            TransferAction::Upload
        }
    }
}

/// The length a removal request announces for the file.
pub const REMOVE_FILE_LEN: u64 = 32;

/// The bytes that open an upload of `info`: its header, then the upload byte.
pub fn upload_request(info: &FileInfo) -> (out: Vec<u8>)
    requires
        encode_utf8(info@.file_name).len() <= MAX_NAME_BYTES,
    ensures
        out@ == header_bytes(info@).push(0),
{
    let mut out = info.to_vec();
    out.push(TransferAction::Upload.byte());
    out
}

/// The bytes that ask the receiver to remove `file_name`: the header of a 32-byte file of
/// that name, then the removal byte.
pub fn remove_request(file_name: String) -> (out: Vec<u8>)
    requires
        encode_utf8(file_name@).len() <= MAX_NAME_BYTES,
    ensures
        out@ == header_bytes(FileInfoView { file_len: REMOVE_FILE_LEN, file_name: file_name@ }).push(
            1,
        ),
{
    let info = FileInfo::new(REMOVE_FILE_LEN, file_name);
    let mut out = info.to_vec();
    out.push(TransferAction::Remove.byte());
    out
}

/// Failed uploads are tried again up to this many attempts.
pub const MAX_ATTEMPTS: u32 = 10;

/// The next attempt after a failed upload attempt numbered `retry`, with the seconds to
/// wait before it: attempt `n` waits `2^n` seconds, and there is none from the tenth on.
pub open spec fn spec_upload_retry(retry: u32) -> Option<(u32, u64)> {
    if retry + 1 < MAX_ATTEMPTS {
        Some(((retry + 1) as u32, 1u64 << (retry + 1) as u64))
    } else {
        None
    }
}

/// After a failed upload attempt numbered `retry` (0 for the first), the next attempt's
/// number and the seconds to wait before it, or `None` when no attempt is left. The wait
/// doubles with each attempt.
pub fn upload_retry(retry: u32) -> (next: Option<(u32, u64)>)
    requires
        retry < u32::MAX,
    ensures
        next == spec_upload_retry(retry),
{
    let attempt: u32 = retry + 1;
    if attempt < MAX_ATTEMPTS {
        Some((attempt, 1u64 << attempt as u64))
    } else {
        None
    }
}

/// Seconds to wait before a removal is tried again.
pub const REMOVE_RETRY_SECS: u64 = 30;

/// After a failed removal attempt numbered `retry`, the next attempt's number and the
/// seconds to wait before it, or `None` when no attempt is left.
pub fn remove_retry(retry: u32) -> (next: Option<(u32, u64)>)
    ensures
        retry < MAX_ATTEMPTS ==> next == Some(((retry + 1) as u32, REMOVE_RETRY_SECS)),
        retry >= MAX_ATTEMPTS ==> next is None,
{
    if retry < MAX_ATTEMPTS {
        Some((retry + 1, REMOVE_RETRY_SECS))
    } else {
        None
    }
}

/// What the receiver does with a read.
#[derive(Clone, Copy, PartialEq, Eq, Structural, Debug)]
pub enum ReceiveAction {
    /// The bytes stay in the buffer.
    Buffered,
    /// The buffer is full: write its `len` bytes to the file and start over.
    Flush { len: usize },
    /// The sender is done: write the `len` buffered bytes; `complete` tells whether the
    /// file got as many bytes as its header announced.
    Finish { len: usize, complete: bool },
}

/// The bytes an action writes to the file.
pub open spec fn written_by(action: ReceiveAction) -> nat {
    match action {
        ReceiveAction::Buffered => 0,
        ReceiveAction::Flush { len } => len as nat,
        ReceiveAction::Finish { len, .. } => len as nat,
    }
}

/// A receiver's buffer of `capacity` bytes, of which `offset` are filled, and the bytes
/// `received` so far of a file announced as `expected` bytes long.
pub struct ReceiveProgress {
    pub offset: usize,
    pub received: u64,
    pub capacity: usize,
    pub expected: u64,
}

impl ReceiveProgress {
    /// A receiver with an empty buffer of `capacity` bytes for a file of `expected` bytes.
    pub fn new(capacity: usize, expected: u64) -> (p: Self)
        ensures
            p == (ReceiveProgress { offset: 0, received: 0, capacity, expected }),
    {
        ReceiveProgress { offset: 0, received: 0, capacity, expected }
    }

    /// Accounts for a read of `n` bytes into the free part of the buffer (0 when the sender
    /// closed the connection).
    pub fn on_read(&mut self, n: usize) -> (action: ReceiveAction)
        requires
            old(self).offset + n <= old(self).capacity,
            old(self).received + n <= u64::MAX,
        ensures
            final(self).capacity == old(self).capacity,
            final(self).expected == old(self).expected,
            final(self).received == old(self).received + n,
            n > 0 ==> written_by(action) + final(self).offset == old(self).offset + n,
            n == 0 ==> written_by(action) == old(self).offset,
            n == 0 ==> action == (ReceiveAction::Finish {
                len: old(self).offset,
                complete: old(self).received == old(self).expected,
            }) && final(self).offset == old(self).offset,
            n > 0 && old(self).offset + n < old(self).capacity ==> action == ReceiveAction::Buffered
                && final(self).offset == old(self).offset + n,
            n > 0 && old(self).offset + n == old(self).capacity ==> action == (ReceiveAction::Flush {
                len: old(self).capacity,
            }) && final(self).offset == 0,
    {
        self.received = self.received + n as u64;
        if n == 0 {
            ReceiveAction::Finish { len: self.offset, complete: self.received == self.expected }
        } else if self.offset + n < self.capacity {
            self.offset = self.offset + n;
            ReceiveAction::Buffered
        } else {
            let len: usize = self.offset + n;
            self.offset = 0;
            ReceiveAction::Flush { len }
        }
    }
}

/// The milliseconds to pause after each write when no setting is given or it is no number.
pub const DEFAULT_LIMIT_SLEEP_MS: u64 = 5;

/// The decimal value of a string of digits.
pub open spec fn decimal_value(digits: Seq<char>) -> int
    decreases digits.len(),
{
    if digits.len() == 0 {
        0
    } else {
        decimal_value(digits.drop_last()) * 10 + (digits.last() as int - '0' as int)
    }
}

/// What `str::parse::<u64>` accepts: an optional `+` followed by one or more ASCII digits
/// whose value fits in a `u64`.
pub open spec fn parsed_u64(s: Seq<char>) -> Option<u64> {
    let digits = if s.len() > 0 && s[0] == '+' {
        s.drop_first()
    } else {
        s
    };
    if digits.len() > 0 && (forall|i: int| 0 <= i < digits.len() ==> '0' <= #[trigger] digits[i]
        <= '9') && decimal_value(digits) <= u64::MAX {
        Some(decimal_value(digits) as u64)
    } else {
        None
    }
}

/// `str::parse::<u64>`, with `None` for an error.
#[verifier::external_body]
fn parse_u64(s: &str) -> (r: Option<u64>)
    ensures
        r == parsed_u64(s@),
{
    s.parse::<u64>().ok()
}

/// The pause after each write, from the setting's text if there is one: its number when it
/// is one, else 5 milliseconds.
pub fn limit_sleep_ms(setting: Option<&str>) -> (ms: u64)
    ensures
        ms == match setting {
            Some(s) => match parsed_u64(s@) {
                Some(v) => v,
                None => DEFAULT_LIMIT_SLEEP_MS,
            },
            None => DEFAULT_LIMIT_SLEEP_MS,
        },
{
    match setting {
        Some(s) => match parse_u64(s) {
            Some(v) => v,
            None => DEFAULT_LIMIT_SLEEP_MS,
        },
        None => DEFAULT_LIMIT_SLEEP_MS,
    }
}

/// The byte of an action is read back as that action.
pub proof fn law_action_byte_roundtrip(a: TransferAction)
    ensures
        TransferAction::spec_from_byte(a.spec_byte()) == a,
{
}

/// Each further upload attempt waits twice as long as the one before, starting at two
/// seconds, and there are nine of them.
pub proof fn law_upload_retry_doubles(retry: u32)
    requires
        retry + 2 < MAX_ATTEMPTS,
    ensures
        spec_upload_retry(0) == Some((1u32, 2u64)),
        spec_upload_retry(retry) matches Some((n, d)) && spec_upload_retry((retry + 1) as u32)
            matches Some((m, e)) && m == n + 1 && e == 2 * d,
        spec_upload_retry(8) is Some,
        spec_upload_retry(9) is None,
{
    let n: u64 = (retry + 1) as u64;
    assert(1u64 << 1u64 == 2u64) by (bit_vector);
    assert(n < 63 ==> (1u64 << (n + 1) as u64) == 2 * (1u64 << n)) by (bit_vector);
}


/// The bytes of the directory component `/cache/`.
pub open spec fn cache_dir_marker() -> Seq<u8> {
    seq![47u8, 99u8, 97u8, 99u8, 104u8, 101u8, 47u8]
}

/// Whether the path text `p` (its UTF-8 bytes) holds `/cache/`.
pub open spec fn has_cache_dir(p: Seq<u8>) -> bool {
    exists|i: int| 0 <= i && i + 7 <= p.len() && #[trigger] p.subrange(i, i + 7) == cache_dir_marker()
}

/// Whether the path `path` goes through a `cache` directory: a retry then looks for the file
/// under the worker's `cache` directory.
pub fn in_cache_dir(path: &str) -> (b: bool)
    ensures
        b == has_cache_dir(path.spec_bytes()),
{
    let bytes = path.as_bytes();
    let n: usize = bytes.len();
    if n < 7 {
        return false;
    }
    let mut i: usize = 0;
    while i <= n - 7
        invariant
            n == bytes@.len(),
            n >= 7,
            i <= n - 6,
            bytes@ == path.spec_bytes(),
            forall|k: int| 0 <= k < i ==> #[trigger] bytes@.subrange(k, k + 7) != cache_dir_marker(),
        decreases n - i,
    {
        if bytes[i] == 47 && bytes[i + 1] == 99 && bytes[i + 2] == 97 && bytes[i + 3] == 99
            && bytes[i + 4] == 104 && bytes[i + 5] == 101 && bytes[i + 6] == 47 {
            assert(bytes@.subrange(i as int, i + 7) =~= cache_dir_marker());
            return true;
        }
        assert(bytes@.subrange(i as int, i + 7)[0] == bytes@[i as int]);
        assert(bytes@.subrange(i as int, i + 7) != cache_dir_marker()) by {
            let w = bytes@.subrange(i as int, i + 7);
            if w == cache_dir_marker() {
                assert(w[1] == bytes@[i + 1]);
                assert(w[2] == bytes@[i + 2]);
                assert(w[3] == bytes@[i + 3]);
                assert(w[4] == bytes@[i + 4]);
                assert(w[5] == bytes@[i + 5]);
                assert(w[6] == bytes@[i + 6]);
            }
        }
        i = i + 1;
    }
    false
}


/// A path goes through a `cache` directory when the bytes of `/cache/` occur anywhere in it:
/// at any position `i` that leaves room for them.
pub proof fn law_cache_dir_anywhere(p: Seq<u8>, i: int)
    requires
        0 <= i,
        i + 7 <= p.len(),
        p.subrange(i, i + 7) == seq![47u8, 99u8, 97u8, 99u8, 104u8, 101u8, 47u8],
    ensures
        has_cache_dir(p),
{
    assert(p.subrange(i, i + 7) == cache_dir_marker());
}

/// A path in which the bytes of `/cache/` occur nowhere does not go through a `cache`
/// directory.
pub proof fn law_no_cache_dir(p: Seq<u8>)
    requires
        forall|i: int|
            0 <= i && i + 7 <= p.len() ==> #[trigger] p.subrange(i, i + 7) != seq![
                47u8,
                99u8,
                97u8,
                99u8,
                104u8,
                101u8,
                47u8,
            ],
    ensures
        !has_cache_dir(p),
{
}

} // verus!
