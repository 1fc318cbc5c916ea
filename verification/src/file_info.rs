//! The header that opens every upload or removal on the transfer connection.
use crate::protocol::zeros;
use crate::text::{lossy_text, string_from_utf8_lossy};
use crate::wire::{
    be_bytes_u32, be_bytes_u64, be_u32, be_u64, lemma_be_u32_roundtrip, lemma_be_u64_roundtrip,
    push_be_u32, push_be_u64, push_bytes, read_be_u32, read_be_u64,
};
use vstd::prelude::*;
use vstd::utf8::encode_utf8;

verus! {

/// Bytes of a header.
pub const HEADER_LEN: usize = 1024;

/// Offset of the file name in a header.
pub const NAME_OFFSET: usize = 12;

/// Room for the file name's bytes in a header.
pub const MAX_NAME_BYTES: usize = 1012;

/// A file's length and its name relative to the receiver's root.
#[derive(Clone, PartialEq, Eq, Debug)]
pub struct FileInfo {
    file_len: u64,
    file_name: String,
}

/// A header's content as a mathematical value.
pub struct FileInfoView {
    pub file_len: u64,
    pub file_name: Seq<char>,
}

impl View for FileInfo {
    type V = FileInfoView;

    closed spec fn view(&self) -> FileInfoView {
        FileInfoView { file_len: self.file_len, file_name: self.file_name@ }
    }
}

/// The header of `info`: the length (u64, big-endian), the name's byte count (u32,
/// big-endian), the name's UTF-8 bytes, and zeros up to 1024 bytes.
pub open spec fn header_bytes(info: FileInfoView) -> Seq<u8> {
    let name = encode_utf8(info.file_name);
    be_bytes_u64(info.file_len) + be_bytes_u32(name.len() as u32) + name + zeros(
        (MAX_NAME_BYTES - name.len()) as nat,
    )
}

/// The number of name bytes that a header announces.
pub open spec fn header_name_len(buf: Seq<u8>) -> nat {
    be_u32(buf.subrange(8, 12)) as nat
}

/// What a received header holds: its length field, and its name bytes read as lossy UTF-8.
pub open spec fn header_info(buf: Seq<u8>) -> FileInfoView {
    FileInfoView {
        file_len: be_u64(buf),
        file_name: lossy_text(buf.subrange(12, 12 + header_name_len(buf) as int)),
    }
}

impl FileInfo {
    /// The header content for a file of `file_len` bytes named `file_name`.
    pub fn new(file_len: u64, file_name: String) -> (info: Self)
        ensures
            info@ == (FileInfoView { file_len, file_name: file_name@ }),
    {
        FileInfo { file_len, file_name }
    }

    /// The file's length.
    pub fn file_len(&self) -> (n: u64)
        ensures
            n == self@.file_len,
    {
        self.file_len
    }

    /// The file's name.
    pub fn file_name(&self) -> (name: &str)
        ensures
            name@ == self@.file_name,
    {
        self.file_name.as_str()
    }

    /// The 1024-byte header. The name must fit in the 1012 bytes after the two counts.
    pub fn to_vec(&self) -> (out: Vec<u8>)
        requires
            encode_utf8(self@.file_name).len() <= MAX_NAME_BYTES,
        ensures
            out@ == header_bytes(self@),
            out@.len() == HEADER_LEN,
    {
        let name: &[u8] = self.file_name.as_str().as_bytes();
        let mut out: Vec<u8> = Vec::new();
        push_be_u64(&mut out, self.file_len);
        push_be_u32(&mut out, name.len() as u32);
        push_bytes(&mut out, name);
        let ghost head = out@;
        let unused: usize = MAX_NAME_BYTES - name.len();
        let mut i: usize = 0;
        while i < unused
            invariant
                i <= unused,
                out@ == head + zeros(i as nat),
            decreases unused - i,
        {
            out.push(0u8);
            i = i + 1;
            assert(out@ == head + zeros(i as nat));
        }
        proof {
            lemma_be_u64_roundtrip(self.file_len);
            lemma_be_u32_roundtrip(name.len() as u32);
        }
        out
    }

    /// Whether `buf` holds the name bytes that its byte count at offset 8 announces, so that
    /// `from_bytes` can read it.
    pub fn header_fits(buf: &[u8]) -> (b: bool)
        requires
            buf@.len() >= NAME_OFFSET,
        ensures
            b == (NAME_OFFSET + header_name_len(buf@) <= buf@.len()),
    {
        let counts = vstd::slice::slice_subrange(buf, 8, NAME_OFFSET);
        let name_len: u32 = read_be_u32(counts);
        assert(counts@ =~= buf@.subrange(8, 12));
        let total: usize = buf.len();
        (name_len as usize) <= total - NAME_OFFSET
    }

    /// Reads a received header: the length from its first eight bytes, the name from the
    /// byte count at offset 8 and the bytes at offset 12. Invalid UTF-8 in the name is
    /// replaced, as `String::from_utf8_lossy` does.
    pub fn from_bytes(buf: &[u8]) -> (info: Self)
        requires
            buf@.len() >= NAME_OFFSET,
            NAME_OFFSET + header_name_len(buf@) <= buf@.len(),
        ensures
            info@ == header_info(buf@),
    {
        let file_len: u64 = read_be_u64(buf);
        let counts = vstd::slice::slice_subrange(buf, 8, NAME_OFFSET);
        let name_len: u32 = read_be_u32(counts);
        assert(counts@ =~= buf@.subrange(8, 12));
        assert(name_len as nat == header_name_len(buf@));
        let total: usize = buf.len();
        assert(NAME_OFFSET + name_len <= total);
        let end: usize = NAME_OFFSET + name_len as usize;
        let name_bytes = vstd::slice::slice_subrange(buf, NAME_OFFSET, end);
        let file_name = string_from_utf8_lossy(name_bytes);
        FileInfo { file_len, file_name }
    }
}

/// Reading the header of `info` gives `info` back.
pub proof fn law_header_roundtrip(info: FileInfoView)
    requires
        encode_utf8(info.file_name).len() <= MAX_NAME_BYTES,
    ensures
        header_bytes(info).len() == HEADER_LEN,
        NAME_OFFSET + header_name_len(header_bytes(info)) <= HEADER_LEN,
        header_info(header_bytes(info)) == info,
{
    broadcast use {vstd::utf8::encode_utf8_valid_utf8, vstd::utf8::encode_utf8_decode_utf8};

    let name = encode_utf8(info.file_name);
    let buf = header_bytes(info);
    lemma_be_u64_roundtrip(info.file_len);
    lemma_be_u32_roundtrip(name.len() as u32);
    assert(buf.subrange(8, 12) =~= be_bytes_u32(name.len() as u32));
    assert(buf.subrange(12, 12 + name.len() as int) =~= name);
    assert(buf[0] == be_bytes_u64(info.file_len)[0] && buf[1] == be_bytes_u64(info.file_len)[1]
        && buf[2] == be_bytes_u64(info.file_len)[2] && buf[3] == be_bytes_u64(info.file_len)[3]
        && buf[4] == be_bytes_u64(info.file_len)[4] && buf[5] == be_bytes_u64(info.file_len)[5]
        && buf[6] == be_bytes_u64(info.file_len)[6] && buf[7] == be_bytes_u64(info.file_len)[7]);
}

} // verus!
