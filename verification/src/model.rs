//! The values the web service answers with and stores.
use vstd::prelude::*;

verus! {

/// An answer's outcome: code 1 for success, 0 for failure, and a message.
#[derive(Debug)]
pub struct Status {
    code: u8,
    msg: String,
}

/// An answer's outcome together with its data.
#[derive(Debug)]
pub struct Response<T> {
    code: u8,
    msg: String,
    data: T,
}

impl Status {
    pub closed spec fn spec_code(&self) -> u8 {
        self.code
    }

    pub closed spec fn spec_msg(&self) -> Seq<char> {
        self.msg@
    }

    /// Success: code 1, message "success".
    pub fn success() -> (s: Self)
        ensures
            s.spec_code() == 1,
            s.spec_msg() == "success"@,
    {
        Self { code: 1, msg: "success".to_owned() }
    }

    /// Failure: code 0, message "fail".
    pub fn fail() -> (s: Self)
        ensures
            s.spec_code() == 0,
            s.spec_msg() == "fail"@,
    {
        Self { code: 0, msg: "fail".to_owned() }
    }

    /// Failure with the message `info`.
    pub fn fail_with_msg(info: String) -> (s: Self)
        ensures
            s.spec_code() == 0,
            s.spec_msg() == info@,
    {
        Self { code: 0, msg: info }
    }

    /// A successful answer that carries `t`: code 1, message "success".
    pub fn data<T>(t: T) -> (r: Response<T>)
        ensures
            r.spec_code() == 1,
            r.spec_msg() == "success"@,
            r.spec_data() == t,
    {
        Response { code: 1, msg: "success".to_owned(), data: t }
    }

    /// The outcome with the given code and message.
    pub fn from_parts(code: u8, msg: String) -> (s: Self)
        ensures
            s.spec_code() == code,
            s.spec_msg() == msg@,
    {
        Self { code, msg }
    }

    /// The code.
    pub fn code(&self) -> (c: u8)
        ensures
            c == self.spec_code(),
    {
        self.code
    }

    /// The message.
    pub fn msg(&self) -> (m: &str)
        ensures
            m@ == self.spec_msg(),
    {
        self.msg.as_str()
    }
}

impl<T> Response<T> {
    pub closed spec fn spec_code(&self) -> u8 {
        self.code
    }

    pub closed spec fn spec_msg(&self) -> Seq<char> {
        self.msg@
    }

    pub closed spec fn spec_data(&self) -> T {
        self.data
    }

    /// The answer with the given code, message and data.
    pub fn from_parts(code: u8, msg: String, data: T) -> (r: Self)
        ensures
            r.spec_code() == code,
            r.spec_msg() == msg@,
            r.spec_data() == data,
    {
        Response { code, msg, data }
    }

    /// The code, the message and the data.
    pub fn into_parts(self) -> (parts: (u8, String, T))
        ensures
            parts.0 == self.spec_code(),
            parts.1@ == self.spec_msg(),
            parts.2 == self.spec_data(),
    {
        (self.code, self.msg, self.data)
    }
}

/// A stored record.
#[derive(Debug)]
pub struct Sector {
    pub id: u32,
    pub title: String,
    pub content: String,
}

/// The notice that a sector's file is ready.
#[derive(Debug)]
pub struct SectorNotifyForm {
    pub filename: String,
    pub sector_id: String,
}

} // verus!
