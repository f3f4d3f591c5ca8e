//! The envelope of every API reply: a status code, a message and the data.

use vstd::prelude::*;

verus! {

/// The port the backend listens on.
pub const PORT: u16 = 3030;

/// Status code of a successful reply.
pub const CODE_OK: usize = 200;

/// Status code of a failed reply.
pub const CODE_ERROR: usize = 400;

/// A greeting.
#[derive(Clone, Debug)]
pub struct Hello {
    pub msg: String,
}

impl Default for Hello {
    fn default() -> (r: Self)
        ensures
            r.msg@ == Seq::<char>::empty(),
    {
        Hello { msg: String::new() }
    }
}

/// No data.
#[derive(Clone, Copy, Debug)]
pub struct Empty;

impl Default for Empty {
    fn default() -> (r: Self) {
        Empty
    }
}

/// A reply: status code, message and data.
#[derive(Debug)]
pub struct Response<T> {
    pub code: usize,
    pub msg: String,
    pub data: T,
}

impl<T> Response<T> {
    /// A reply with the given code, message and data.
    pub fn new(code: usize, msg: &str, data: T) -> (r: Self)
        ensures
            r.code == code,
            r.msg@ == msg@,
            r.data == data,
    {
        Response { code, msg: String::from_str(msg), data }
    }

    /// A successful reply: code 200, message "ok".
    pub fn ok(data: T) -> (r: Self)
        ensures
            r.code == CODE_OK,
            r.msg@ == "ok"@,
            r.data == data,
    {
        Self::new(CODE_OK, "ok", data)
    }

    /// A failed reply: code 400 with the given message.
    pub fn error(msg: &str, data: T) -> (r: Self)
        ensures
            r.code == CODE_ERROR,
            r.msg@ == msg@,
            r.data == data,
    {
        Self::new(CODE_ERROR, msg, data)
    }

    /// A failed reply: code 400, message "error".
    pub fn default_error(data: T) -> (r: Self)
        ensures
            r.code == CODE_ERROR,
            r.msg@ == "error"@,
            r.data == data,
    {
        Self::new(CODE_ERROR, "error", data)
    }
}

impl Response<Empty> {
    /// A failed reply without data: code 400, message "error".
    pub fn err() -> (r: Self)
        ensures
            r.code == CODE_ERROR,
            r.msg@ == "error"@,
    {
        Self::new(CODE_ERROR, "error", Empty::default())
    }
}

} // verus!
