use vstd::prelude::*;

verus! {

/// The library's error: a message describing what went wrong.
#[derive(Debug, Clone)]
pub struct Error {
    pub msg: String,
}

pub type Result<T> = std::result::Result<T, Error>;

/// Relies on std's `format!` with `{}` and `{:?}`: the text starts with `msg`
/// followed by `"; error: "`, then the error's debug rendering.
#[verifier::external_body]
fn describe<E: std::error::Error>(msg: &str, err: &E) -> (r: String)
    ensures
        r@.len() >= msg@.len() + 9,
        r@.subrange(0, msg@.len() as int) == msg@,
        r@.subrange(msg@.len() as int, msg@.len() + 9 as int) == "; error: "@,
{
    format!("{}; error: {:?}", msg, err)
}

impl Error {
    pub fn new(msg: String) -> (r: Self)
        ensures
            r.msg == msg,
    {
        Self { msg }
    }

    pub fn new2(msg: &str) -> (r: Self)
        ensures
            r.msg@ == msg@,
    {
        Self { msg: msg.to_owned() }
    }

    pub fn from<E: std::error::Error>(msg: &str, err: E) -> (r: Self)
        ensures
            r.msg@.len() >= msg@.len() + 9,
            r.msg@.subrange(0, msg@.len() as int) == msg@,
            r.msg@.subrange(msg@.len() as int, msg@.len() + 9 as int) == "; error: "@,
    {
        Self { msg: describe(msg, &err) }
    }
}

} // verus!
