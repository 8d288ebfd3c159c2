//! The error that every part of the gateway reports.
use vstd::prelude::*;
use vstd::string::*;

verus! {

/// An error with a message for a person to read.
///
/// There is one kind of error. Its message names the stage that failed; the
/// view of the error is that message.
#[derive(Debug)]
pub struct Error {
    message: String,
}

impl View for Error {
    type V = Seq<char>;

    closed spec fn view(&self) -> Seq<char> {
        self.message@
    }
}

impl Error {
    /// An error that carries `msg`.
    pub fn msg(msg: &str) -> (e: Error)
        ensures
            e@ == msg@,
    {
        err_msg(msg)
    }

    /// The message.
    pub fn message(&self) -> (m: &str)
        ensures
            m@ == self@,
    {
        self.message.as_str()
    }

    /// The message, as an owned string.
    pub fn to_string(&self) -> (m: String)
        ensures
            m@ == self@,
    {
        self.message.clone()
    }
}

/// An error that carries `msg`.
pub fn err_msg(msg: &str) -> (e: Error)
    ensures
        e@ == msg@,
{
    Error { message: String::from_str(msg) }
}

} // verus!
