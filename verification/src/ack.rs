//! What the data services answer where they have little to say: that a
//! thing was done, or that it cannot be done yet.

use vstd::prelude::*;
use vstd::string::StringExecFns;

verus! {

/// The answer to a request that was carried out, or not, with a word on it.
#[derive(Debug, PartialEq, Eq)]
pub struct Ack {
    pub success: bool,
    pub message: String,
}

/// The answer to a request that the service does not serve yet.
#[derive(Debug, PartialEq, Eq)]
pub struct Unimplemented {
    pub message: String,
}

/// A name set between two pieces of text.
pub fn framed(before: &str, name: &str, after: &str) -> (text: String)
    ensures
        text@ == before@ + name@ + after@,
{
    String::from_str(before).concat(name).concat(after)
}

/// Two names, with a dot between them, set between two pieces of text.
pub fn framed_pair(before: &str, first: &str, second: &str, after: &str) -> (text: String)
    ensures
        text@ == before@ + first@ + "."@ + second@ + after@,
{
    String::from_str(before).concat(first).concat(".").concat(second).concat(after)
}

/// An answer that says the request was carried out.
pub fn done(message: String) -> (ack: Ack)
    ensures
        ack.success,
        ack.message == message,
{
    Ack { success: true, message }
}

/// An answer that says the service does not serve the request yet.
pub fn not_yet(message: &str) -> (answer: Unimplemented)
    ensures
        answer.message@ == message@,
{
    Unimplemented { message: String::from_str(message) }
}

} // verus!
