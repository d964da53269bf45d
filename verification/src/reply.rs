//! The plain-text answers that the handlers give.

use vstd::prelude::*;
use vstd::string::*;

verus! {

/// The HTTP status of an answer.
#[derive(Clone, Copy, Debug, PartialEq, Eq, Structural)]
pub enum Status {
    Success,
    Forbidden,
    InternalServerError,
}

/// An answer with a status and a plain-text body.
#[derive(Debug)]
pub struct Reply {
    pub status: Status,
    pub body: String,
}

/// `r` has status `status` and body `body`.
pub open spec fn reply_is(r: Reply, status: Status, body: Seq<char>) -> bool {
    r.status == status && r.body@ == body
}

impl Reply {
    /// An answer with the given status and body.
    pub fn with_body(status: Status, body: &str) -> (r: Reply)
        ensures
            reply_is(r, status, body@),
    {
        Reply { status, body: String::from_str(body) }
    }

    /// A `200 OK` answer with the given body.
    pub fn ok(body: &str) -> (r: Reply)
        ensures
            reply_is(r, Status::Success, body@),
    {
        Reply::with_body(Status::Success, body)
    }

    /// A `403 Forbidden` answer with the given body.
    pub fn forbidden(body: &str) -> (r: Reply)
        ensures
            reply_is(r, Status::Forbidden, body@),
    {
        Reply::with_body(Status::Forbidden, body)
    }

    /// A `500 Internal Server Error` answer with an empty body.
    pub fn internal_error() -> (r: Reply)
        ensures
            reply_is(r, Status::InternalServerError, Seq::empty()),
    {
        Reply { status: Status::InternalServerError, body: String::new() }
    }
}

/// A lookup's rows, or `500 Internal Server Error` where the lookup failed.
pub fn lookup_reply<T>(rows: Option<T>) -> (r: Result<T, Reply>)
    ensures
        match rows {
            Some(v) => r == Ok::<T, Reply>(v),
            None => r is Err && reply_is(r->Err_0, Status::InternalServerError, Seq::empty()),
        },
{
    match rows {
        Some(v) => Ok(v),
        None => Err(Reply::internal_error()),
    }
}

} // verus!
