//! Look-up of one group by its ticker.

use vstd::prelude::*;

use crate::reply::{lookup_reply, reply_is, Reply, Status};
use crate::text::{trim, trimmed};

verus! {

/// The name and logo of one group.
#[derive(Debug, PartialEq, Eq)]
pub struct Group {
    pub name: String,
    pub logo: String,
}

/// The ticker to look up for the `{ticker}` path segment: the segment trimmed.
pub fn get_group_api(ticker: &str) -> (t: String)
    ensures
        t@ == trimmed(ticker@),
{
    trim(ticker)
}

/// The answer to a group look-up: the group found, or `500 Internal Server
/// Error` where no single group was found.
pub fn group_reply(found: Option<Group>) -> (r: Result<Group, Reply>)
    ensures
        match found {
            Some(g) => r == Ok::<Group, Reply>(g),
            None => r is Err && reply_is(r->Err_0, Status::InternalServerError, Seq::empty()),
        },
{
    lookup_reply(found)
}

} // verus!
