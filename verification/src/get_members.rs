//! Look-up of the members of a group by the group's ticker.

use vstd::prelude::*;

use crate::reply::{lookup_reply, reply_is, Reply, Status};
use crate::text::{trim, trimmed};

verus! {

/// One member of a group.
#[derive(Debug, PartialEq, Eq)]
pub struct Member {
    pub name: String,
    pub profile_image: String,
}

/// The ticker whose members to look up for the `{ticker}` path segment: the
/// segment trimmed.
pub fn get_members_api(ticker: &str) -> (t: String)
    ensures
        t@ == trimmed(ticker@),
{
    trim(ticker)
}

/// The answer to a member look-up: the members found, in the order the
/// look-up gave them, or `500 Internal Server Error` where it failed.
pub fn members_reply(found: Option<Vec<Member>>) -> (r: Result<Vec<Member>, Reply>)
    ensures
        match found {
            Some(m) => r == Ok::<Vec<Member>, Reply>(m),
            None => r is Err && reply_is(r->Err_0, Status::InternalServerError, Seq::empty()),
        },
{
    lookup_reply(found)
}

} // verus!
