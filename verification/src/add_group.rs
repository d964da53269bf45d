//! Upload of the photos of a new group, recorded as a pending group.

use vstd::prelude::*;

use crate::reply::{reply_is, Reply, Status};
use crate::text::{trim, trimmed};
use crate::upload::{is_image_name, UploadBatch, MAX_IMAGES_PER_UPLOAD};

verus! {

/// A pending group: its name and the stored names of its photos.
#[derive(Debug, PartialEq, Eq)]
pub struct PendingTeam {
    pub name: String,
    pub team_photos: Vec<String>,
}

/// The answer to the pre-flight request of a group upload: `200 Ok`.
pub fn upload_cors(_name: &str) -> (r: Reply)
    ensures
        reply_is(r, Status::Success, "Ok"@),
{
    Reply::ok("Ok")
}

/// The pending group that a finished group upload records, and the answer
/// once it is recorded: the `{name}` path segment trimmed, with the stored
/// photo names in upload order; `200 Ok`.
pub fn add_group_api(name: &str, batch: UploadBatch) -> (r: (PendingTeam, Reply))
    ensures
        r.0.name@ == trimmed(name@),
        r.0.team_photos@.map_values(|s: String| s@) == batch.stored_names(),
        r.0.team_photos@.len() <= MAX_IMAGES_PER_UPLOAD,
        forall|i: int|
            0 <= i < r.0.team_photos@.len() ==> is_image_name(#[trigger] r.0.team_photos@[i]@),
        reply_is(r.1, Status::Success, "Ok"@),
{
    let team_photos = batch.finish();
    proof {
        assert forall|i: int|
            0 <= i < team_photos@.len() implies is_image_name(#[trigger] team_photos@[i]@) by {
            assert(team_photos@.map_values(|s: String| s@)[i] == team_photos@[i]@);
        }
    }
    (PendingTeam { name: trim(name), team_photos }, Reply::ok("Ok"))
}

} // verus!
