//! Upload of images by a signed-in user; the answer lists the stored names.

use vstd::prelude::*;

use crate::reply::{reply_is, Reply, Status};
use crate::upload::UploadBatch;

verus! {

/// The answer to the pre-flight request of an image upload: `200 Ok`.
pub fn upload_cors2() -> (r: Reply)
    ensures
        reply_is(r, Status::Success, "Ok"@),
{
    Reply::ok("Ok")
}

/// Starts an image upload: refused with `403 Access Denied` for anyone not
/// signed in, and otherwise an upload with no field admitted yet.
pub fn add_image_api(signed_in: bool) -> (r: Result<UploadBatch, Reply>)
    ensures
        r is Ok <==> signed_in,
        r matches Ok(b) ==> b.admitted_count() == 0 && b.stored_names() == Seq::<Seq<char>>::empty(),
        r matches Err(e) ==> reply_is(e, Status::Forbidden, "Access Denied"@),
{
    if !signed_in {
        return Err(Reply::forbidden("Access Denied"));
    }
    Ok(UploadBatch::new())
}

} // verus!
