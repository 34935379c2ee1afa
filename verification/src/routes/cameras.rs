//! Listing the cameras of the signed-in user.

use vstd::prelude::*;
use crate::routes::reply::{bearer_credential, header_bytes, is_error, require_bearer, ApiError, UNAUTHORIZED};

pub use crate::routes::reply::ErrorResponse;

verus! {

/// One camera as the API lists it.
pub struct CameraResponse {
    pub camera_id: String,
    pub status: String,
}

/// The token of a cameras request, or status 401 `Missing or invalid token`.
pub fn cameras_token(header: Option<&[u8]>) -> (r: Result<String, ApiError>)
    ensures
        r is Ok <==> bearer_credential(header_bytes(header)) is Some,
        r matches Ok(t) ==> bearer_credential(header_bytes(header)) == Some(t@),
        r matches Err(e) ==> is_error(e, UNAUTHORIZED, "Missing or invalid token"@),
{
    require_bearer(header, "Missing or invalid token")
}

/// The camera list of a user, from the camera ids stored for the user: each
/// camera, in stored order, reported as `Running`.
pub fn camera_list(camera_ids: Vec<String>) -> (cams: Vec<CameraResponse>)
    ensures
        cams@.len() == camera_ids@.len(),
        forall|i: int|
            0 <= i < cams@.len() ==> (#[trigger] cams@[i]).camera_id@ == camera_ids@[i]@
                && cams@[i].status@ == "Running"@,
{
    let ghost ids = camera_ids@;
    let mut rest = camera_ids;
    let mut cams: Vec<CameraResponse> = Vec::new();
    while rest.len() > 0
        invariant
            cams@.len() + rest@.len() == ids.len(),
            rest@ == ids.skip(cams@.len() as int),
            forall|i: int|
                0 <= i < cams@.len() ==> (#[trigger] cams@[i]).camera_id@ == ids[i]@
                    && cams@[i].status@ == "Running"@,
        decreases rest@.len(),
    {
        let ghost before = rest@;
        let id = rest.remove(0);
        assert(id == ids[cams@.len() as int]) by {
            assert(before[0] == ids.skip(cams@.len() as int)[0]);
        }
        cams.push(CameraResponse { camera_id: id, status: "Running".to_owned() });
        assert(rest@ =~= ids.skip(cams@.len() as int));
    }
    cams
}

} // verus!
