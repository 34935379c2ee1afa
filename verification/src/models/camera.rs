//! A camera assigned to a user.

use vstd::prelude::*;

verus! {

/// A row of `user_cameras`: a camera assigned to a user.
pub struct Camera {
    pub id: i64,
    pub user_id: i64,
    pub camera_id: String,
}

} // verus!
