//! A registered user.

use vstd::prelude::*;

verus! {

/// A row of `users`.
pub struct User {
    pub id: i64,
    pub google_id: String,
    pub email: String,
    pub name: String,
}

} // verus!
