//! An image event as the backend stores it.

use vstd::prelude::*;

verus! {

/// An image event: the device, when, the image's URL and its bucket.
pub struct ImageEvent {
    pub device_id: String,
    pub timestamp: String,
    pub image_url: String,
    pub bucket: String,
}

} // verus!
