//! The records the backend stores and reads.

pub mod camera;
pub mod event;
pub mod user;
