//! Verified core of a camera-monitoring system: the decisions of the backend's
//! HTTP handlers, the MQTT listener and the device's image publisher.

pub mod text;

pub use clock::timestamp;

pub mod clock;
pub mod link;
pub mod device;
pub mod image_publisher;
pub mod models;
pub mod db;
pub mod backend;
pub mod routes;

