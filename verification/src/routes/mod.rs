//! The decisions of the backend's HTTP handlers and of its MQTT listener.

pub mod auth;
pub mod cameras;
pub mod commands;
pub mod mqtt_listener;
pub mod images;
pub mod events;
pub mod reply;
