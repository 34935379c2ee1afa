//! The backend's SQLite store.

pub mod sqlite;
