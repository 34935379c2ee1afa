//! The schema of the backend's store and the statements the handlers run.

use vstd::prelude::*;

verus! {

/// Creates the `users` table when it is missing.
pub const CREATE_USERS_TABLE: &'static str = "CREATE TABLE IF NOT EXISTS users (
            id            INTEGER PRIMARY KEY AUTOINCREMENT,
            google_id     TEXT    NOT NULL UNIQUE,
            email         TEXT    NOT NULL,
            name          TEXT    NOT NULL UNIQUE,
            password_hash TEXT    NOT NULL DEFAULT '',
            created_at    TEXT    NOT NULL DEFAULT (datetime('now'))
        )";

/// Creates the `user_cameras` table when it is missing.
pub const CREATE_USER_CAMERAS_TABLE: &'static str = "CREATE TABLE IF NOT EXISTS user_cameras (
            id        INTEGER PRIMARY KEY AUTOINCREMENT,
            user_id   INTEGER NOT NULL REFERENCES users(id),
            camera_id TEXT    NOT NULL
        )";

/// Looks up the id, name and password hash of the user with a given name.
pub const SELECT_LOGIN: &'static str = "SELECT id, name, password_hash FROM users WHERE name = ?";

/// Looks up the id of the user with a given name.
pub const SELECT_USER_ID: &'static str = "SELECT id FROM users WHERE name = ?";

/// Stores a new user: Google id, e-mail, name, password hash.
pub const INSERT_USER: &'static str = "INSERT INTO users (google_id, email, name, password_hash) VALUES (?, ?, ?, ?)";

/// Assigns a camera to a user.
pub const INSERT_USER_CAMERA: &'static str = "INSERT INTO user_cameras (user_id, camera_id) VALUES (?, ?)";

/// Lists the camera ids assigned to a user.
pub const SELECT_USER_CAMERAS: &'static str = "SELECT camera_id FROM user_cameras WHERE user_id = ?";

/// The migrations, in the order they run.
pub fn migrations() -> (m: Vec<&'static str>)
    ensures
        m@.len() == 2,
        m@[0] == CREATE_USERS_TABLE,
        m@[1] == CREATE_USER_CAMERAS_TABLE,
{
    let mut m: Vec<&'static str> = Vec::new();
    m.push(CREATE_USERS_TABLE);
    m.push(CREATE_USER_CAMERAS_TABLE);
    m
}

} // verus!
