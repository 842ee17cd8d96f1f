//! Classroom roster, contact-book and session logic of the song-class
//! classroom server: who is connected on which seat, roster saves, tasks,
//! the contact book published to LINE, and the database schema versions.
pub mod api;
pub mod line_sync;
pub mod roster;
pub mod roster_save;
pub mod schema;
pub mod server;
pub mod sessions;
pub mod tasks;
pub mod text;
