//! Core of a collaborative editing backend: an in-memory document store of
//! projects and files, and the room registry that tracks who is connected
//! to which document and fans edit events out among them.

pub mod auth;
pub mod chat;
pub mod files;
pub mod history;
pub mod rooms;
pub mod store;
pub mod users;
