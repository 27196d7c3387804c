//! Core logic of a small forum-like message server.
//!
//! Users hold anonymous sessions, enter password-protected rooms, and poll
//! rooms for the messages they have not yet received. This crate holds the
//! session store, the session manager and reclaimer, the room access guard,
//! and the incremental-update synchronizer, all with verified contracts.

pub mod admins;
pub mod constraints;
pub mod db;
pub mod handlers;
pub mod messages;
pub mod rooms;
pub mod sessions;
pub mod template_variables;
pub mod users;
