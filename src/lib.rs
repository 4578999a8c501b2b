//! Daily notes: one note per user and calendar date, user accounts with
//! rotating session tokens, and whole-dataset backup and restore.

pub mod backup;
pub mod date;
pub mod error;
pub mod identity;
pub mod handlers;
pub mod notes;
pub mod snapshot;
