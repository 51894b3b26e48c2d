//! Maildir naming, flag and keyword rules, configuration resolution and the
//! decision logic of the JMAP ↔ Maildir synchronisation daemon.

pub mod args;
pub mod config;
pub mod maildir;
pub mod text;
pub mod db;
