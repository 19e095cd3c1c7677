//! What the panel reads from the system around it, and how it answers.

pub mod auth;
pub mod json;
pub mod kv;
pub mod output;
pub mod proc;
pub mod state;
