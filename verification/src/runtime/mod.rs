//! What an application runs on.
//!
//! * [`kind`] — the runtimes the panel supports and what differs between them.
//! * [`node`] — Node.js versions, and the patterns under which they are found.
//! * [`detect`] — which Node.js installations are safe to execute as root.

pub mod detect;
pub mod kind;
pub mod node;
