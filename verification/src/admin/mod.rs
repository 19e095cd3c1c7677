//! What an administrator sees and sets for the whole server.

pub mod locale;
pub mod server;
