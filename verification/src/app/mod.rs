//! An application's life cycle: registering it, launching it, watching it, and
//! taking it down.

pub mod appfile;
pub mod boot;
pub mod commands;
pub mod course;
pub mod job;
pub mod logs;
pub mod start;
pub mod status;
pub mod validate;
