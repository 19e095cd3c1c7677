//! Putting the panel in place on a server, taking it away again, and checking
//! that it is whole.

pub mod diagnose;
pub mod setup;
pub mod teardown;
pub mod tree;
pub mod units;
