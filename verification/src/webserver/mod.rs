//! The web server in front of the apps: what it may reach and what it is told.

pub mod acl;
pub mod ols;
pub mod proxysync;
