//! What an app may use and reach: memory, other apps, the network.

pub mod netguard;
pub mod policy;
pub mod sandbox;
pub mod usage;
