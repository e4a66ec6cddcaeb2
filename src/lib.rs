//! Relay and presence logic for bridging a LAN game's broadcast traffic
//! between players over the internet.

pub mod frame;
pub mod groups;
pub mod member;
pub mod peers;
pub mod presence;
pub mod relay;
pub mod session;
