//! Verified core of a Mumble voice server: disconnect reasons, the periodic client-cleaning
//! plan, the routing of voice packets, and the handling of UDP datagrams.

pub mod clean;
pub mod error;
pub mod handler;
pub mod server;
