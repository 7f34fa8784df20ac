pub mod constants;
pub mod udp;
