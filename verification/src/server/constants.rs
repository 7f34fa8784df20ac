use vstd::prelude::*;

verus! {

/// The number of clients the server can hold.
pub const MAX_CLIENTS: usize = 4096;

/// The bandwidth, in bits, that a client may use (as FiveM allows at most).
pub const MAX_BANDWIDTH_IN_BITS: u32 = 144_000;

/// Size, in bytes, asked for the UDP socket's kernel receive and send buffers, so that
/// bursts of voice traffic queue in the kernel instead of being dropped.
pub const UDP_SOCKET_BUFFER_SIZE: usize = 8 * 1024 * 1024;

} // verus!
