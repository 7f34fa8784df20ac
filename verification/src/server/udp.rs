use byteorder::ByteOrder;
use vstd::prelude::*;

use crate::error::DecryptError;
use crate::server::constants::{MAX_BANDWIDTH_IN_BITS, MAX_CLIENTS};

verus! {

/// Length of the server-list ping a client sends outside any session.
pub const SERVER_PING_LEN: usize = 12;

/// Length of the answer to a server-list ping.
pub const SERVER_PING_RESPONSE_LEN: usize = 24;

/// More late packets than this, in a row of decrypt failures, reset the crypt state.
pub const MAX_LATE_PACKETS: u32 = 100;

/// Seconds without a good packet after which a decrypt failure resets the crypt state.
pub const MAX_SECS_WITHOUT_GOOD_PACKET: u64 = 5;

/// The packet kind, held in the three high bits of a datagram's first byte.
pub open spec fn packet_kind(first: u8) -> u8 {
    (first >> 5u8) & 7u8
}

/// A datagram too short to hold anything.
#[derive(Debug, Clone, Copy, PartialEq, Eq, Structural)]
pub struct InvalidPacket;

/// What an incoming UDP datagram is.
#[derive(Debug, Clone, Copy, PartialEq, Eq)]
pub enum Datagram {
    /// A server-list ping: a four-byte zero marker, then eight bytes chosen by the caller
    /// that are echoed back unchanged.
    ServerPing { timestamp: [u8; 8] },
    /// Anything else: an encrypted voice or ping packet of a session.
    Voice,
}

/// Classifies an incoming datagram (`data` holds exactly the bytes received).
pub fn classify_datagram(data: &[u8]) -> (r: Result<Datagram, InvalidPacket>)
    ensures
        r is Err <==> data.len() <= 1,
        r matches Ok(Datagram::ServerPing { .. }) <==> (data.len() == SERVER_PING_LEN
            && packet_kind(data@[0]) == 0),
        r matches Ok(Datagram::ServerPing { timestamp }) ==> timestamp@ == data@.subrange(4, 12),
        // a server-list ping is twelve bytes whose first byte has its three high bits clear
        r matches Ok(Datagram::ServerPing { .. }) <==> (data.len() == 12 && data@[0] < 32),
        r matches Ok(Datagram::Voice) <==> (data.len() > 1 && !(data.len() == 12 && data@[0] < 32)),
{
    proof {
        if data.len() > 0 {
            lemma_ping_kind_is_low_first_byte(data@[0]);
        }
    }
    if data.len() <= 1 {
        return Err(InvalidPacket);
    }
    let kind = (data[0] >> 5u8) & 7u8;
    if kind == 0 && data.len() == SERVER_PING_LEN {
        let timestamp: [u8; 8] = [
            data[4],
            data[5],
            data[6],
            data[7],
            data[8],
            data[9],
            data[10],
            data[11],
        ];
        assert(timestamp@ =~= data@.subrange(4, 12));
        Ok(Datagram::ServerPing { timestamp })
    } else {
        Ok(Datagram::Voice)
    }
}

/// The four bytes of `n`, most significant first.
pub open spec fn be_bytes(n: u32) -> Seq<u8> {
    seq![
        (n / 0x1000000) as u8,
        (n / 0x10000 % 0x100) as u8,
        (n / 0x100 % 0x100) as u8,
        (n % 0x100) as u8,
    ]
}

/// Calls `byteorder::BigEndian::write_u32` on the four bytes of `buf` from `pos`: they
/// become the bytes of `n`, most significant first; the rest of `buf` is unchanged.
#[verifier::external_body]
fn put_u32_be(buf: &mut Vec<u8>, pos: usize, n: u32)
    requires
        pos + 4 <= old(buf).len(),
    ensures
        final(buf)@ == old(buf)@.take(pos as int) + be_bytes(n) + old(buf)@.skip(pos + 4),
{
    byteorder::BigEndian::write_u32(&mut buf[pos..pos + 4], n);
}

/// The answer to a server-list ping.
pub open spec fn spec_ping_response(protocol_version: u32, timestamp: Seq<u8>, user_count: u32) -> Seq<u8> {
    be_bytes(protocol_version) + timestamp + be_bytes(user_count) + be_bytes(
        MAX_CLIENTS as u32,
    ) + be_bytes(MAX_BANDWIDTH_IN_BITS)
}

/// Builds the answer to a server-list ping: the server's protocol version, the caller's
/// eight bytes unchanged, the number of connected users, the most users the server takes
/// and the bandwidth allowed per user, each number as four big-endian bytes.
pub fn ping_response(protocol_version: u32, timestamp: &[u8; 8], user_count: u32) -> (r: Vec<u8>)
    ensures
        r@ == spec_ping_response(protocol_version, timestamp@, user_count),
        r.len() == SERVER_PING_RESPONSE_LEN,
        r@.subrange(4, 12) == timestamp@,
        // each field, read back as a big-endian number, is what was given
        r@[0] * 0x1000000 + r@[1] * 0x10000 + r@[2] * 0x100 + r@[3] == protocol_version,
        r@[12] * 0x1000000 + r@[13] * 0x10000 + r@[14] * 0x100 + r@[15] == user_count,
        r@[16] * 0x1000000 + r@[17] * 0x10000 + r@[18] * 0x100 + r@[19] == 4096,
        r@[20] * 0x1000000 + r@[21] * 0x10000 + r@[22] * 0x100 + r@[23] == 144000,
        forall|i: int| 0 <= i < 8 ==> r@[4 + i] == timestamp@[i],
{
    proof {
        lemma_ping_response_fields(protocol_version, timestamp@, user_count);
    }
    let mut send: Vec<u8> = vec![0u8; 24];
    put_u32_be(&mut send, 0, protocol_version);
    let mut k: usize = 0;
    while k < 8
        invariant
            k <= 8,
            send.len() == 24,
            send@.take(4) == be_bytes(protocol_version),
            send@.subrange(4, 4 + k as int) == timestamp@.take(k as int),
        decreases 8 - k,
    {
        let ghost before = send@;
        send.set(4 + k, timestamp[k]);
        assert(send@.take(4) =~= before.take(4));
        assert(send@.subrange(4, 4 + k + 1) =~= timestamp@.take(k + 1));
        k = k + 1;
    }
    assert(timestamp@.take(8) =~= timestamp@);
    let ghost head = send@.take(12);
    assert(head =~= send@.take(4) + send@.subrange(4, 12));
    assert(head =~= be_bytes(protocol_version) + timestamp@);
    put_u32_be(&mut send, 12, user_count);
    assert(send@.take(12) =~= head);
    put_u32_be(&mut send, 16, MAX_CLIENTS as u32);
    put_u32_be(&mut send, 20, MAX_BANDWIDTH_IN_BITS);
    assert(send@ =~= spec_ping_response(protocol_version, timestamp@, user_count));
    send
}

/// Whether a decrypt failure of a kind is enough, by itself, to reset the crypt state:
/// a late packet when too many came late, never a repeated packet, any other failure always.
pub open spec fn failure_resets(error: DecryptError, late: u32) -> bool {
    match error {
        DecryptError::Late => late > MAX_LATE_PACKETS,
        DecryptError::Repeat => false,
        _ => true,
    }
}

/// Decides whether a client's crypt state is reset after a datagram of it failed to decrypt,
/// given how many of its packets came late and the seconds since its last good packet.
pub fn should_restart_crypt(error: &DecryptError, late: u32, secs_since_last_good: u64) -> (r: bool)
    ensures
        r == (failure_resets(*error, late) || secs_since_last_good > MAX_SECS_WITHOUT_GOOD_PACKET),
        // any failure but a late or a repeated packet resets
        !(*error is Late) && !(*error is Repeat) ==> r,
        *error is Late ==> (r <==> (late > 100 || secs_since_last_good > 5)),
        *error is Repeat ==> (r <==> secs_since_last_good > 5),
{
    proof {
        lemma_restart_rules(*error, late, secs_since_last_good);
    }
    let by_kind = match error {
        DecryptError::Late => late > MAX_LATE_PACKETS,
        DecryptError::Repeat => false,
        _ => true,
    };
    by_kind || secs_since_last_good > MAX_SECS_WITHOUT_GOOD_PACKET
}

/// What is done with a packet of a session once it decrypted.
#[derive(Debug, Clone, Copy, PartialEq, Eq, Structural)]
pub enum SessionPacketAction {
    /// A voice ping: sent back, encrypted, to its client, whose last UDP ping is then now.
    EchoPing,
    /// Anything else: queued to be routed to the sender's listeners; when that queue is
    /// full, the sender is queued for disconnection (see `send_outcome`).
    Route,
}

/// Decides what is done with a decrypted packet of a session.
pub fn session_packet_action(is_ping: bool) -> (action: SessionPacketAction)
    ensures
        action == (if is_ping {
            SessionPacketAction::EchoPing
        } else {
            SessionPacketAction::Route
        }),
{
    if is_ping {
        SessionPacketAction::EchoPing
    } else {
        SessionPacketAction::Route
    }
}

/// The packet kind of a byte is the kind of a server-list ping exactly when the byte is
/// below 32, its three high bits clear.
pub proof fn lemma_ping_kind_is_low_first_byte(first: u8)
    ensures
        packet_kind(first) == 0 <==> first < 32,
{
    assert(((first >> 5u8) & 7u8) == 0 <==> first < 32) by (bit_vector);
}

/// Four bytes made from a number read back, most significant first, as that number.
pub proof fn lemma_be_bytes_value(n: u32)
    ensures
        be_bytes(n).len() == 4,
        be_bytes(n)[0] * 0x1000000 + be_bytes(n)[1] * 0x10000 + be_bytes(n)[2] * 0x100
            + be_bytes(n)[3] == n,
{
    let b = be_bytes(n);
    assert(b[0] == (n / 0x1000000) as u8);
    assert(b[1] == (n / 0x10000 % 0x100) as u8);
    assert(b[2] == (n / 0x100 % 0x100) as u8);
    assert(b[3] == (n % 0x100) as u8);
    assert(((n / 0x1000000) as u8) as int * 0x1000000 + ((n / 0x10000 % 0x100) as u8) as int
        * 0x10000 + ((n / 0x100 % 0x100) as u8) as int * 0x100 + ((n % 0x100) as u8) as int
        == n as int) by (bit_vector);
}

/// The answer to a server-list ping holds, in order, the protocol version, the caller's
/// eight bytes, the user count, 4096 and 144000, each number in four big-endian bytes.
pub proof fn lemma_ping_response_fields(protocol_version: u32, timestamp: Seq<u8>, user_count: u32)
    requires
        timestamp.len() == 8,
    ensures
        ({
            let r = spec_ping_response(protocol_version, timestamp, user_count);
            &&& r.len() == 24
            &&& r[0] * 0x1000000 + r[1] * 0x10000 + r[2] * 0x100 + r[3] == protocol_version
            &&& forall|i: int| 0 <= i < 8 ==> r[4 + i] == timestamp[i]
            &&& r[12] * 0x1000000 + r[13] * 0x10000 + r[14] * 0x100 + r[15] == user_count
            &&& r[16] * 0x1000000 + r[17] * 0x10000 + r[18] * 0x100 + r[19] == 4096
            &&& r[20] * 0x1000000 + r[21] * 0x10000 + r[22] * 0x100 + r[23] == 144000
        }),
{
    let r = spec_ping_response(protocol_version, timestamp, user_count);
    let v = be_bytes(protocol_version);
    let u = be_bytes(user_count);
    let m = be_bytes(MAX_CLIENTS as u32);
    let w = be_bytes(MAX_BANDWIDTH_IN_BITS);
    lemma_be_bytes_value(protocol_version);
    lemma_be_bytes_value(user_count);
    lemma_be_bytes_value(MAX_CLIENTS as u32);
    lemma_be_bytes_value(MAX_BANDWIDTH_IN_BITS);
    assert(r =~= v + timestamp + u + m + w);
    assert forall|k: int| 0 <= k < 4 implies r[k] == v[k] && r[12 + k] == u[k] && r[16 + k]
        == m[k] && r[20 + k] == w[k] by {}
}

/// A decrypt failure resets the crypt state exactly when: it is neither a late nor a
/// repeated packet; or it is a late packet after more than 100 late ones; or the last good
/// packet is more than 5 seconds old.
pub proof fn lemma_restart_rules(error: DecryptError, late: u32, secs_since_last_good: u64)
    ensures
        (failure_resets(error, late) || secs_since_last_good > MAX_SECS_WITHOUT_GOOD_PACKET) <==> (
        (!(error is Late) && !(error is Repeat)) || (error is Late && late > 100)
            || secs_since_last_good > 5),
{
}

/// A server-list ping is answered with its caller's eight bytes, at the same place and
/// unchanged, whatever the version and user count.
pub proof fn lemma_ping_timestamp_echoed(data: Seq<u8>, protocol_version: u32, user_count: u32)
    requires
        data.len() == SERVER_PING_LEN,
    ensures
        spec_ping_response(protocol_version, data.subrange(4, 12), user_count).subrange(4, 12)
            == data.subrange(4, 12),
        spec_ping_response(protocol_version, data.subrange(4, 12), user_count).len()
            == SERVER_PING_RESPONSE_LEN,
{
    let r = spec_ping_response(protocol_version, data.subrange(4, 12), user_count);
    assert(r.subrange(4, 12) =~= data.subrange(4, 12));
}

} // verus!
