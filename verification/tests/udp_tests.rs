use zumble::error::DecryptError;
use zumble::server::constants::{MAX_BANDWIDTH_IN_BITS, MAX_CLIENTS, UDP_SOCKET_BUFFER_SIZE};
use zumble::server::udp::{
    classify_datagram, ping_response, session_packet_action, should_restart_crypt, Datagram,
    InvalidPacket, SessionPacketAction,
};

#[test]
fn constants_have_their_values() {
    assert_eq!(MAX_CLIENTS, 4096);
    assert_eq!(MAX_BANDWIDTH_IN_BITS, 144_000);
    assert_eq!(UDP_SOCKET_BUFFER_SIZE, 8 * 1024 * 1024);
}

#[test]
fn too_short_datagrams_are_invalid() {
    assert_eq!(classify_datagram(&[]), Err(InvalidPacket));
    assert_eq!(classify_datagram(&[0]), Err(InvalidPacket));
    assert_eq!(classify_datagram(&[0, 0]), Ok(Datagram::Voice));
}

#[test]
fn server_ping_is_recognised() {
    let data = [0u8, 0, 0, 0, 1, 2, 3, 4, 5, 6, 7, 8];
    assert_eq!(
        classify_datagram(&data),
        Ok(Datagram::ServerPing { timestamp: [1, 2, 3, 4, 5, 6, 7, 8] })
    );
    // only the three high bits of the first byte give the kind
    let low_bits = [0x1fu8, 0xff, 0xff, 0xff, 9, 9, 9, 9, 9, 9, 9, 9];
    assert_eq!(
        classify_datagram(&low_bits),
        Ok(Datagram::ServerPing { timestamp: [9; 8] })
    );
}

#[test]
fn other_kinds_or_lengths_are_voice() {
    let kind_one = [0x20u8, 0, 0, 0, 1, 2, 3, 4, 5, 6, 7, 8];
    assert_eq!(classify_datagram(&kind_one), Ok(Datagram::Voice));
    let thirteen = [0u8; 13];
    assert_eq!(classify_datagram(&thirteen), Ok(Datagram::Voice));
    let eleven = [0u8; 11];
    assert_eq!(classify_datagram(&eleven), Ok(Datagram::Voice));
}

#[test]
fn ping_response_layout() {
    let timestamp = [0xde, 0xad, 0xbe, 0xef, 0x01, 0x02, 0x03, 0x04];
    let response = ping_response(0x0001_0204, &timestamp, 37);
    assert_eq!(
        response,
        vec![
            0x00, 0x01, 0x02, 0x04, // protocol version
            0xde, 0xad, 0xbe, 0xef, 0x01, 0x02, 0x03, 0x04, // timestamp, unchanged
            0x00, 0x00, 0x00, 0x25, // users
            0x00, 0x00, 0x10, 0x00, // max users: 4096
            0x00, 0x02, 0x32, 0x80, // bandwidth: 144000
        ]
    );
}

#[test]
fn ping_echoes_the_request_timestamp() {
    let request = [0u8, 0, 0, 0, 11, 22, 33, 44, 55, 66, 77, 88];
    let timestamp = match classify_datagram(&request) {
        Ok(Datagram::ServerPing { timestamp }) => timestamp,
        other => panic!("unexpected {:?}", other),
    };
    let response = ping_response(u32::MAX, &timestamp, 0);
    assert_eq!(response.len(), 24);
    assert_eq!(&response[4..12], &request[4..12]);
    assert_eq!(&response[0..4], &[0xff, 0xff, 0xff, 0xff]);
}

#[test]
fn late_packets_reset_only_past_the_limit() {
    assert!(!should_restart_crypt(&DecryptError::Late, 100, 0));
    assert!(should_restart_crypt(&DecryptError::Late, 101, 0));
}

#[test]
fn repeats_reset_only_when_stale() {
    assert!(!should_restart_crypt(&DecryptError::Repeat, 1000, 5));
    assert!(should_restart_crypt(&DecryptError::Repeat, 0, 6));
}

#[test]
fn other_failures_always_reset() {
    assert!(should_restart_crypt(&DecryptError::Mac, 0, 0));
    assert!(should_restart_crypt(&DecryptError::Eof, 0, 0));
    let io = DecryptError::Io(std::io::Error::new(std::io::ErrorKind::Other, "x"));
    assert!(should_restart_crypt(&io, 0, 0));
}

#[test]
fn decrypted_pings_are_echoed_and_the_rest_routed() {
    assert_eq!(session_packet_action(true), SessionPacketAction::EchoPing);
    assert_eq!(session_packet_action(false), SessionPacketAction::Route);
}
