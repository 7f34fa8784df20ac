use zumble::clean::{check_client, plan_clean, ClientStatus, ClientVerdict};
use zumble::error::DisconnectReason;

fn healthy(session_id: u32) -> ClientStatus {
    ClientStatus {
        session_id,
        publisher_closed: false,
        secs_since_udp_ping: 0,
        secs_since_tcp_ping: 0,
        millis_since_last_good: 0,
    }
}

#[test]
fn healthy_client_is_kept() {
    assert_eq!(check_client(&healthy(1)), ClientVerdict::Keep);
}

#[test]
fn closed_publisher_disconnects_before_anything_else() {
    let status = ClientStatus {
        publisher_closed: true,
        secs_since_udp_ping: 100,
        secs_since_tcp_ping: 100,
        millis_since_last_good: 100_000,
        ..healthy(1)
    };
    assert_eq!(
        check_client(&status),
        ClientVerdict::Disconnect(DisconnectReason::LostReceivingChannel)
    );
}

#[test]
fn udp_silence_boundary() {
    let at_limit = ClientStatus { secs_since_udp_ping: 30, ..healthy(1) };
    assert_eq!(check_client(&at_limit), ClientVerdict::Keep);
    let over = ClientStatus { secs_since_udp_ping: 31, secs_since_tcp_ping: 50, ..healthy(1) };
    assert_eq!(check_client(&over), ClientVerdict::ResetCrypt { udp_silent: true });
}

#[test]
fn tcp_silence_boundary() {
    let at_limit = ClientStatus { secs_since_tcp_ping: 10, ..healthy(1) };
    assert_eq!(check_client(&at_limit), ClientVerdict::Keep);
    let over = ClientStatus { secs_since_tcp_ping: 11, millis_since_last_good: 9000, ..healthy(1) };
    assert_eq!(
        check_client(&over),
        ClientVerdict::Disconnect(DisconnectReason::ClientTimedOutTcp)
    );
}

#[test]
fn stale_crypt_boundary() {
    let at_limit = ClientStatus { millis_since_last_good: 8000, ..healthy(1) };
    assert_eq!(check_client(&at_limit), ClientVerdict::Keep);
    let over = ClientStatus { millis_since_last_good: 8001, ..healthy(1) };
    assert_eq!(check_client(&over), ClientVerdict::ResetCrypt { udp_silent: false });
}

#[test]
fn queued_disconnects_are_all_carried_out() {
    let queued = vec![
        (7u32, DisconnectReason::Disconnected),
        (8u32, DisconnectReason::ClientMSPCFull),
    ];
    let plan = plan_clean(&queued, &vec![healthy(1)]);
    assert_eq!(plan.disconnect.len(), 2);
    assert_eq!(plan.disconnect.get(&7), Some(&DisconnectReason::Disconnected));
    assert_eq!(plan.disconnect.get(&8), Some(&DisconnectReason::ClientMSPCFull));
    assert!(plan.reset_crypt.is_empty());
    assert_eq!(plan.crypt_resets, 0);
}

#[test]
fn later_queued_entry_wins() {
    let queued = vec![
        (7u32, DisconnectReason::Disconnected),
        (7u32, DisconnectReason::ClientMSPCFull),
    ];
    let plan = plan_clean(&queued, &vec![]);
    assert_eq!(plan.disconnect.len(), 1);
    assert_eq!(plan.disconnect.get(&7), Some(&DisconnectReason::ClientMSPCFull));
}

#[test]
fn client_check_replaces_queued_reason() {
    let queued = vec![(3u32, DisconnectReason::ClientMSPCFull)];
    let clients = vec![ClientStatus { publisher_closed: true, ..healthy(3) }];
    let plan = plan_clean(&queued, &clients);
    assert_eq!(plan.disconnect.len(), 1);
    assert_eq!(plan.disconnect.get(&3), Some(&DisconnectReason::LostReceivingChannel));
}

#[test]
fn queued_reason_stands_for_a_healthy_client() {
    let queued = vec![(3u32, DisconnectReason::ClientMSPCFull)];
    let plan = plan_clean(&queued, &vec![healthy(3)]);
    assert_eq!(plan.disconnect.get(&3), Some(&DisconnectReason::ClientMSPCFull));
}

#[test]
fn mixed_pass() {
    let clients = vec![
        healthy(1),
        ClientStatus { secs_since_udp_ping: 45, ..healthy(2) },
        ClientStatus { secs_since_tcp_ping: 12, ..healthy(3) },
        ClientStatus { millis_since_last_good: 10_000, ..healthy(4) },
        ClientStatus { secs_since_udp_ping: 31, ..healthy(5) },
        ClientStatus { publisher_closed: true, ..healthy(6) },
    ];
    let plan = plan_clean(&vec![], &clients);
    assert_eq!(plan.reset_crypt, vec![1, 3, 4]);
    assert_eq!(plan.crypt_resets, 2);
    assert_eq!(plan.disconnect.len(), 2);
    assert_eq!(plan.disconnect.get(&3), Some(&DisconnectReason::ClientTimedOutTcp));
    assert_eq!(plan.disconnect.get(&6), Some(&DisconnectReason::LostReceivingChannel));
}

#[test]
fn empty_pass_does_nothing() {
    let plan = plan_clean(&vec![], &vec![]);
    assert!(plan.disconnect.is_empty());
    assert!(plan.reset_crypt.is_empty());
    assert_eq!(plan.crypt_resets, 0);
}
