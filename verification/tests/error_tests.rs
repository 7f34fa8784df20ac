use zumble::error::{DecryptError, DisconnectReason};

const ALL: [DisconnectReason; 4] = [
    DisconnectReason::Disconnected,
    DisconnectReason::ClientTimedOutTcp,
    DisconnectReason::LostReceivingChannel,
    DisconnectReason::ClientMSPCFull,
];

#[test]
fn as_str_gives_each_reason_text() {
    assert_eq!(DisconnectReason::Disconnected.as_str(), "Client disconnected");
    assert_eq!(
        DisconnectReason::ClientTimedOutTcp.as_str(),
        "Client stopped responding to TCP pings"
    );
    assert_eq!(
        DisconnectReason::LostReceivingChannel.as_str(),
        "Clients receiving channel got removed"
    );
    assert_eq!(DisconnectReason::ClientMSPCFull.as_str(), "Client Message Channel Full");
}

#[test]
fn to_string_matches_as_str() {
    for reason in ALL {
        assert_eq!(reason.to_string(), reason.as_str());
    }
}

#[test]
fn reason_labels_are_distinct() {
    for (i, a) in ALL.iter().enumerate() {
        for (j, b) in ALL.iter().enumerate() {
            if i != j {
                assert_ne!(a.as_str(), b.as_str());
            }
        }
    }
}

#[test]
fn decrypt_error_carries_io_error() {
    let err = DecryptError::Io(std::io::Error::new(std::io::ErrorKind::Other, "boom"));
    assert!(matches!(err, DecryptError::Io(_)));
    assert!(matches!(DecryptError::Eof, DecryptError::Eof));
}
