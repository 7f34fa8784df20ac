use zumble::error::DisconnectReason;
use zumble::handler::voice_packet::{
    channel_recipients, collect_listeners, route_voice, send_outcome, whisper_recipients,
    Candidate, TargetChannel, VoiceRoute,
};

fn cand(session_id: u32, deaf: bool, handle: &'static str) -> Candidate<&'static str> {
    Candidate { session_id, deaf, handle }
}

#[test]
fn muted_sender_is_never_relayed() {
    for target in [0u8, 1, 15, 30, 31, 32, 255] {
        assert_eq!(route_voice(true, true, target), VoiceRoute::Ignore);
    }
}

#[test]
fn non_audio_packet_is_ignored() {
    assert_eq!(route_voice(false, false, 0), VoiceRoute::Ignore);
    assert_eq!(route_voice(false, false, 31), VoiceRoute::Ignore);
}

#[test]
fn targets_route_as_documented() {
    assert_eq!(route_voice(false, true, 0), VoiceRoute::Channel);
    assert_eq!(route_voice(false, true, 1), VoiceRoute::Whisper);
    assert_eq!(route_voice(false, true, 30), VoiceRoute::Whisper);
    assert_eq!(route_voice(false, true, 31), VoiceRoute::Loopback);
    assert_eq!(route_voice(false, true, 32), VoiceRoute::InvalidTarget);
    assert_eq!(route_voice(false, true, 200), VoiceRoute::InvalidTarget);
}

#[test]
fn sender_never_hears_itself() {
    let gathered = vec![(1u32, "a"), (2u32, "b"), (1u32, "c"), (3u32, "d")];
    let listeners = collect_listeners(1, gathered);
    assert_eq!(listeners.len(), 2);
    assert!(!listeners.contains_key(&1));
    assert_eq!(listeners.get(&2), Some(&"b"));
    assert_eq!(listeners.get(&3), Some(&"d"));
}

#[test]
fn each_session_hears_once_with_the_last_handle() {
    let gathered = vec![(5u32, 10u8), (6u32, 11u8), (5u32, 12u8), (5u32, 13u8)];
    let listeners = collect_listeners(9, gathered);
    assert_eq!(listeners.len(), 2);
    assert_eq!(listeners.get(&5), Some(&13));
    assert_eq!(listeners.get(&6), Some(&11));
}

#[test]
fn nobody_gathered_nobody_hears() {
    let listeners = collect_listeners::<u8>(4, vec![]);
    assert!(listeners.is_empty());
}

#[test]
fn only_the_sender_gathered() {
    let listeners = collect_listeners(4, vec![(4u32, ()), (4u32, ())]);
    assert!(listeners.is_empty());
}

#[test]
fn channel_listeners_hear_ordinary_talk() {
    let members = vec![cand(1, false, "sender"), cand(2, false, "m2")];
    let listeners = vec![cand(7, false, "l7"), cand(8, false, "l8")];
    let recipients = channel_recipients(1, members, listeners);
    assert_eq!(recipients.len(), 3);
    assert_eq!(recipients.get(&2), Some(&"m2"));
    assert_eq!(recipients.get(&7), Some(&"l7"));
    assert_eq!(recipients.get(&8), Some(&"l8"));
    assert!(!recipients.contains_key(&1));
}

#[test]
fn deaf_clients_hear_nothing() {
    let members = vec![cand(2, true, "m2"), cand(3, false, "m3")];
    let listeners = vec![cand(4, true, "l4")];
    let recipients = channel_recipients(1, members, listeners);
    assert_eq!(recipients.len(), 1);
    assert_eq!(recipients.get(&3), Some(&"m3"));
}

#[test]
fn member_who_also_listens_hears_once() {
    let members = vec![cand(2, false, "as member")];
    let listeners = vec![cand(2, false, "as listener")];
    let recipients = channel_recipients(1, members, listeners);
    assert_eq!(recipients.len(), 1);
    assert_eq!(recipients.get(&2), Some(&"as listener"));
}

#[test]
fn whisper_reaches_sessions_and_channels() {
    let sessions = vec![cand(5, false, "s5"), cand(1, false, "sender"), cand(6, true, "s6")];
    let channels = vec![
        TargetChannel { listeners: vec![cand(10, false, "l10")], members: vec![cand(11, false, "m11")] },
        TargetChannel { listeners: vec![], members: vec![cand(5, false, "m5"), cand(12, true, "m12")] },
    ];
    let recipients = whisper_recipients(1, sessions, channels);
    assert_eq!(recipients.len(), 3);
    assert_eq!(recipients.get(&5), Some(&"m5"));
    assert_eq!(recipients.get(&10), Some(&"l10"));
    assert_eq!(recipients.get(&11), Some(&"m11"));
}

#[test]
fn empty_whisper_reaches_nobody() {
    let recipients = whisper_recipients::<u8>(1, vec![], vec![]);
    assert!(recipients.is_empty());
}

#[test]
fn full_queue_disconnects() {
    assert_eq!(send_outcome(true), None);
    assert_eq!(send_outcome(false), Some(DisconnectReason::ClientMSPCFull));
}
