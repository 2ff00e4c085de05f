use tmbingo::config::MAX_FRAME_LENGTH;
use tmbingo::protocol::{
    auth_code, encode_frame, handshake_end, handshake_reply, handshake_success, split_frame, AuthOutcome, ConnectionState,
    FrameParse, HandshakeCode, InitialClientState,
};
use tmbingo::room::PlayerIdentity;

fn identity(id: &str, name: &str) -> PlayerIdentity {
    PlayerIdentity { account_id: id.to_owned(), display_name: name.to_owned() }
}

#[test]
fn frame_has_little_endian_length_prefix() {
    let payload = br#"{"code":2}"#.to_vec();
    let frame = encode_frame(&payload);
    assert_eq!(&frame[..4], &[10, 0, 0, 0]);
    assert_eq!(&frame[4..], &payload[..]);
    let long = vec![7u8; 300];
    assert_eq!(&encode_frame(&long)[..4], &[44, 1, 0, 0]);
}

#[test]
fn split_frame_round_trip_and_leftover() {
    let mut buf = encode_frame(&b"hello".to_vec());
    buf.extend_from_slice(&[1, 2]);
    match split_frame(&buf, MAX_FRAME_LENGTH) {
        FrameParse::Frame { payload, consumed } => {
            assert_eq!(payload, b"hello".to_vec());
            assert_eq!(consumed, 9);
        }
        other => panic!("unexpected {:?}", other),
    }
}

#[test]
fn split_frame_waits_for_more_bytes() {
    assert!(matches!(split_frame(&vec![5, 0], MAX_FRAME_LENGTH), FrameParse::Incomplete));
    assert!(matches!(split_frame(&vec![5, 0, 0, 0, b'a'], MAX_FRAME_LENGTH), FrameParse::Incomplete));
    assert!(matches!(split_frame(&vec![0, 0, 0, 0], MAX_FRAME_LENGTH), FrameParse::Frame { consumed: 4, .. }));
}

#[test]
fn split_frame_refuses_oversize() {
    let buf = vec![1, 0, 16, 0];
    match split_frame(&buf, MAX_FRAME_LENGTH) {
        FrameParse::TooLong { length } => assert_eq!(length, 1_048_577),
        other => panic!("unexpected {:?}", other),
    }
    assert!(matches!(split_frame(&vec![255, 255, 255, 255], 10), FrameParse::TooLong { length: 4294967295 }));
}

#[test]
fn handshake_codes_for_every_outcome() {
    let codes: Vec<i32> = [
        HandshakeCode::Accepted,
        HandshakeCode::ParseError,
        HandshakeCode::IncompatibleVersion,
        HandshakeCode::AuthFailure,
        HandshakeCode::AuthRefused,
        HandshakeCode::CanReconnect,
    ]
    .iter()
    .map(|c| c.code())
    .collect();
    assert_eq!(codes, vec![0, 1, 2, 3, 4, 5]);
    let known = AuthOutcome::Identified(identity("a", "Alice"));
    assert_eq!(auth_code(&known, false), HandshakeCode::Accepted);
    assert_eq!(auth_code(&known, true), HandshakeCode::CanReconnect);
    assert_eq!(auth_code(&AuthOutcome::Refused("bad token".to_owned()), false), HandshakeCode::AuthRefused);
    assert_eq!(auth_code(&AuthOutcome::Failed("timeout".to_owned()), true), HandshakeCode::AuthFailure);
}

#[test]
fn handshake_responses() {
    let end = handshake_end(HandshakeCode::IncompatibleVersion);
    assert_eq!(end.code.code(), 2);
    assert!(end.username.is_none());
    let ok = handshake_success(&identity("a", "Alice"), true);
    assert_eq!(ok.code, HandshakeCode::CanReconnect);
    assert_eq!(ok.username.as_deref(), Some("Alice"));
    assert_eq!(handshake_success(&identity("a", "Alice"), false).code.code(), 0);
}

#[test]
fn connection_states() {
    assert!(ConnectionState::Closed.can_handshake());
    assert!(!ConnectionState::Connected.can_handshake());
    assert!(ConnectionState::Connected.can_send());
    assert!(!ConnectionState::Connecting.can_send());
    assert!(!ConnectionState::Closing.can_send());
    let s = InitialClientState::new(identity("a", "Alice"), Some("123456".to_owned()));
    assert_eq!(s.identity.account_id, "a");
    assert_eq!(s.player.as_deref(), Some("123456"));
}

#[test]
fn handshake_reply_after_auth() {
    let (who, response) = handshake_reply(AuthOutcome::Identified(identity("a", "Alice")), false);
    assert_eq!(who.unwrap().account_id, "a");
    assert_eq!(response.code.code(), 0);
    assert_eq!(response.username.as_deref(), Some("Alice"));
    let (who, response) = handshake_reply(AuthOutcome::Refused("nope".to_owned()), true);
    assert!(who.is_none());
    assert_eq!((response.code.code(), response.username), (4, None));
    let (_, response) = handshake_reply(AuthOutcome::Failed("down".to_owned()), false);
    assert_eq!(response.code.code(), 3);
}
