use relay_hub::codec::{encode_frame, Frame, Tag};
use relay_hub::crypto::{open_envelope, Identity};
use relay_hub::session::{session_step, SessionAction, SessionState};

#[test]
fn enc_before_handshake_is_ignored() {
    let server = Identity::generate().expect("keygen");
    let frame = Frame {
        tag: Tag::Enc,
        segments: vec![vec![1u8, 2], vec![3u8]],
    };
    let (state, action) = session_step(SessionState::AwaitingHandshake, &frame, &server);
    assert_eq!(state, SessionState::AwaitingHandshake);
    assert!(matches!(action, SessionAction::Ignore));
}

#[test]
fn prv_before_handshake_is_ignored() {
    let server = Identity::generate().expect("keygen");
    let frame = Frame {
        tag: Tag::Prv,
        segments: vec![vec![1u8], vec![2u8]],
    };
    let (state, action) = session_step(SessionState::AwaitingHandshake, &frame, &server);
    assert_eq!(state, SessionState::AwaitingHandshake);
    assert!(matches!(action, SessionAction::Ignore));
}

#[test]
fn handshake_replies_with_openable_credential() {
    let server = Identity::generate().expect("keygen");
    let client = Identity::generate().expect("keygen");
    let pub_frame = Frame {
        tag: Tag::Pub,
        segments: vec![client.pub_der.clone()],
    };
    let (state, action) = session_step(SessionState::AwaitingHandshake, &pub_frame, &server);
    assert_eq!(state, SessionState::Relaying);
    match action {
        SessionAction::Reply(reply) => {
            assert_eq!(reply.tag, Tag::Prv);
            assert_eq!(reply.segments.len(), 2);
            let recovered =
                open_envelope(&client.priv_der, &reply.segments[0], &reply.segments[1])
                    .expect("client unwrap");
            assert_eq!(recovered, server.priv_der);
        }
        _ => panic!("expected a PRV reply"),
    }
}

#[test]
fn handshake_with_malformed_key_closes() {
    let server = Identity::generate().expect("keygen");
    let pub_frame = Frame {
        tag: Tag::Pub,
        segments: vec![vec![0u8, 1, 2]],
    };
    let (state, action) = session_step(SessionState::AwaitingHandshake, &pub_frame, &server);
    assert_eq!(state, SessionState::AwaitingHandshake);
    assert!(matches!(action, SessionAction::Close));
}

#[test]
fn relaying_publishes_enc_verbatim() {
    let server = Identity::generate().expect("keygen");
    let frame = Frame {
        tag: Tag::Enc,
        segments: vec![vec![7u8; 16], vec![9u8; 32]],
    };
    let expected = encode_frame(&frame);
    let (state, action) = session_step(SessionState::Relaying, &frame, &server);
    assert_eq!(state, SessionState::Relaying);
    match action {
        SessionAction::Publish(bytes) => assert_eq!(bytes, expected),
        _ => panic!("expected a publish"),
    }
}

#[test]
fn second_pub_is_ignored() {
    let server = Identity::generate().expect("keygen");
    let client = Identity::generate().expect("keygen");
    let pub_frame = Frame {
        tag: Tag::Pub,
        segments: vec![client.pub_der.clone()],
    };
    let (state, action) = session_step(SessionState::Relaying, &pub_frame, &server);
    assert_eq!(state, SessionState::Relaying);
    assert!(matches!(action, SessionAction::Ignore));
}
