//! The whole exchange, driven through the library's public surface: two
//! clients handshake, one broadcasts an encrypted frame, the other receives
//! it verbatim and decrypts it with the shared server identity.

use relay_hub::codec::{encode_frame, Decoded, Decoder, Frame, Tag};
use relay_hub::crypto::{open_envelope, seal, Identity};
use relay_hub::relay::Relay;
use relay_hub::session::{session_step, SessionAction, SessionState};
use relay_hub::QUEUE_CAPACITY;
use tokio::sync::mpsc::channel;

fn decode_all(bytes: &[u8]) -> Frame {
    let mut dec = Decoder::new();
    let mut pos: usize = 0;
    loop {
        let n = dec.needed();
        assert!(pos + n <= bytes.len(), "truncated frame");
        let chunk = bytes[pos..pos + n].to_vec();
        pos += n;
        match dec.feed(chunk) {
            Decoded::NeedMore => continue,
            Decoded::Complete(f) => {
                assert_eq!(pos, bytes.len());
                return f;
            }
            Decoded::UnknownTag => panic!("unknown tag"),
        }
    }
}

fn handshake(server: &Identity, client: &Identity) -> (SessionState, Vec<u8>) {
    let pub_frame = Frame {
        tag: Tag::Pub,
        segments: vec![client.pub_der.clone()],
    };
    let (state, action) = session_step(SessionState::AwaitingHandshake, &pub_frame, server);
    assert_eq!(state, SessionState::Relaying);
    let reply = match action {
        SessionAction::Reply(reply) => reply,
        _ => panic!("expected a PRV reply"),
    };
    assert_eq!(reply.tag, Tag::Prv);
    let server_key = open_envelope(&client.priv_der, &reply.segments[0], &reply.segments[1])
        .expect("client unwrap");
    (state, server_key)
}

#[test]
fn two_clients_exchange_a_message() {
    let server = Identity::generate().expect("server keygen");
    let client_a = Identity::generate().expect("client A keygen");
    let client_b = Identity::generate().expect("client B keygen");

    // Both clients handshake and recover the server's private key bytes.
    let (state_a, server_key_a) = handshake(&server, &client_a);
    let (_state_b, server_key_b) = handshake(&server, &client_b);
    assert_eq!(server_key_a, server.priv_der);
    assert_eq!(server_key_b, server.priv_der);

    // Both sessions are registered with the relay.
    let mut relay = Relay::new();
    let (tx_a, mut rx_a) = channel::<Vec<u8>>(QUEUE_CAPACITY);
    let (tx_b, mut rx_b) = channel::<Vec<u8>>(QUEUE_CAPACITY);
    let id_a = relay.register(tx_a);
    let _id_b = relay.register(tx_b);

    // Client A seals a message under the server's public key and sends it
    // as an ENC frame.
    let plaintext = b"meet me at the usual place".to_vec();
    let (wrapped_key, ciphertext) = seal(&server.pub_der, &plaintext).expect("seal");
    let enc_frame = Frame {
        tag: Tag::Enc,
        segments: vec![wrapped_key, ciphertext],
    };
    let (state_a, action) = session_step(state_a, &enc_frame, &server);
    assert_eq!(state_a, SessionState::Relaying);
    let published = match action {
        SessionAction::Publish(bytes) => bytes,
        _ => panic!("expected a publish"),
    };
    assert_eq!(published, encode_frame(&enc_frame));

    // The relay fans the frame out to B and not back to A.
    let (delivered, removed) = relay.publish(id_a, &published);
    assert_eq!(delivered, 1);
    assert!(removed.is_empty());
    assert!(rx_a.try_recv().is_err());
    let received = rx_b.try_recv().expect("client B's frame");
    assert_eq!(received, published);

    // Client B decodes the identical frame and, holding the server's
    // private key from its own handshake, recovers A's plaintext.
    let frame_at_b = decode_all(&received);
    assert_eq!(frame_at_b.tag, Tag::Enc);
    assert_eq!(frame_at_b.segments.len(), 2);
    let recovered = open_envelope(&server_key_b, &frame_at_b.segments[0], &frame_at_b.segments[1])
        .expect("client B decrypt");
    assert_eq!(recovered, plaintext);
}
