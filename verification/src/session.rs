//! The per-connection session state machine.
//!
//! A session starts in `AwaitingHandshake`. The first accepted frame must be
//! a `PUB` carrying the client's public key: the server replies with a `PRV`
//! frame (the wrapped credential and the wrapped identity) and the session
//! moves to `Relaying`, where every `ENC` frame is handed verbatim to the
//! broadcast relay. Any other frame is reported and dropped without closing
//! the connection; only a handshake cryptography failure closes it.

use vstd::prelude::*;

use crate::codec::{Frame, Tag};
use crate::crypto::{rsa_pub_parses, sealed_for, Identity};

verus! {

/// The protocol state of one connection.
#[derive(Clone, Copy, PartialEq, Eq, Structural, Debug)]
pub enum SessionState {
    /// No `PUB` frame has been accepted yet; only the handshake may proceed.
    AwaitingHandshake,
    /// The handshake is complete; `ENC` frames are relayed.
    Relaying,
}

/// What the connection task must do with the frame it just read.
pub enum SessionAction {
    /// Write this frame back to this session's own socket.
    Reply(Frame),
    /// Hand these bytes to the relay for fan-out to every other session.
    Publish(Vec<u8>),
    /// Drop the frame and keep the connection open.
    Ignore,
    /// Terminate this connection.
    Close,
}

/// Advances a session by one received frame.
///
/// In `AwaitingHandshake`, a `PUB` frame yields the `PRV` reply and moves the
/// session to `Relaying`; every other tag is ignored and the state is kept.
/// In `Relaying`, an `ENC` frame is re-encoded byte-for-byte and published;
/// every other tag is ignored. A handshake whose cryptography fails (or whose
/// reply would not fit the framing's 32-bit length prefixes) closes the
/// connection and does not change the state; in particular a `PUB` whose
/// payload does not parse as a public key never draws a reply and never
/// reaches `Relaying`.
pub fn session_step(state: SessionState, frame: &Frame, identity: &Identity) -> (r: (
    SessionState,
    SessionAction,
))
    requires
        frame.wf(),
    ensures
        state is AwaitingHandshake && !(frame.tag is Pub) ==> r == (
            state,
            SessionAction::Ignore,
        ),
        state is AwaitingHandshake && frame.tag is Pub ==> ({
            ||| (r.0 is Relaying && (r.1 matches SessionAction::Reply(pf) && pf.wf()
                && pf.tag is Prv && pf.segs().len() == 2 && rsa_pub_parses(frame.segs()[0])
                && sealed_for(
                frame.segs()[0],
                pf.segs()[0],
                pf.segs()[1],
                identity.priv_der@,
            )))
            ||| (r.0 is AwaitingHandshake && r.1 is Close)
        }),
        state is AwaitingHandshake && frame.tag is Pub && !rsa_pub_parses(frame.segs()[0]) ==> r
            == (SessionState::AwaitingHandshake, SessionAction::Close),
        state is Relaying && frame.tag is Enc ==> r.0 is Relaying && (
        r.1 matches SessionAction::Publish(bytes) && bytes@ == frame.bytes()),
        state is Relaying && !(frame.tag is Enc) ==> r == (state, SessionAction::Ignore),
{
    match state {
        SessionState::AwaitingHandshake => {
            match frame.tag {
                Tag::Pub => {
                    let client_pub: &Vec<u8> = &frame.segments[0];
                    match identity.issue_credential(client_pub) {
                        Ok((wrapped_credential, wrapped_identity)) => {
                            if wrapped_credential.len() > (u32::MAX as usize)
                                || wrapped_identity.len() > (u32::MAX as usize) {
                                return (SessionState::AwaitingHandshake, SessionAction::Close);
                            }
                            let ghost wc = wrapped_credential@;
                            let ghost wi = wrapped_identity@;
                            let mut segments: Vec<Vec<u8>> = Vec::new();
                            segments.push(wrapped_credential);
                            segments.push(wrapped_identity);
                            let reply = Frame { tag: Tag::Prv, segments };
                            proof {
                                assert(reply.segs() =~~= seq![wc, wi]);
                                assert(client_pub@ == frame.segs()[0]);
                            }
                            (SessionState::Relaying, SessionAction::Reply(reply))
                        },
                        Err(_) => (SessionState::AwaitingHandshake, SessionAction::Close),
                    }
                },
                _ => (state, SessionAction::Ignore),
            }
        },
        SessionState::Relaying => {
            match frame.tag {
                Tag::Enc => {
                    let bytes = crate::codec::encode_frame(frame);
                    (SessionState::Relaying, SessionAction::Publish(bytes))
                },
                _ => (state, SessionAction::Ignore),
            }
        },
    }
}

} // verus!
