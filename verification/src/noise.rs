//! The Noise handshake, as far as the relay takes part in it.
use vstd::prelude::*;

use crate::collections;
use crate::error::EdgeError;

verus! {

/// The state of a handshake.
#[verifier::external_type_specification]
#[verifier::external_body]
pub struct ExHandshakeState(snow::HandshakeState);

/// The state with which a responder begins, or why there is none: what `Builder`
/// makes of a pattern, a prologue and a private key.
pub uninterp spec fn noise_started(
    pattern: Seq<char>,
    prologue: Seq<u8>,
    private_key: Seq<u8>,
) -> Result<snow::HandshakeState, snow::Error>;

/// What `HandshakeState::read_message` makes of a message, with room for so many
/// bytes: the payload, or why there is none, and the state afterwards.
pub uninterp spec fn noise_read(state: snow::HandshakeState, message: Seq<u8>, room: nat) -> (
    Result<Seq<u8>, snow::Error>,
    snow::HandshakeState,
);

/// What `HandshakeState::write_message` makes of a payload, with room for so many
/// bytes: the message, or why there is none, and the state afterwards. `drawn` is
/// the randomness of the ephemeral key, where one is drawn.
pub uninterp spec fn noise_written(
    state: snow::HandshakeState,
    drawn: Option<Seq<u8>>,
    payload: Seq<u8>,
    room: nat,
) -> (Result<Seq<u8>, snow::Error>, snow::HandshakeState);

/// The handshake hash of a state.
pub uninterp spec fn noise_hash(state: snow::HandshakeState) -> Seq<u8>;

/// The other end's static key, once it is known.
pub uninterp spec fn noise_remote_key(state: snow::HandshakeState) -> Option<Seq<u8>>;

/// `Builder::build_responder`, after `NoiseParams::from_str`, `Builder::prologue`
/// and `Builder::local_private_key`. It depends on its arguments alone.
#[verifier::external_body]
fn build_responder(pattern: &str, prologue: &[u8], private_key: &[u8; 32]) -> (r: Result<
    snow::HandshakeState,
    snow::Error,
>)
    ensures
        r == noise_started(pattern@, prologue@, private_key@),
{
    snow::Builder::new(pattern.parse()?)
        .prologue(prologue)?
        .local_private_key(private_key)?
        .build_responder()
}

/// The payload, or why there is none.
pub open spec fn payload_view(r: Result<Vec<u8>, snow::Error>) -> Result<Seq<u8>, snow::Error> {
    match r {
        Ok(payload) => Ok(payload@),
        Err(error) => Err(error),
    }
}

/// `HandshakeState::read_message` into a buffer of `room` bytes. It draws no random
/// numbers, so that it depends on the state and the message alone.
#[verifier::external_body]
fn read_message(state: &mut snow::HandshakeState, message: &[u8], room: usize) -> (r: Result<Vec<u8>, snow::Error>)
    requires
        room <= 65_536,
    ensures
        (payload_view(r), *final(state)) == noise_read(*old(state), message@, room as nat),
{
    let mut payload = vec![0_u8; room];
    let len = state.read_message(message, &mut payload)?;
    payload.truncate(len);
    Ok(payload)
}

/// `HandshakeState::write_message` into a buffer of `room` bytes. A message holds at
/// least its payload and at most the buffer. The message and the state afterwards
/// depend on the state, the payload, the room and the randomness of an ephemeral key
/// that the call may draw; which randomness that is, is left open.
#[verifier::external_body]
fn write_message(state: &mut snow::HandshakeState, payload: &[u8], room: usize) -> (r: Result<Vec<u8>, snow::Error>)
    requires
        256 <= room <= 65_536,
    ensures
        r matches Ok(message) ==> payload@.len() <= message@.len() <= room,
        exists|drawn: Option<Seq<u8>>|
            #[trigger] noise_written(*old(state), drawn, payload@, room as nat) == (payload_view(r), *final(state)),
{
    let mut message = vec![0_u8; room];
    let len = state.write_message(payload, &mut message)?;
    message.truncate(len);
    Ok(message)
}

/// `HandshakeState::get_handshake_hash`.
#[verifier::external_body]
pub(crate) fn handshake_hash(state: &snow::HandshakeState) -> (r: Vec<u8>)
    ensures
        r@ == noise_hash(*state),
{
    state.get_handshake_hash().to_vec()
}

/// `HandshakeState::get_remote_static`.
#[verifier::external_body]
pub(crate) fn remote_static(state: &snow::HandshakeState) -> (r: Option<Vec<u8>>)
    ensures
        collections::option_view(r) == noise_remote_key(*state),
{
    state.get_remote_static().map(|key| key.to_vec())
}

/// The room for a handshake message and for its payload.
pub const NOISE_ROOM: usize = 4096;

/// The start of a handshake, or why it fails.
pub open spec fn responder_started(private_key: Seq<u8>) -> Result<snow::HandshakeState, EdgeError> {
    match noise_started(
        "Noise_XX_25519_ChaChaPoly_SHA256"@,
        vstd::utf8::encode_utf8("easytier-peerconn-noise"@),
        private_key,
    ) {
        Ok(state) => Ok(state),
        Err(error) => Err(EdgeError::Noise(error)),
    }
}

/// The payload of a handshake message, or why there is none, and the state
/// afterwards.
pub open spec fn message_read(state: snow::HandshakeState, message: Seq<u8>) -> (
    Result<Seq<u8>, EdgeError>,
    snow::HandshakeState,
) {
    let read = noise_read(state, message, NOISE_ROOM as nat);
    (
        match read.0 {
            Ok(payload) => Ok(payload),
            Err(error) => Err(EdgeError::Noise(error)),
        },
        read.1,
    )
}

/// Begins a handshake as the responder.
pub fn start_responder(private_key: &[u8; 32]) -> (r: Result<snow::HandshakeState, EdgeError>)
    ensures
        r == responder_started(private_key@),
{
    match build_responder(
        "Noise_XX_25519_ChaChaPoly_SHA256",
        "easytier-peerconn-noise".as_bytes(),
        private_key,
    ) {
        Ok(state) => Ok(state),
        Err(error) => Err(EdgeError::Noise(error)),
    }
}

/// Reads a handshake message.
pub fn read_handshake(state: &mut snow::HandshakeState, message: &[u8]) -> (r: Result<Vec<u8>, EdgeError>)
    ensures
        (crate::traffic::text_view(r), *final(state)) == message_read(*old(state), message@),
{
    match read_message(state, message, NOISE_ROOM) {
        Ok(payload) => Ok(payload),
        Err(error) => Err(EdgeError::Noise(error)),
    }
}

/// The message for a payload, or why there is none, and the state afterwards, for the
/// randomness that was drawn on the way.
pub open spec fn message_written(state: snow::HandshakeState, drawn: Option<Seq<u8>>, payload: Seq<u8>) -> (
    Result<Seq<u8>, EdgeError>,
    snow::HandshakeState,
) {
    let written = noise_written(state, drawn, payload, NOISE_ROOM as nat);
    (
        match written.0 {
            Ok(message) => Ok(message),
            Err(error) => Err(EdgeError::Noise(error)),
        },
        written.1,
    )
}

/// Writes a handshake message.
pub fn write_handshake(state: &mut snow::HandshakeState, payload: &[u8]) -> (r: Result<Vec<u8>, EdgeError>)
    ensures
        match r {
            Ok(message) => payload@.len() <= message@.len() <= NOISE_ROOM,
            Err(error) => error is Noise,
        },
        exists|drawn: Option<Seq<u8>>|
            #[trigger] message_written(*old(state), drawn, payload@) == (
                crate::traffic::text_view(r),
                *final(state),
            ),
{
    let written = write_message(state, payload, NOISE_ROOM);
    proof {
        let drawn = choose|drawn: Option<Seq<u8>>|
            #[trigger] noise_written(*old(state), drawn, payload@, NOISE_ROOM as nat) == (
                payload_view(written),
                *state,
            );
        assert(message_written(*old(state), drawn, payload@).1 == *state);
    }
    match written {
        Ok(message) => Ok(message),
        Err(error) => Err(EdgeError::Noise(error)),
    }
}

} // verus!
