//! The secure connection of a peer: handshake, proof of the network secret, and the
//! packets that the relay itself sends and receives.
//!
//! Messages cross this module as plain values; between the steps of a handshake the
//! caller decodes what came in and encodes what goes out.
use vstd::prelude::*;

use crate::bytes;
use crate::collections;
use crate::collections::Duplicate;
use crate::crypto;
use crate::error::{EdgeError, KeyLabel};
use crate::noise;
use crate::packet;
use crate::packet::{PacketHeader, ENCRYPTED_FLAG};
use crate::proto::{PeerConnNoiseMsg1, PeerConnNoiseMsg2, PeerConnNoiseMsg3, Uuid};
use crate::replay;
use crate::session;
use crate::session::{SessionKey, SessionKeyView, SessionSelection, SessionStore, Sessions, StoredView};
use crate::traffic;
use crate::traffic::{Traffic, TrafficView};

verus! {

pub const EASYTIER_PROTOCOL_VERSION: u32 = 1;

pub const PACKET_NOISE_MSG1: u8 = 13;

pub const PACKET_NOISE_MSG2: u8 = 14;

pub const PACKET_NOISE_MSG3: u8 = 15;

pub const MAX_NETWORK_NAME_BYTES: usize = 255;

/// What the first message says of a connection.
#[derive(Debug)]
pub struct Msg1Info {
    pub peer_id: u32,
    pub network_name: String,
    pub client_encryption_algorithm: String,
}

/// What is known of an authenticated peer.
#[derive(Debug)]
pub struct AuthInfo {
    pub peer_id: u32,
    pub network_name: String,
    pub remote_public_key_base64: String,
    pub auth_level: &'static str,
}

/// The first message as it came in: who sent it, its payload, and the handshake
/// that it began.
pub struct OpenedMsg1 {
    pub peer_id: u32,
    pub payload: Vec<u8>,
    pub handshake: snow::HandshakeState,
}

/// The second message before it is encoded, and the session that it is about.
pub struct PreparedMsg2 {
    pub message: PeerConnNoiseMsg2,
    pub session_key: SessionKey,
    pub session_root_key: [u8; 32],
    pub b_conn_id: Uuid,
}

/// The third message as it came in: its payload, and the handshake that it ended.
pub struct OpenedMsg3 {
    pub payload: Vec<u8>,
    pub handshake: snow::HandshakeState,
}

/// The connection of a peer.
pub struct SecurePeer {
    local_private: [u8; 32],
    local_public: [u8; 32],
    server_peer_id: u32,
    peer_id: Option<u32>,
    network_name: Option<String>,
    client_algorithm: Option<String>,
    a_session_generation: Option<u32>,
    a_conn_id: Option<Uuid>,
    b_conn_id: Option<Uuid>,
    handshake: Option<snow::HandshakeState>,
    proof_challenge: Option<Vec<u8>>,
    network_secret: Option<Vec<u8>>,
    root_key: Option<[u8; 32]>,
    session_key: Option<SessionKey>,
    session_attached: bool,
    traffic: Traffic,
    authenticated: bool,
}

#[verifier::ext_equal]
pub struct PeerView {
    pub local_private: Seq<u8>,
    pub local_public: Seq<u8>,
    pub server_peer_id: u32,
    pub peer_id: Option<u32>,
    pub network_name: Option<Seq<char>>,
    pub client_algorithm: Option<Seq<char>>,
    pub a_session_generation: Option<u32>,
    pub a_conn_id: Option<Uuid>,
    pub b_conn_id: Option<Uuid>,
    pub handshake: Option<snow::HandshakeState>,
    pub proof_challenge: Option<Seq<u8>>,
    pub network_secret: Option<Seq<u8>>,
    pub root_key: Option<Seq<u8>>,
    pub session_key: Option<SessionKeyView>,
    pub session_attached: bool,
    pub traffic: TrafficView,
    pub authenticated: bool,
}

impl View for SecurePeer {
    type V = PeerView;

    closed spec fn view(&self) -> PeerView {
        PeerView {
            local_private: self.local_private@,
            local_public: self.local_public@,
            server_peer_id: self.server_peer_id,
            peer_id: self.peer_id,
            network_name: collections::option_view(self.network_name),
            client_algorithm: collections::option_view(self.client_algorithm),
            a_session_generation: self.a_session_generation,
            a_conn_id: self.a_conn_id,
            b_conn_id: self.b_conn_id,
            handshake: self.handshake,
            proof_challenge: collections::option_view(self.proof_challenge),
            network_secret: collections::option_view(self.network_secret),
            root_key: collections::option_view(self.root_key),
            session_key: collections::option_view(self.session_key),
            session_attached: self.session_attached,
            traffic: self.traffic@,
            authenticated: self.authenticated,
        }
    }
}

impl PeerView {
    /// A connection on which nothing has come in.
    pub open spec fn initial(private: Seq<u8>, public: Seq<u8>, server_peer_id: u32, clock_ms: u64) -> PeerView {
        PeerView {
            local_private: private,
            local_public: public,
            server_peer_id,
            peer_id: None,
            network_name: None,
            client_algorithm: None,
            a_session_generation: None,
            a_conn_id: None,
            b_conn_id: None,
            handshake: None,
            proof_challenge: None,
            network_secret: None,
            root_key: None,
            session_key: None,
            session_attached: false,
            traffic: TrafficView::initial(clock_ms),
            authenticated: false,
        }
    }

    /// Whether a handshake is under way or over.
    pub open spec fn has_started(self) -> bool {
        self.handshake is Some || self.authenticated
    }

    /// The session between this peer and the relay in a network.
    pub open spec fn session_key_in(self, network_name: Seq<char>) -> SessionKeyView {
        SessionKeyView {
            network_name,
            peer_id: self.peer_id->0,
            server_peer_id: self.server_peer_id,
            server_public_key: self.local_public,
        }
    }

    /// Why message two cannot be prepared, if it cannot.
    pub open spec fn msg2_obstacle(self, network_secret: Seq<char>) -> Option<EdgeError> {
        if network_secret.len() == 0 {
            Some(EdgeError::EmptyNetworkSecret)
        } else if self.session_key is Some {
            Some(EdgeError::Msg2AlreadyBuilt)
        } else if self.peer_id is None {
            Some(EdgeError::Msg1NotReceived)
        } else if self.network_name is None {
            Some(EdgeError::Msg1HasNoNetwork)
        } else if self.handshake is None {
            Some(EdgeError::Msg1NotReceived)
        } else if self.client_algorithm is None {
            Some(EdgeError::Msg1HasNoAlgorithm)
        } else {
            None
        }
    }
}

/// Whether a packet can be the first message of a connection, and who sent it.
pub open spec fn msg1_sender(peer: PeerView, bytes: Seq<u8>) -> Result<u32, EdgeError> {
    if peer.has_started() {
        Err(EdgeError::HandshakeStarted)
    } else {
        match packet::parsed_packet(bytes) {
            Err(error) => Err(error),
            Ok(header) => if header.packet_type != PACKET_NOISE_MSG1 || header.is_encrypted() {
                Err(EdgeError::NotNoiseMsg1)
            } else if header.from_peer_id == 0 || header.from_peer_id == peer.server_peer_id {
                Err(EdgeError::InvalidClientPeerId)
            } else {
                Ok(header.from_peer_id)
            },
        }
    }
}

/// Why a first message is refused, if it is.
pub open spec fn msg1_obstacle(message: PeerConnNoiseMsg1) -> Option<EdgeError> {
    let name_size = vstd::utf8::encode_utf8(message.a_network_name@).len();
    if message.version != EASYTIER_PROTOCOL_VERSION {
        Some(EdgeError::UnsupportedVersion)
    } else if name_size == 0 || name_size > MAX_NETWORK_NAME_BYTES {
        Some(EdgeError::InvalidNetworkName)
    } else if crypto::algorithm_of(message.client_encryption_algorithm@) is None {
        Some(EdgeError::UnsupportedAlgorithm)
    } else {
        None
    }
}

/// What becomes of a connection when the first message was to be taken in, and whether it
/// was.
pub open spec fn msg1_taken(
    peer: PeerView,
    sender: u32,
    handshake: snow::HandshakeState,
    message: PeerConnNoiseMsg1,
) -> (PeerView, Result<(), EdgeError>) {
    if peer.has_started() {
        (peer, Err(EdgeError::HandshakeStarted))
    } else {
        match msg1_obstacle(message) {
            Some(error) => (peer, Err(error)),
            None => (
                PeerView {
                    peer_id: Some(sender),
                    network_name: Some(message.a_network_name@),
                    client_algorithm: Some(message.client_encryption_algorithm@),
                    a_session_generation: message.a_session_generation,
                    a_conn_id: message.a_conn_id,
                    handshake: Some(handshake),
                    ..peer
                },
                Ok(()),
            ),
        }
    }
}

/// Whether something has succeeded, or why not.
pub open spec fn done<T>(r: Result<T, EdgeError>) -> Result<(), EdgeError> {
    match r {
        Ok(_) => Ok(()),
        Err(error) => Err(error),
    }
}

/// What becomes of a connection and the sessions when the third message was to be taken in,
/// given the key that the peer used, and whether the peer is admitted.
pub open spec fn msg3_taken(
    peer: PeerView,
    sessions: Sessions,
    message: PeerConnNoiseMsg3,
    remote_key: Option<Seq<u8>>,
    clock_ms: u64,
) -> (PeerView, Sessions, Result<(), EdgeError>) {
    match msg3_obstacle(peer, message, remote_key) {
        Some(obstacle) => (peer, sessions, Err(obstacle)),
        None => match session::bound(sessions, peer.session_key->0, remote_key->0, clock_ms) {
            (after, Ok(())) => (PeerView { authenticated: true, ..peer }, after, Ok(())),
            (after, Err(error)) => (peer, after, Err(error)),
        },
    }
}

/// What the first message opens: who sent it, its payload, and the handshake that it began.
pub open spec fn msg1_opened(peer: PeerView, bytes: Seq<u8>) -> Result<
    (u32, Seq<u8>, snow::HandshakeState),
    EdgeError,
> {
    match msg1_sender(peer, bytes) {
        Err(error) => Err(error),
        Ok(sender) => match noise::responder_started(peer.local_private) {
            Err(error) => Err(error),
            Ok(state) => match noise::message_read(state, bytes.skip(packet::HEADER_SIZE as int)) {
                (Err(error), _) => Err(error),
                (Ok(payload), after) => Ok((sender, payload, after)),
            },
        },
    }
}

/// The view of an opened first message, or why there is none.
pub open spec fn opened_msg1_view(r: Result<OpenedMsg1, EdgeError>) -> Result<
    (u32, Seq<u8>, snow::HandshakeState),
    EdgeError,
> {
    match r {
        Ok(opened) => Ok((opened.peer_id, opened.payload@, opened.handshake)),
        Err(error) => Err(error),
    }
}

/// What becomes of a connection when the third message is opened, and what it opens: its
/// payload, and the handshake that it ended.
pub open spec fn msg3_opened(peer: PeerView, bytes: Seq<u8>) -> (
    PeerView,
    Result<(Seq<u8>, snow::HandshakeState), EdgeError>,
) {
    match packet::parsed_packet(bytes) {
        Err(error) => (peer, Err(error)),
        Ok(header) => if peer.peer_id is None {
            (peer, Err(EdgeError::Msg1NotReceived))
        } else if !is_msg3(peer, header) {
            (peer, Err(EdgeError::InvalidMsg3Envelope))
        } else {
            (
                PeerView { handshake: None, ..peer },
                match peer.handshake {
                    None => Err(EdgeError::Msg2NotSent),
                    Some(state) => match noise::message_read(state, bytes.skip(packet::HEADER_SIZE as int)) {
                        (Err(error), _) => Err(error),
                        (Ok(payload), after) => Ok((payload, after)),
                    },
                },
            )
        },
    }
}

/// The view of an opened third message, or why there is none.
pub open spec fn opened_msg3_view(r: Result<OpenedMsg3, EdgeError>) -> Result<
    (Seq<u8>, snow::HandshakeState),
    EdgeError,
> {
    match r {
        Ok(opened) => Ok((opened.payload@, opened.handshake)),
        Err(error) => Err(error),
    }
}

/// What becomes of the sessions when a connection ends.
pub open spec fn ended(peer: PeerView, sessions: Sessions, clock_ms: u64) -> Sessions {
    match peer.session_key {
        Some(key) => if peer.session_attached {
            session::left(sessions, key, clock_ms)
        } else {
            sessions
        },
        None => sessions,
    }
}

/// Whether a packet can be the third message of a connection.
pub open spec fn is_msg3(peer: PeerView, header: PacketHeader) -> bool {
    &&& header.packet_type == PACKET_NOISE_MSG3
    &&& Some(header.from_peer_id) == peer.peer_id
    &&& header.to_peer_id == peer.server_peer_id
    &&& !header.is_encrypted()
}

impl SecurePeer {
    /// A connection of the relay with the given keys, the second of which must be
    /// the public key that belongs to the first.
    pub fn new(local_private_key_base64: &str, local_public_key_base64: &str, server_peer_id: u32, clock_ms: u64) -> (r:
        Result<SecurePeer, EdgeError>)
        ensures
            ({
                let private = crypto::key_of_decoded(
                    crypto::base64_decoded(local_private_key_base64@),
                    KeyLabel::Private,
                );
                let public = crypto::key_of_decoded(
                    crypto::base64_decoded(local_public_key_base64@),
                    KeyLabel::Public,
                );
                match r {
                    Ok(peer) => server_peer_id != 0 && private is Ok && public is Ok && crypto::x25519_public(
                        private->Ok_0,
                    ) == public->Ok_0 && peer@ == PeerView::initial(
                        private->Ok_0,
                        public->Ok_0,
                        server_peer_id,
                        clock_ms,
                    ),
                    Err(error) => if server_peer_id == 0 {
                        error == EdgeError::ZeroServerPeerId
                    } else if private is Err {
                        error == private->Err_0
                    } else if public is Err {
                        error == public->Err_0
                    } else {
                        crypto::x25519_public(private->Ok_0) != public->Ok_0 && error
                            == EdgeError::PublicKeyMismatch
                    },
                }
            }),
    {
        if server_peer_id == 0 {
            return Err(EdgeError::ZeroServerPeerId);
        }
        let private = match crypto::decode_key(local_private_key_base64, KeyLabel::Private) {
            Ok(key) => key,
            Err(error) => {
                return Err(error);
            },
        };
        let configured_public = match crypto::decode_key(local_public_key_base64, KeyLabel::Public) {
            Ok(key) => key,
            Err(error) => {
                return Err(error);
            },
        };
        let derived_public = crypto::public_key_of(&private);
        Self::with_keys(private, configured_public, &derived_public, server_peer_id, clock_ms)
    }

    /// A connection with decoded keys, given the public key that belongs to the
    /// private one.
    pub fn with_keys(
        private: [u8; 32],
        configured_public: [u8; 32],
        derived_public: &[u8; 32],
        server_peer_id: u32,
        clock_ms: u64,
    ) -> (r: Result<SecurePeer, EdgeError>)
        ensures
            match r {
                Ok(peer) => derived_public@ == configured_public@ && peer@ == PeerView::initial(
                    private@,
                    configured_public@,
                    server_peer_id,
                    clock_ms,
                ),
                Err(error) => derived_public@ != configured_public@ && error == EdgeError::PublicKeyMismatch,
            },
    {
        if !bytes::same_bytes(derived_public, &configured_public) {
            return Err(EdgeError::PublicKeyMismatch);
        }
        Ok(
            SecurePeer {
                local_private: private,
                local_public: configured_public,
                server_peer_id,
                peer_id: None,
                network_name: None,
                client_algorithm: None,
                a_session_generation: None,
                a_conn_id: None,
                b_conn_id: None,
                handshake: None,
                proof_challenge: None,
                network_secret: None,
                root_key: None,
                session_key: None,
                session_attached: false,
                traffic: Traffic::new(clock_ms),
                authenticated: false,
            },
        )
    }

    /// Opens the first message of a connection.
    pub fn open_msg1(&self, packet: &[u8]) -> (r: Result<OpenedMsg1, EdgeError>)
        ensures
            opened_msg1_view(r) == msg1_opened(self@, packet@),
            match msg1_sender(self@, packet@) {
                Err(expected) => r matches Err(error) && error == expected,
                Ok(sender) => match noise::responder_started(self@.local_private) {
                    Err(expected) => r matches Err(error) && error == expected,
                    Ok(state) => match noise::message_read(state, packet@.skip(packet::HEADER_SIZE as int)) {
                        (Err(expected), _) => r matches Err(error) && error == expected,
                        (Ok(payload), after) => r matches Ok(opened) && opened.peer_id == sender
                            && opened.payload@ == payload && opened.handshake == after,
                    },
                },
            },
    {
        if self.handshake.is_some() || self.authenticated {
            return Err(EdgeError::HandshakeStarted);
        }
        let (header, payload) = match packet::split_packet(packet) {
            Ok(parts) => parts,
            Err(error) => {
                return Err(error);
            },
        };
        if header.packet_type != PACKET_NOISE_MSG1 || header.encrypted() {
            return Err(EdgeError::NotNoiseMsg1);
        }
        if header.from_peer_id == 0 || header.from_peer_id == self.server_peer_id {
            return Err(EdgeError::InvalidClientPeerId);
        }
        let mut handshake = match noise::start_responder(&self.local_private) {
            Ok(handshake) => handshake,
            Err(error) => {
                return Err(error);
            },
        };
        match noise::read_handshake(&mut handshake, payload) {
            Ok(payload) => Ok(OpenedMsg1 { peer_id: header.from_peer_id, payload, handshake }),
            Err(error) => Err(error),
        }
    }

    /// Takes in the first message. It says which network the peer asks for; the
    /// secret of that network is chosen afterwards.
    pub fn read_msg1(&mut self, opened: OpenedMsg1, message: PeerConnNoiseMsg1) -> (r: Result<Msg1Info, EdgeError>)
        ensures
            (final(self)@, done(r)) == msg1_taken(old(self)@, opened.peer_id, opened.handshake, message),
            match r {
                Ok(info) => {
                    &&& !old(self)@.has_started()
                    &&& msg1_obstacle(message) is None
                    &&& info.peer_id == opened.peer_id
                    &&& info.network_name@ == message.a_network_name@
                    &&& info.client_encryption_algorithm@ == message.client_encryption_algorithm@
                    &&& final(self)@ == (PeerView {
                        peer_id: Some(opened.peer_id),
                        network_name: Some(message.a_network_name@),
                        client_algorithm: Some(message.client_encryption_algorithm@),
                        a_session_generation: message.a_session_generation,
                        a_conn_id: message.a_conn_id,
                        handshake: Some(opened.handshake),
                        ..old(self)@
                    })
                },
                Err(error) => {
                    &&& final(self)@ == old(self)@
                    &&& if old(self)@.has_started() {
                        error == EdgeError::HandshakeStarted
                    } else {
                        msg1_obstacle(message) == Some(error)
                    }
                },
            },
    {
        if self.handshake.is_some() || self.authenticated {
            return Err(EdgeError::HandshakeStarted);
        }
        if message.version != EASYTIER_PROTOCOL_VERSION {
            return Err(EdgeError::UnsupportedVersion);
        }
        let name_size: usize = message.a_network_name.as_str().as_bytes().len();
        if name_size == 0 || name_size > MAX_NETWORK_NAME_BYTES {
            return Err(EdgeError::InvalidNetworkName);
        }
        match crypto::normalized_algorithm(message.client_encryption_algorithm.as_str()) {
            Ok(_) => {},
            Err(error) => {
                return Err(error);
            },
        }
        self.peer_id = Some(opened.peer_id);
        self.network_name = Some(message.a_network_name.clone());
        self.client_algorithm = Some(message.client_encryption_algorithm.clone());
        self.a_session_generation = message.a_session_generation;
        self.a_conn_id = message.a_conn_id;
        self.handshake = Some(opened.handshake);
        Ok(
            Msg1Info {
                peer_id: opened.peer_id,
                network_name: message.a_network_name,
                client_encryption_algorithm: message.client_encryption_algorithm,
            },
        )
    }

    pub fn is_authenticated(&self) -> (r: bool)
        ensures
            r == self@.authenticated,
    {
        self.authenticated
    }
}

/// The second message says all that it has to say.
pub open spec fn msg2_says(
    message: PeerConnNoiseMsg2,
    network_name: Seq<char>,
    selection: session::SelectionView,
    b_conn_id: Uuid,
    a_conn_id: Option<Uuid>,
    proof: Seq<u8>,
) -> bool {
    &&& message.b_network_name@ == network_name
    &&& message.role_hint == 1
    &&& message.action == selection.action
    &&& message.b_session_generation == selection.generation
    &&& collections::option_view(message.root_key_32) == selection.root_key_for_peer
    &&& message.initial_epoch == selection.initial_epoch
    &&& message.b_conn_id == Some(b_conn_id)
    &&& message.a_conn_id_echo == a_conn_id
    &&& collections::option_view(message.secret_proof_32) == Some(proof)
    &&& message.server_encryption_algorithm@ == "aes-gcm"@
}

/// The connection once the second message has gone out.
pub open spec fn noted(
    peer: PeerView,
    network_secret: Seq<char>,
    session_key: SessionKeyView,
    root_key: Seq<u8>,
    challenge: Seq<u8>,
) -> PeerView {
    PeerView {
        proof_challenge: Some(challenge),
        network_secret: Some(vstd::utf8::encode_utf8(network_secret)),
        root_key: Some(root_key),
        session_key: Some(session_key),
        ..peer
    }
}

/// What becomes of a connection and of the sessions when the connection joins its
/// session.
pub open spec fn recorded(
    peer: PeerView,
    sessions: Sessions,
    network_secret: Seq<char>,
    session_key: SessionKeyView,
    root_key: Seq<u8>,
    b_conn_id: Uuid,
    challenge: Seq<u8>,
    clock_ms: u64,
) -> (PeerView, Sessions, Result<(), EdgeError>) {
    let noted = noted(peer, network_secret, session_key, root_key, challenge);
    let session = sessions[session_key];
    if !sessions.contains_key(session_key) {
        (noted, sessions, Err(EdgeError::SessionLostAttaching))
    } else if session.attachments == u32::MAX {
        (noted, sessions, Err(EdgeError::AttachmentsExhausted))
    } else {
        (
            PeerView {
                session_attached: true,
                root_key: Some(session.root_key),
                traffic: session.traffic,
                b_conn_id: Some(b_conn_id),
                ..noted
            },
            sessions.insert(session_key, session.attached(clock_ms)),
            Ok(()),
        )
    }
}

/// What becomes of a connection and of the sessions when the second message is sent,
/// and the packet that carries it. `encoded` is the message, and `drawn` the
/// randomness that the handshake drew on the way.
pub open spec fn msg2_sent(
    peer: PeerView,
    sessions: Sessions,
    network_secret: Seq<char>,
    prepared: PreparedMsg2,
    encoded: Seq<u8>,
    drawn: Option<Seq<u8>>,
    clock_ms: u64,
) -> (PeerView, Sessions, Result<Seq<u8>, EdgeError>) {
    let (outcome, handshake) = noise::message_written(peer.handshake->0, drawn, encoded);
    let written = PeerView { handshake: Some(handshake), ..peer };
    match outcome {
        Err(error) => (written, sessions, Err(error)),
        Ok(message) => {
            let (after, saved, joined) = recorded(
                written,
                sessions,
                network_secret,
                prepared.session_key@,
                prepared.session_root_key@,
                prepared.b_conn_id,
                noise::noise_hash(handshake),
                clock_ms,
            );
            (
                after,
                saved,
                match joined {
                    Err(error) => Err(error),
                    Ok(()) => Ok(
                        packet::built_packet(peer.server_peer_id, peer.peer_id->0, PACKET_NOISE_MSG2, message),
                    ),
                },
            )
        },
    }
}

/// Why a third message is refused, if it is, given the key that the peer used.
pub open spec fn msg3_obstacle(peer: PeerView, message: PeerConnNoiseMsg3, remote_key: Option<Seq<u8>>) -> Option<
    EdgeError,
> {
    if peer.peer_id is None {
        Some(EdgeError::Msg1NotReceived)
    } else if message.a_conn_id_echo != peer.a_conn_id || message.b_conn_id_echo != peer.b_conn_id {
        Some(EdgeError::ConnectionIdMismatch)
    } else if message.secret_proof_32 is None {
        Some(EdgeError::MissingProof)
    } else if peer.network_secret is None {
        Some(EdgeError::NoNetworkSecret)
    } else if peer.proof_challenge is None {
        Some(EdgeError::NoProofChallenge)
    } else if message.secret_proof_32->0@ != crypto::secret_proof_of(peer.network_secret->0, peer.proof_challenge->0) {
        Some(EdgeError::ProofRejected)
    } else if !(remote_key matches Some(key) && key.len() == 32) {
        Some(EdgeError::MissingRemoteKey)
    } else if peer.session_key is None {
        Some(EdgeError::NoSessionKey)
    } else {
        None
    }
}

/// Why a session cannot be bound to a peer's key, if it cannot.
pub open spec fn key_obstacle(sessions: Sessions, session_key: SessionKeyView, key: Seq<u8>) -> Option<EdgeError> {
    if !sessions.contains_key(session_key) {
        Some(EdgeError::SessionLostAuthenticating)
    } else if sessions[session_key].remote_public_key matches Some(current) && current != key {
        Some(EdgeError::RemoteKeyChanged)
    } else {
        None
    }
}

/// What is said of a peer that was admitted under a key.
pub open spec fn auth_says(info: AuthInfo, peer: PeerView, key: Seq<u8>) -> bool {
    &&& Some(info.peer_id) == peer.peer_id
    &&& info.network_name@ == (match peer.network_name {
        Some(name) => name,
        None => Seq::empty(),
    })
    &&& info.remote_public_key_base64@ == crypto::base64_encoded(key)
    &&& info.auth_level@ == "NetworkSecretConfirmed"@
}

impl SecurePeer {
    /// The second message, made of a chosen session, a proof and an identifier.
    pub fn compose_msg2(
        &self,
        network_name: &str,
        selection: &SessionSelection,
        proof: Vec<u8>,
        b_conn_id: Uuid,
    ) -> (r: PeerConnNoiseMsg2)
        ensures
            msg2_says(r, network_name@, selection@, b_conn_id, self@.a_conn_id, proof@),
    {
        PeerConnNoiseMsg2 {
            b_network_name: network_name.to_string(),
            role_hint: 1,
            action: selection.action,
            b_session_generation: selection.generation,
            root_key_32: match &selection.root_key_for_peer {
                Some(key) => Some(vstd::slice::slice_to_vec(key)),
                None => None,
            },
            initial_epoch: selection.initial_epoch,
            b_conn_id: Some(b_conn_id),
            a_conn_id_echo: self.a_conn_id,
            secret_proof_32: Some(proof),
            server_encryption_algorithm: "aes-gcm".to_string(),
        }
    }

    /// What the second message is made of, or why there is none: the peer, the
    /// network, the handshake and the cipher of the peer.
    fn msg2_parts(&self, network_secret: &str) -> (r: Result<
        (u32, &String, &snow::HandshakeState, &String),
        EdgeError,
    >)
        ensures
            match (self@.msg2_obstacle(network_secret@), r) {
                (Some(obstacle), Err(error)) => error == obstacle,
                (None, Ok(parts)) => {
                    &&& self@.peer_id == Some(parts.0)
                    &&& self@.network_name == Some(parts.1@)
                    &&& self@.handshake == Some(*parts.2)
                    &&& self@.client_algorithm == Some(parts.3@)
                },
                _ => false,
            },
    {
        if network_secret.unicode_len() == 0 {
            return Err(EdgeError::EmptyNetworkSecret);
        }
        if self.session_key.is_some() {
            return Err(EdgeError::Msg2AlreadyBuilt);
        }
        let peer_id: u32 = match self.peer_id {
            Some(peer_id) => peer_id,
            None => {
                return Err(EdgeError::Msg1NotReceived);
            },
        };
        let network_name = match &self.network_name {
            Some(network_name) => network_name,
            None => {
                return Err(EdgeError::Msg1HasNoNetwork);
            },
        };
        let handshake = match &self.handshake {
            Some(handshake) => handshake,
            None => {
                return Err(EdgeError::Msg1NotReceived);
            },
        };
        match &self.client_algorithm {
            Some(client_algorithm) => Ok((peer_id, network_name, handshake, client_algorithm)),
            None => Err(EdgeError::Msg1HasNoAlgorithm),
        }
    }

    /// Chooses the session of the peer, and prepares the second message for the
    /// network whose secret is given.
    pub fn prepare_msg2(&self, store: &mut SessionStore, network_secret: &str, clock_ms: u64) -> (r: Result<
        PreparedMsg2,
        EdgeError,
    >)
        ensures
            match self@.msg2_obstacle(network_secret@) {
                Some(obstacle) => r matches Err(error) && error == obstacle && final(store)@ == old(store)@,
                None => {
                    let name = self@.network_name->0;
                    let key = self@.session_key_in(name);
                    let algorithm = self@.client_algorithm->0;
                    let proof = crypto::secret_proof_of(
                        vstd::utf8::encode_utf8(network_secret@),
                        noise::noise_hash(self@.handshake->0),
                    );
                    let (sessions, choice) = session::reused(
                        old(store)@,
                        key,
                        self@.a_session_generation,
                        algorithm,
                        clock_ms,
                    );
                    match (choice, r) {
                        (Err(expected), Err(error)) => error == expected && final(store)@ == sessions,
                        (Ok(Some(selection)), Ok(prepared)) => {
                            &&& prepared.session_key@ == key
                            &&& prepared.session_root_key@ == selection.session_root_key
                            &&& msg2_says(
                                prepared.message,
                                name,
                                selection,
                                prepared.b_conn_id,
                                self@.a_conn_id,
                                proof,
                            )
                            &&& final(store)@ == sessions
                        },
                        (Ok(None), Ok(prepared)) => {
                            let root_key = prepared.session_root_key@;
                            &&& prepared.session_key@ == key
                            &&& msg2_says(
                                prepared.message,
                                name,
                                session::created_selection(root_key),
                                prepared.b_conn_id,
                                self@.a_conn_id,
                                proof,
                            )
                            &&& final(store)@ == sessions.insert(
                                key,
                                StoredView::created(algorithm, root_key, clock_ms),
                            )
                        },
                        (Ok(Some(_)), Err(error)) => error is Random && final(store)@ == sessions,
                        (Ok(None), Err(error)) => error is Random && (final(store)@ == sessions || exists|
                            root_key: Seq<u8>,
                        |
                            root_key.len() == 32 && final(store)@ == sessions.insert(
                                key,
                                #[trigger] StoredView::created(algorithm, root_key, clock_ms),
                            )),
                        (Err(_), Ok(_)) => false,
                    }
                },
            },
            session::is_valid(final(store)@),
    {
        proof {
            session::lemma_stores_are_valid();
        }
        let (peer_id, network_name, handshake, client_algorithm) = match self.msg2_parts(network_secret) {
            Ok(parts) => parts,
            Err(error) => {
                return Err(error);
            },
        };
        let proof = crypto::secret_proof(network_secret.as_bytes(), &noise::handshake_hash(handshake));
        let session_key = SessionKey {
            network_name: network_name.clone(),
            peer_id,
            server_peer_id: self.server_peer_id,
            server_public_key: self.local_public,
        };
        let selection = match store.upsert_session(
            &session_key,
            self.a_session_generation,
            client_algorithm.as_str(),
            clock_ms,
        ) {
            Ok(selection) => selection,
            Err(error) => {
                return Err(error);
            },
        };
        let b_conn_id = match crypto::random_uuid() {
            Ok(b_conn_id) => b_conn_id,
            Err(error) => {
                return Err(error);
            },
        };
        let message = self.compose_msg2(network_name.as_str(), &selection, proof, b_conn_id);
        Ok(PreparedMsg2 { message, session_key, session_root_key: selection.session_root_key, b_conn_id })
    }

    /// Notes that the second message has gone out, and joins the session.
    /// `challenge` is the handshake hash after that message.
    pub fn record_msg2(
        &mut self,
        store: &mut SessionStore,
        network_secret: &str,
        session_key: SessionKey,
        session_root_key: [u8; 32],
        b_conn_id: Uuid,
        challenge: Vec<u8>,
        clock_ms: u64,
    ) -> (r: Result<(), EdgeError>)
        ensures
            (final(self)@, final(store)@, r) == recorded(
                old(self)@,
                old(store)@,
                network_secret@,
                session_key@,
                session_root_key@,
                b_conn_id,
                challenge@,
                clock_ms,
            ),
            session::is_valid(final(store)@),
    {
        proof {
            session::lemma_stores_are_valid();
        }
        self.proof_challenge = Some(challenge);
        self.network_secret = Some(vstd::slice::slice_to_vec(network_secret.as_bytes()));
        self.root_key = Some(session_root_key);
        let key = session_key.duplicate();
        self.session_key = Some(session_key);
        match store.attach_session(&key, clock_ms) {
            Ok(()) => {},
            Err(error) => {
                return Err(error);
            },
        }
        self.session_attached = true;
        match store.load_session_state(&key) {
            Ok((root_key, traffic)) => {
                self.root_key = Some(root_key);
                self.traffic = traffic;
            },
            Err(error) => {
                return Err(error);
            },
        }
        self.b_conn_id = Some(b_conn_id);
        Ok(())
    }

    /// Sends the second message: `encoded` is the encoding of the message that was
    /// prepared.
    pub fn build_msg2(
        &mut self,
        store: &mut SessionStore,
        network_secret: &str,
        prepared: PreparedMsg2,
        encoded: &[u8],
        clock_ms: u64,
    ) -> (r: Result<Vec<u8>, EdgeError>)
        ensures
            match old(self)@.msg2_obstacle(network_secret@) {
                Some(obstacle) => r matches Err(error) && error == obstacle && final(self)@ == old(self)@
                    && final(store)@ == old(store)@,
                None => exists|drawn: Option<Seq<u8>>|
                    (final(self)@, final(store)@, traffic::text_view(r)) == #[trigger] msg2_sent(
                        old(self)@,
                        old(store)@,
                        network_secret@,
                        prepared,
                        encoded@,
                        drawn,
                        clock_ms,
                    ),
            },
            r matches Ok(packet) ==> packet::HEADER_SIZE + encoded@.len() <= packet@.len() <= packet::HEADER_SIZE
                + noise::NOISE_ROOM,
            session::is_valid(final(store)@),
    {
        proof {
            session::lemma_stores_are_valid();
        }
        let peer_id: u32 = match self.msg2_parts(network_secret) {
            Ok(parts) => parts.0,
            Err(error) => {
                return Err(error);
            },
        };
        let ghost peer = self@;
        let ghost sessions = store@;
        let ghost begun = self@.handshake->0;
        let (written, challenge) = match &mut self.handshake {
            Some(handshake) => {
                let written = noise::write_handshake(handshake, encoded);
                (written, noise::handshake_hash(handshake))
            },
            None => {
                return Err(EdgeError::Msg1NotReceived);
            },
        };
        let ghost drawn = choose|drawn: Option<Seq<u8>>|
            #[trigger] noise::message_written(begun, drawn, encoded@) == (
                traffic::text_view(written),
                self@.handshake->0,
            );
        let ghost sent = msg2_sent(peer, sessions, network_secret@, prepared, encoded@, drawn, clock_ms);
        let message = match written {
            Ok(message) => message,
            Err(error) => {
                assert(self@ == sent.0);
                return Err(error);
            },
        };
        match self.record_msg2(
            store,
            network_secret,
            prepared.session_key,
            prepared.session_root_key,
            prepared.b_conn_id,
            challenge,
            clock_ms,
        ) {
            Ok(()) => {},
            Err(error) => {
                return Err(error);
            },
        }
        let packet = packet::wrap_packet(self.server_peer_id, peer_id, PACKET_NOISE_MSG2, &message);
        proof {
            packet::law_build_parse(self.server_peer_id, peer_id, PACKET_NOISE_MSG2, message@);
        }
        Ok(packet)
    }

    /// Opens the third message. The handshake is over with it, whether or not the
    /// message is accepted.
    pub fn open_msg3(&mut self, packet: &[u8]) -> (r: Result<OpenedMsg3, EdgeError>)
        ensures
            (final(self)@, opened_msg3_view(r)) == msg3_opened(old(self)@, packet@),
            match packet::parsed_packet(packet@) {
                Err(expected) => r matches Err(error) && error == expected && final(self)@ == old(self)@,
                Ok(header) => if old(self)@.peer_id is None {
                    r matches Err(error) && error == EdgeError::Msg1NotReceived && final(self)@ == old(self)@
                } else if !is_msg3(old(self)@, header) {
                    r matches Err(error) && error == EdgeError::InvalidMsg3Envelope && final(self)@ == old(self)@
                } else {
                    &&& final(self)@ == (PeerView { handshake: None, ..old(self)@ })
                    &&& match old(self)@.handshake {
                        None => r matches Err(error) && error == EdgeError::Msg2NotSent,
                        Some(state) => match noise::message_read(state, packet@.skip(packet::HEADER_SIZE as int)) {
                            (Err(expected), _) => r matches Err(error) && error == expected,
                            (Ok(payload), after) => r matches Ok(opened) && opened.payload@ == payload
                                && opened.handshake == after,
                        },
                    }
                },
            },
    {
        let (header, payload) = match packet::split_packet(packet) {
            Ok(parts) => parts,
            Err(error) => {
                return Err(error);
            },
        };
        let peer_id: u32 = match self.peer_id {
            Some(peer_id) => peer_id,
            None => {
                return Err(EdgeError::Msg1NotReceived);
            },
        };
        if header.packet_type != PACKET_NOISE_MSG3 || header.from_peer_id != peer_id || header.to_peer_id
            != self.server_peer_id || header.encrypted() {
            return Err(EdgeError::InvalidMsg3Envelope);
        }
        let mut handshake = match self.handshake.take() {
            Some(handshake) => handshake,
            None => {
                return Err(EdgeError::Msg2NotSent);
            },
        };
        match noise::read_handshake(&mut handshake, payload) {
            Ok(payload) => Ok(OpenedMsg3 { payload, handshake }),
            Err(error) => Err(error),
        }
    }

    /// Admits the peer, given the third message and the key that the peer used: the
    /// message must belong to this connection and prove that the peer knows the
    /// network secret, and the key must be the one that the session is bound to.
    pub fn confirm_peer(
        &mut self,
        store: &mut SessionStore,
        message: &PeerConnNoiseMsg3,
        remote_key: Option<Vec<u8>>,
        clock_ms: u64,
    ) -> (r: Result<AuthInfo, EdgeError>)
        ensures
            (final(self)@, final(store)@, done(r)) == msg3_taken(
                old(self)@,
                old(store)@,
                *message,
                collections::option_view(remote_key),
                clock_ms,
            ),
            match msg3_obstacle(old(self)@, *message, collections::option_view(remote_key)) {
                Some(obstacle) => r matches Err(error) && error == obstacle && final(self)@ == old(self)@
                    && final(store)@ == old(store)@,
                None => {
                    let session_key = old(self)@.session_key->0;
                    let key = remote_key->0@;
                    match key_obstacle(old(store)@, session_key, key) {
                        Some(obstacle) => r matches Err(error) && error == obstacle && final(self)@ == old(self)@
                            && final(store)@ == old(store)@,
                        None => {
                            &&& r matches Ok(info) && auth_says(info, old(self)@, key)
                            &&& final(self)@ == (PeerView { authenticated: true, ..old(self)@ })
                            &&& final(store)@ == old(store)@.insert(
                                session_key,
                                StoredView {
                                    remote_public_key: Some(key),
                                    ..old(store)@[session_key].touched(clock_ms)
                                },
                            )
                        },
                    }
                },
            },
            session::is_valid(final(store)@),
    {
        proof {
            session::lemma_stores_are_valid();
        }
        let peer_id: u32 = match self.peer_id {
            Some(peer_id) => peer_id,
            None => {
                return Err(EdgeError::Msg1NotReceived);
            },
        };
        if message.a_conn_id_echo != self.a_conn_id || message.b_conn_id_echo != self.b_conn_id {
            return Err(EdgeError::ConnectionIdMismatch);
        }
        let proof = match &message.secret_proof_32 {
            Some(proof) => proof,
            None => {
                return Err(EdgeError::MissingProof);
            },
        };
        let secret = match &self.network_secret {
            Some(secret) => secret,
            None => {
                return Err(EdgeError::NoNetworkSecret);
            },
        };
        let challenge = match &self.proof_challenge {
            Some(challenge) => challenge,
            None => {
                return Err(EdgeError::NoProofChallenge);
            },
        };
        if !crypto::verify_secret_proof(secret, challenge, proof) {
            return Err(EdgeError::ProofRejected);
        }
        let remote_public_key = match &remote_key {
            Some(key) => match bytes::to_key(key) {
                Some(key) => key,
                None => {
                    return Err(EdgeError::MissingRemoteKey);
                },
            },
            None => {
                return Err(EdgeError::MissingRemoteKey);
            },
        };
        let session_key = match &self.session_key {
            Some(session_key) => session_key,
            None => {
                return Err(EdgeError::NoSessionKey);
            },
        };
        match store.confirm_session_public_key(session_key, remote_public_key, clock_ms) {
            Ok(()) => {},
            Err(error) => {
                return Err(error);
            },
        }
        self.authenticated = true;
        Ok(
            AuthInfo {
                peer_id,
                network_name: match &self.network_name {
                    Some(network_name) => network_name.clone(),
                    None => String::new(),
                },
                remote_public_key_base64: crypto::base64_encode(&remote_public_key),
                auth_level: "NetworkSecretConfirmed",
            },
        )
    }

    /// Takes in the third message. Only now may the peer take part in the network.
    pub fn finish_msg3(
        &mut self,
        store: &mut SessionStore,
        handshake: &snow::HandshakeState,
        message: &PeerConnNoiseMsg3,
        clock_ms: u64,
    ) -> (r: Result<AuthInfo, EdgeError>)
        ensures
            (final(self)@, final(store)@, done(r)) == msg3_taken(
                old(self)@,
                old(store)@,
                *message,
                noise::noise_remote_key(*handshake),
                clock_ms,
            ),
            match msg3_obstacle(old(self)@, *message, noise::noise_remote_key(*handshake)) {
                Some(obstacle) => r matches Err(error) && error == obstacle && final(self)@ == old(self)@
                    && final(store)@ == old(store)@,
                None => {
                    let session_key = old(self)@.session_key->0;
                    let key = noise::noise_remote_key(*handshake)->0;
                    match key_obstacle(old(store)@, session_key, key) {
                        Some(obstacle) => r matches Err(error) && error == obstacle && final(self)@ == old(self)@
                            && final(store)@ == old(store)@,
                        None => {
                            &&& r matches Ok(info) && auth_says(info, old(self)@, key)
                            &&& final(self)@ == (PeerView { authenticated: true, ..old(self)@ })
                            &&& final(store)@ == old(store)@.insert(
                                session_key,
                                StoredView {
                                    remote_public_key: Some(key),
                                    ..old(store)@[session_key].touched(clock_ms)
                                },
                            )
                        },
                    }
                },
            },
            session::is_valid(final(store)@),
    {
        proof {
            session::lemma_stores_are_valid();
        }
        let remote_key = noise::remote_static(handshake);
        self.confirm_peer(store, message, remote_key, clock_ms)
    }

    /// Ends the connection, which leaves its session.
    pub fn detach(self, store: &mut SessionStore, clock_ms: u64)
        ensures
            final(store)@ == ended(self@, old(store)@, clock_ms),
            final(store)@ == match self@.session_key {
                Some(key) => if self@.session_attached && old(store)@.contains_key(key) {
                    old(store)@.insert(key, old(store)@[key].detached(clock_ms))
                } else {
                    old(store)@
                },
                None => old(store)@,
            },
            session::is_valid(final(store)@),
    {
        proof {
            session::lemma_stores_are_valid();
        }
        if !self.session_attached {
            return;
        }
        if let Some(key) = &self.session_key {
            store.detach_session(key, clock_ms);
        }
    }
}

/// The connection with the state of its session.
pub open spec fn loaded(peer: PeerView, sessions: Sessions) -> Result<PeerView, EdgeError> {
    if !peer.authenticated || peer.root_key is None {
        Err(EdgeError::NotAuthenticated)
    } else {
        match peer.session_key {
            Some(key) => if sessions.contains_key(key) {
                Ok(
                    PeerView {
                        root_key: Some(sessions[key].root_key),
                        traffic: sessions[key].traffic,
                        ..peer
                    },
                )
            } else {
                Err(EdgeError::SessionLostLoading)
            },
            None => Err(EdgeError::NoSessionKey),
        }
    }
}

/// The sessions with the packet state of a connection.
pub open spec fn saved(peer: PeerView, sessions: Sessions, clock_ms: u64) -> Sessions {
    let key = peer.session_key->0;
    sessions.insert(key, StoredView { traffic: peer.traffic, ..sessions[key].touched(clock_ms) })
}

/// The header of the same packet in clear.
pub open spec fn clear_header(header: PacketHeader) -> PacketHeader {
    PacketHeader { flags: header.flags & !ENCRYPTED_FLAG, ..header }
}

/// The header of the same packet, encrypted.
pub open spec fn encrypted_header(header: PacketHeader) -> PacketHeader {
    PacketHeader { flags: header.flags | ENCRYPTED_FLAG, ..header }
}

/// The cipher that the peer uses.
pub open spec fn peer_algorithm(peer: PeerView) -> Seq<char> {
    match peer.client_algorithm {
        Some(name) => name,
        None => "aes-gcm"@,
    }
}

/// What becomes of the connection and the sessions when a packet comes in, and the
/// packet in clear; an empty one stands for a packet that is dropped.
pub open spec fn packet_decrypted(peer: PeerView, sessions: Sessions, bytes: Seq<u8>, clock_ms: u64) -> (
    PeerView,
    Sessions,
    Result<Seq<u8>, EdgeError>,
) {
    match loaded(peer, sessions) {
        Err(error) => (peer, sessions, Err(error)),
        Ok(now) => match packet::parsed_packet(bytes) {
            Err(error) => (now, sessions, Err(error)),
            Ok(header) => if Some(header.from_peer_id) != peer.peer_id || header.to_peer_id != peer.server_peer_id {
                (now, sessions, Err(EdgeError::NotDirect))
            } else if !header.is_encrypted() {
                (now, sessions, Ok(bytes))
            } else {
                let (traffic, outcome) = now.traffic.decrypted(
                    now.root_key->0,
                    peer_algorithm(peer),
                    crypto::direction_of(header.from_peer_id, header.to_peer_id),
                    bytes.skip(packet::HEADER_SIZE as int),
                    clock_ms,
                );
                let after = PeerView { traffic, ..now };
                (
                    after,
                    saved(after, sessions, clock_ms),
                    match outcome {
                        Ok(Some(plaintext)) => Ok(clear_header(header).encoded() + plaintext),
                        Ok(None) => Ok(Seq::empty()),
                        Err(error) => Err(error),
                    },
                )
            },
        },
    }
}

/// What becomes of the connection and the sessions when the relay sends a packet,
/// and the encrypted packet.
pub open spec fn packet_encrypted(peer: PeerView, sessions: Sessions, bytes: Seq<u8>, clock_ms: u64) -> (
    PeerView,
    Sessions,
    Result<Seq<u8>, EdgeError>,
) {
    match loaded(peer, sessions) {
        Err(error) => (peer, sessions, Err(error)),
        Ok(now) => match packet::parsed_packet(bytes) {
            Err(error) => (now, sessions, Err(error)),
            Ok(header) => if header.from_peer_id != peer.server_peer_id || Some(header.to_peer_id) != peer.peer_id {
                (now, sessions, Err(EdgeError::NotDirect))
            } else if header.is_encrypted() {
                (now, sessions, Err(EdgeError::AlreadyEncrypted))
            } else {
                let (traffic, outcome) = now.traffic.encrypted(
                    now.root_key->0,
                    "aes-gcm"@,
                    crypto::direction_of(header.from_peer_id, header.to_peer_id),
                    bytes.skip(packet::HEADER_SIZE as int),
                    clock_ms,
                );
                let after = PeerView { traffic, ..now };
                (
                    after,
                    saved(after, sessions, clock_ms),
                    match outcome {
                        Ok(payload) => Ok(encrypted_header(header).encoded() + payload),
                        Err(error) => Err(error),
                    },
                )
            },
        },
    }
}

impl SecurePeer {
    /// Takes over the state of the session; it gives the key of the session and its
    /// root key.
    fn load(&mut self, store: &SessionStore) -> (r: Result<(SessionKey, [u8; 32]), EdgeError>)
        ensures
            match (loaded(old(self)@, store@), r) {
                (Ok(peer), Ok(state)) => final(self)@ == peer && Some(state.0@) == peer.session_key && Some(state.1@)
                    == peer.root_key,
                (Err(expected), Err(error)) => error == expected && final(self)@ == old(self)@,
                _ => false,
            },
    {
        if !self.authenticated || self.root_key.is_none() {
            return Err(EdgeError::NotAuthenticated);
        }
        let key = match &self.session_key {
            Some(key) => key.duplicate(),
            None => {
                return Err(EdgeError::NoSessionKey);
            },
        };
        match store.load_session_state(&key) {
            Ok((root_key, traffic)) => {
                self.root_key = Some(root_key);
                self.traffic = traffic;
                Ok((key, root_key))
            },
            Err(error) => Err(error),
        }
    }

    /// Decrypts a packet that the peer sent to the relay. Packets between peers are
    /// not for this: they are passed on as they are.
    pub fn decrypt_packet(&mut self, store: &mut SessionStore, packet: &[u8], clock_ms: u64) -> (r: Result<
        Vec<u8>,
        EdgeError,
    >)
        ensures
            (final(self)@, final(store)@, traffic::text_view(r)) == packet_decrypted(
                old(self)@,
                old(store)@,
                packet@,
                clock_ms,
            ),
            r matches Ok(clear) ==> clear@.len() == 0 || {
                let header = packet::header_of(packet@);
                &&& packet::is_packet(clear@)
                &&& packet::header_of(clear@) == clear_header(header)
                &&& clear@.take(packet::HEADER_SIZE as int) == packet@.take(packet::HEADER_SIZE as int).update(
                    9,
                    packet@[9] & !ENCRYPTED_FLAG,
                )
                &&& clear@.len() == packet@.len() - if header.is_encrypted() {
                    packet::AEAD_TAIL_SIZE as int
                } else {
                    0
                }
            },
            session::is_valid(final(store)@),
    {
        proof {
            session::lemma_stores_are_valid();
        }
        let (key, root_key) = match self.load(store) {
            Ok(state) => state,
            Err(error) => {
                return Err(error);
            },
        };
        let (header, payload) = match packet::split_packet(packet) {
            Ok(parts) => parts,
            Err(error) => {
                return Err(error);
            },
        };
        let is_direct = match self.peer_id {
            Some(peer_id) => header.from_peer_id == peer_id && header.to_peer_id == self.server_peer_id,
            None => false,
        };
        if !is_direct {
            return Err(EdgeError::NotDirect);
        }
        if !header.encrypted() {
            proof {
                lemma_clear_flags(header.flags);
                lemma_clear_header(packet@);
            }
            return Ok(vstd::slice::slice_to_vec(packet));
        }
        let algorithm = match &self.client_algorithm {
            Some(algorithm) => algorithm.clone(),
            None => "aes-gcm".to_string(),
        };
        let direction: usize = crypto::direction_index(header.from_peer_id, header.to_peer_id);
        let result = self.traffic.decrypt_payload(&root_key, algorithm.as_str(), direction, payload, clock_ms);
        match store.persist_session_state(&key, self.traffic, clock_ms) {
            Ok(()) => {},
            Err(error) => {
                return Err(error);
            },
        }
        match result {
            Ok(Some(plaintext)) => {
                let ghost encrypted = header;
                let mut header = header;
                header.flags = header.flags & !ENCRYPTED_FLAG;
                let joined = packet::join_header_payload(header, &plaintext);
                proof {
                    law_decrypted_packet_is_clear(encrypted, plaintext@);
                    lemma_clear_header(packet@);
                    packet::law_header_round_trip(header, plaintext@);
                    assert(joined@.take(packet::HEADER_SIZE as int) =~= header.encoded());
                }
                Ok(joined)
            },
            Ok(None) => {
                let nothing: Vec<u8> = Vec::new();
                assert(nothing@ =~= Seq::<u8>::empty());
                Ok(nothing)
            },
            Err(error) => Err(error),
        }
    }

    /// Encrypts a packet that the relay sends to the peer.
    pub fn encrypt_packet(&mut self, store: &mut SessionStore, packet: &[u8], clock_ms: u64) -> (r: Result<
        Vec<u8>,
        EdgeError,
    >)
        ensures
            (final(self)@, final(store)@, traffic::text_view(r)) == packet_encrypted(
                old(self)@,
                old(store)@,
                packet@,
                clock_ms,
            ),
            r matches Ok(encrypted) ==> {
                let payload = encrypted@.skip(packet::HEADER_SIZE as int);
                let header = packet::header_of(packet@);
                &&& packet::is_packet(encrypted@)
                &&& packet::header_of(encrypted@) == encrypted_header(header)
                &&& traffic::opened_payload(
                    final(self)@.root_key->0,
                    "aes-gcm"@,
                    crypto::direction_of(header.from_peer_id, header.to_peer_id) as u8,
                    payload,
                ) == Ok::<Seq<u8>, EdgeError>(packet@.skip(packet::HEADER_SIZE as int))
            },
            session::is_valid(final(store)@),
    {
        proof {
            session::lemma_stores_are_valid();
        }
        let (key, root_key) = match self.load(store) {
            Ok(state) => state,
            Err(error) => {
                return Err(error);
            },
        };
        let (header, payload) = match packet::split_packet(packet) {
            Ok(parts) => parts,
            Err(error) => {
                return Err(error);
            },
        };
        let is_direct = match self.peer_id {
            Some(peer_id) => header.from_peer_id == self.server_peer_id && header.to_peer_id == peer_id,
            None => false,
        };
        if !is_direct {
            return Err(EdgeError::NotDirect);
        }
        if header.encrypted() {
            return Err(EdgeError::AlreadyEncrypted);
        }
        let direction: usize = crypto::direction_index(header.from_peer_id, header.to_peer_id);
        let result = self.traffic.encrypt_payload(&root_key, "aes-gcm", direction, payload, clock_ms);
        match store.persist_session_state(&key, self.traffic, clock_ms) {
            Ok(()) => {},
            Err(error) => {
                return Err(error);
            },
        }
        match result {
            Ok(encrypted) => {
                let ghost clear = header;
                let mut header = header;
                header.flags = header.flags | ENCRYPTED_FLAG;
                let joined = packet::join_header_payload(header, &encrypted);
                proof {
                    lemma_flags(clear.flags);
                    packet::law_join_split(header, encrypted@);
                }
                Ok(joined)
            },
            Err(error) => Err(error),
        }
    }
}

/// Setting and clearing the flag of encryption.
proof fn lemma_flags(flags: u8)
    ensures
        (flags | ENCRYPTED_FLAG) & ENCRYPTED_FLAG != 0,
        (flags & !ENCRYPTED_FLAG) & ENCRYPTED_FLAG == 0,
{
    assert((flags | 1u8) & 1u8 != 0) by (bit_vector);
    assert((flags & !1u8) & 1u8 == 0) by (bit_vector);
}

/// A flag that is not set is cleared already.
proof fn lemma_clear_flags(flags: u8)
    requires
        flags & ENCRYPTED_FLAG == 0,
    ensures
        flags & !ENCRYPTED_FLAG == flags,
{
    assert(flags & 1u8 == 0 ==> flags & !1u8 == flags) by (bit_vector);
}

/// The header of the same packet in clear differs in the byte of the flags alone.
proof fn lemma_clear_header(bytes: Seq<u8>)
    requires
        bytes.len() >= packet::HEADER_SIZE,
    ensures
        clear_header(packet::header_of(bytes)).encoded() == bytes.take(packet::HEADER_SIZE as int).update(
            9,
            bytes[9] & !ENCRYPTED_FLAG,
        ),
{
    packet::law_header_bytes_round_trip(bytes);
    let header = packet::header_of(bytes);
    packet::law_header_round_trip(header, Seq::empty());
    packet::law_header_round_trip(clear_header(header), Seq::empty());
    assert(clear_header(header).encoded() =~= header.encoded().update(9, bytes[9] & !ENCRYPTED_FLAG));
}

/// A packet that comes out of decryption is a clear packet between the same peers,
/// of the same type and hop count; nothing but the payload and the flag changed.
pub proof fn law_decrypted_packet_is_clear(header: PacketHeader, plaintext: Seq<u8>)
    requires
        plaintext.len() == header.len,
    ensures
        packet::parsed_packet(clear_header(header).encoded() + plaintext) == Ok::<PacketHeader, EdgeError>(
            clear_header(header),
        ),
        !clear_header(header).is_encrypted(),
        (clear_header(header).encoded() + plaintext).skip(packet::HEADER_SIZE as int) == plaintext,
{
    lemma_flags(header.flags);
    packet::law_join_split(clear_header(header), plaintext);
}

/// A connection that is not authenticated neither sends nor receives packets of the
/// relay.
pub proof fn law_unauthenticated_peer_has_no_packets(peer: PeerView, sessions: Sessions, bytes: Seq<u8>, clock_ms: u64)
    requires
        !peer.authenticated,
    ensures
        packet_decrypted(peer, sessions, bytes, clock_ms) == (
            peer,
            sessions,
            Err::<Seq<u8>, EdgeError>(EdgeError::NotAuthenticated),
        ),
        packet_encrypted(peer, sessions, bytes, clock_ms) == (
            peer,
            sessions,
            Err::<Seq<u8>, EdgeError>(EdgeError::NotAuthenticated),
        ),
{
}

/// Only a peer that proves to know the network secret, on this very connection, is
/// admitted.
pub proof fn law_admission_needs_the_secret(peer: PeerView, message: PeerConnNoiseMsg3, remote_key: Option<Seq<u8>>)
    requires
        msg3_obstacle(peer, message, remote_key) is None,
    ensures
        message.secret_proof_32 matches Some(proof) && proof@ == crypto::secret_proof_of(
            peer.network_secret->0,
            peer.proof_challenge->0,
        ),
        message.a_conn_id_echo == peer.a_conn_id,
        message.b_conn_id_echo == peer.b_conn_id,
{
}

/// The second message goes out once: after that, every further one is refused.
pub proof fn law_msg2_is_sent_once(
    peer: PeerView,
    sessions: Sessions,
    network_secret: Seq<char>,
    prepared: PreparedMsg2,
    encoded: Seq<u8>,
    drawn: Option<Seq<u8>>,
    clock_ms: u64,
    other_secret: Seq<char>,
)
    requires
        msg2_sent(peer, sessions, network_secret, prepared, encoded, drawn, clock_ms).2 is Ok,
        other_secret.len() > 0,
    ensures
        msg2_sent(peer, sessions, network_secret, prepared, encoded, drawn, clock_ms).0.msg2_obstacle(other_secret)
            == Some(EdgeError::Msg2AlreadyBuilt),
{
}

/// An encrypted packet that was handed on is dropped when it comes in again at once,
/// within the time for which the relay remembers an idle epoch. Left out are a newer
/// epoch that has been dropped by then, and a grace that is over by then.
pub proof fn law_repeated_packet_is_dropped(
    peer: PeerView,
    sessions: Sessions,
    bytes: Seq<u8>,
    clock_ms: u64,
    repeated_ms: u64,
)
    requires
        peer.session_key matches Some(key) && replay::is_shaped(sessions[key].traffic.rx),
        packet::header_of(bytes).is_encrypted(),
        packet_decrypted(peer, sessions, bytes, clock_ms).2 matches Ok(clear) && clear.len() > 0,
        repeated_ms - clock_ms <= replay::RX_EPOCH_IDLE_MS,
        ({
            let header = packet::header_of(bytes);
            let rx = packet_decrypted(peer, sessions, bytes, clock_ms).0.traffic.rx;
            let newer = rx.slots[crypto::direction_of(header.from_peer_id, header.to_peer_id)][0];
            &&& newer.evicted(repeated_ms) == newer
            &&& rx.grace.valid ==> repeated_ms < rx.grace.expires_at_ms
        }),
    ensures
        ({
            let (after, saved, _) = packet_decrypted(peer, sessions, bytes, clock_ms);
            packet_decrypted(after, saved, bytes, repeated_ms).2 == Ok::<Seq<u8>, EdgeError>(Seq::empty())
        }),
{
    let header = packet::header_of(bytes);
    let now = loaded(peer, sessions)->Ok_0;
    traffic::law_immediate_repeat_is_dropped(
        now.traffic,
        now.root_key->0,
        peer_algorithm(peer),
        crypto::direction_of(header.from_peer_id, header.to_peer_id),
        bytes.skip(packet::HEADER_SIZE as int),
        clock_ms,
        repeated_ms,
    );
}

/// Packets of one session leave all other sessions as they were.
pub proof fn law_sessions_are_separate(
    peer: PeerView,
    sessions: Sessions,
    bytes: Seq<u8>,
    clock_ms: u64,
    other: SessionKeyView,
)
    requires
        peer.session_key != Some(other),
    ensures
        packet_decrypted(peer, sessions, bytes, clock_ms).1.contains_key(other) <==> sessions.contains_key(other),
        packet_decrypted(peer, sessions, bytes, clock_ms).1[other] == sessions[other],
        packet_encrypted(peer, sessions, bytes, clock_ms).1.contains_key(other) <==> sessions.contains_key(other),
        packet_encrypted(peer, sessions, bytes, clock_ms).1[other] == sessions[other],
{
}

/// The connections of one session share its packet state: what one of them has sent
/// or received, every other one goes on from.
pub proof fn law_connections_share_a_session(
    peer: PeerView,
    other: PeerView,
    sessions: Sessions,
    bytes: Seq<u8>,
    clock_ms: u64,
)
    requires
        peer.session_key == other.session_key,
        loaded(peer, sessions) is Ok,
        loaded(other, sessions) is Ok,
    ensures
        ({
            let (after, saved, _) = packet_decrypted(peer, sessions, bytes, clock_ms);
            loaded(other, saved) matches Ok(now) && now.traffic == after.traffic && now.root_key == after.root_key
        }),
        ({
            let (after, saved, _) = packet_encrypted(peer, sessions, bytes, clock_ms);
            loaded(other, saved) matches Ok(now) && now.traffic == after.traffic && now.root_key == after.root_key
        }),
{
}

} // verus!
