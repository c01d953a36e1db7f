//! Why a request or a packet is refused.
use vstd::prelude::*;
use vstd::string::StringExecFns;

use crate::text;

verus! {

/// Errors of the operating system's random source.
#[verifier::external_type_specification]
#[verifier::external_body]
pub struct ExRandomError(getrandom::Error);

/// Errors of the Noise implementation.
#[verifier::external_type_specification]
#[verifier::external_body]
pub struct ExNoiseError(snow::Error);

/// Which of the relay's two keys is meant.
#[derive(Debug, Clone, Copy, PartialEq, Eq, Structural)]
pub enum KeyLabel {
    Private,
    Public,
}

/// Why a request or a packet is refused.
#[derive(Debug, PartialEq)]
pub enum EdgeError {
    /// A packet that is shorter than a header.
    HeaderTooShort { len: usize },
    /// A packet whose length field does not match its length.
    PayloadLengthMismatch { payload_len: usize, expected_len: u64 },
    /// The peer answered with a route synchronization error.
    RouteSyncFailed { code: i32 },
    /// A configured key that is not Base64.
    KeyNotBase64 { label: KeyLabel },
    /// A configured key of the wrong length.
    KeyWrongLength { label: KeyLabel, len: usize },
    /// The operating system gave no random bytes.
    Random(getrandom::Error),
    /// The Noise implementation refused.
    Noise(snow::Error),
    /// A payload whose length does not fit the length field.
    PayloadTooLong,
    /// A packet that was forwarded too often.
    HopLimitExceeded,
    /// A packet other than a Ping where a Ping is answered.
    NotPing,
    /// A peer report in the name of another peer.
    ReportPeerMismatch,
    /// A peer key of the wrong length.
    PeerKeyLength,
    /// A peer id that another key holds.
    PeerKeyConflict,
    /// A network length that is not a number.
    InvalidNetworkLength,
    /// An address that is not a number.
    InvalidIpv4Addr,
    /// A name that is not one of the settable fields.
    UnknownField,
    /// A relay key of the wrong length.
    NoiseKeyLength,
    /// A route synchronization in the name of another peer.
    RoutePeerMismatch,
    /// Route information of a peer without a bound key.
    RoutePeerUnauthenticated,
    /// Route information under a key other than the bound one.
    RouteKeyMismatch,
    /// More peers than the connection bitmap may cover.
    LegacyBitmapLimit,
    /// A relay without a peer id.
    ZeroServerPeerId,
    /// A request that names no service.
    MissingRequestDescriptor,
    /// A response that nobody waits for.
    UnknownTransaction,
    /// A response after the deadline.
    LateResponse,
    /// A response that names no service.
    MissingResponseDescriptor,
    /// A response of another service.
    ResponseDescriptorMismatch,
    /// A response that carries an RPC error.
    RouteRejected,
    /// An RPC packet between other peers.
    EnvelopeMismatch,
    /// A request where a response is due, or the reverse.
    UnexpectedDirection,
    /// An RPC packet of another network.
    CrossNetworkDomain,
    /// A compressed RPC body.
    CompressedRpc,
    /// Piece numbers that make no sense.
    InvalidFragment,
    /// A first piece that names no service.
    MissingFirstDescriptor,
    /// A piece that disagrees with the earlier ones.
    PieceCountChanged,
    /// A peer with too many transactions in pieces.
    TooManyPendingTransactions,
    /// Too many declared pieces.
    PendingPieceLimit,
    /// Too many buffered bytes.
    PendingByteLimit,
    /// A response whose transaction is gone by the time it is taken in.
    TransactionDisappeared,
    /// No free transaction id among those drawn.
    TransactionIdExhausted,
    /// A public key of another private key.
    PublicKeyMismatch,
    /// A second first message.
    HandshakeStarted,
    /// A connection that does not start with message one.
    NotNoiseMsg1,
    /// A client without a peer id, or with that of the relay.
    InvalidClientPeerId,
    /// A handshake of another version.
    UnsupportedVersion,
    /// A network name that is empty or too long.
    InvalidNetworkName,
    /// An unknown encryption algorithm.
    UnsupportedAlgorithm,
    /// A network without a secret.
    EmptyNetworkSecret,
    /// A second message two.
    Msg2AlreadyBuilt,
    /// A step that needs message one.
    Msg1NotReceived,
    /// A connection without a network name.
    Msg1HasNoNetwork,
    /// A connection without an encryption algorithm.
    Msg1HasNoAlgorithm,
    /// A message three between other peers, or of another type.
    InvalidMsg3Envelope,
    /// A message three without a handshake.
    Msg2NotSent,
    /// A message three of another connection.
    ConnectionIdMismatch,
    /// A client without a proof.
    MissingProof,
    /// A connection whose network was not selected.
    NoNetworkSecret,
    /// A connection without a challenge.
    NoProofChallenge,
    /// A proof under another secret.
    ProofRejected,
    /// A handshake without a client key.
    MissingRemoteKey,
    /// A connection without a session.
    NoSessionKey,
    /// No stored session to attach to.
    SessionLostAttaching,
    /// A session with too many connections.
    AttachmentsExhausted,
    /// No stored session to load.
    SessionLostLoading,
    /// No stored session to save to.
    SessionLostSaving,
    /// A connection that did not finish its handshake.
    NotAuthenticated,
    /// A packet between other peers.
    NotDirect,
    /// An encrypted packet where a clear one is due.
    AlreadyEncrypted,
    /// A direction that used up its sequence numbers.
    SequenceExhausted,
    /// A payload that does not authenticate.
    DecryptionFailed,
    /// A payload without room for a tag and a nonce.
    PayloadTooShort,
    /// A reconnection with another algorithm.
    AlgorithmChanged,
    /// A full session store.
    SessionCapacityExceeded,
    /// No stored session to confirm.
    SessionLostAuthenticating,
    /// A reconnection under another key.
    RemoteKeyChanged,
}

impl KeyLabel {
    pub open spec fn spec_name(self) -> Seq<char> {
        match self {
            KeyLabel::Private => "private"@,
            KeyLabel::Public => "public"@,
        }
    }

    fn name(self) -> (r: &'static str)
        ensures
            r@ == self.spec_name(),
    {
        match self {
            KeyLabel::Private => "private",
            KeyLabel::Public => "public",
        }
    }
}

impl EdgeError {
    /// Whether `words` says in words what went wrong.
    pub open spec fn explained_by(self, words: String) -> bool {
        match self {
            EdgeError::HeaderTooShort { len } => words@ == "header too short: "@ + text::decimal(len as nat) + " < 16"@,
            EdgeError::PayloadLengthMismatch { payload_len, expected_len } => words@
                == "payload length mismatch: "@ + text::decimal(payload_len as nat) + " != "@ + text::decimal(
                expected_len as nat,
            ),
            EdgeError::RouteSyncFailed { code } => words@
                == "peer returned route synchronization error "@ + text::signed_decimal(code as int),
            EdgeError::KeyNotBase64 { label } => words@ == "local_"@ + label.spec_name()
                + "_key is not valid base64"@,
            EdgeError::KeyWrongLength { label, len } => words@ == "local_"@ + label.spec_name()
                + "_key must decode to 32 bytes, got "@ + text::decimal(len as nat),
            EdgeError::Random(error) => vstd::string::to_string_from_display_ensures(&error, words),
            EdgeError::Noise(error) => vstd::string::to_string_from_display_ensures(&error, words),
            EdgeError::PayloadTooLong => words@ == "packet payload exceeds the EasyTier u32 length"@,
            EdgeError::HopLimitExceeded => words@ == "EasyTier forwarding hop limit exceeded"@,
            EdgeError::NotPing => words@ == "only an EasyTier Ping packet can become Pong"@,
            EdgeError::ReportPeerMismatch => words@ == "ReportPeersRequest peer id does not match the authenticated connection"@,
            EdgeError::PeerKeyLength => words@ == "authenticated peer public key must be 32 bytes"@,
            EdgeError::PeerKeyConflict => words@ == "peer id is already bound to another authenticated public key"@,
            EdgeError::InvalidNetworkLength => words@ == "invalid network_length"@,
            EdgeError::InvalidIpv4Addr => words@ == "invalid ipv4_addr"@,
            EdgeError::UnknownField => words@ == "unknown field"@,
            EdgeError::NoiseKeyLength => words@ == "Noise public key must be 32 bytes"@,
            EdgeError::RoutePeerMismatch => words@ == "SyncRouteInfoRequest peer id does not match the authenticated connection"@,
            EdgeError::RoutePeerUnauthenticated => words@ == "route peer has no authenticated public key"@,
            EdgeError::RouteKeyMismatch => words@ == "RoutePeerInfo public key does not match the authenticated Noise identity"@,
            EdgeError::LegacyBitmapLimit => words@ == "peer does not support sparse route synchronization and the legacy bitmap limit was exceeded"@,
            EdgeError::ZeroServerPeerId => words@ == "server peer id must not be zero"@,
            EdgeError::MissingRequestDescriptor => words@ == "RPC request is missing its descriptor"@,
            EdgeError::UnknownTransaction => words@ == "RPC response does not match an outstanding transaction"@,
            EdgeError::LateResponse => words@ == "RPC response arrived after its transaction deadline"@,
            EdgeError::MissingResponseDescriptor => words@ == "RPC response is missing its descriptor"@,
            EdgeError::ResponseDescriptorMismatch => words@ == "RPC response descriptor does not match the route request"@,
            EdgeError::RouteRejected => words@ == "peer rejected the route synchronization RPC"@,
            EdgeError::EnvelopeMismatch => words@ == "RPC protobuf envelope does not match its EasyTier header"@,
            EdgeError::UnexpectedDirection => words@ == "unexpected RPC request/response direction"@,
            EdgeError::CrossNetworkDomain => words@ == "cross-network RPC domain rejected"@,
            EdgeError::CompressedRpc => words@ == "compressed RPC is not negotiated by this relay"@,
            EdgeError::InvalidFragment => words@ == "invalid fragmented RPC envelope"@,
            EdgeError::MissingFirstDescriptor => words@ == "fragmented RPC first piece is missing its descriptor"@,
            EdgeError::PieceCountChanged => words@ == "fragmented RPC changed its declared piece count"@,
            EdgeError::TooManyPendingTransactions => words@ == "too many pending fragmented RPC transactions"@,
            EdgeError::PendingPieceLimit => words@ == "pending fragmented RPC piece limit exceeded"@,
            EdgeError::PendingByteLimit => words@ == "pending fragmented RPC byte limit exceeded"@,
            EdgeError::TransactionDisappeared => words@ == "route synchronization transaction disappeared"@,
            EdgeError::TransactionIdExhausted => words@ == "failed to allocate a unique RPC transaction id"@,
            EdgeError::PublicKeyMismatch => words@ == "local_public_key does not match local_private_key"@,
            EdgeError::HandshakeStarted => words@ == "handshake already started"@,
            EdgeError::NotNoiseMsg1 => words@ == "secure mode requires an unencrypted NoiseHandshakeMsg1"@,
            EdgeError::InvalidClientPeerId => words@ == "invalid or conflicting client peer id"@,
            EdgeError::UnsupportedVersion => words@ == "unsupported EasyTier secure handshake version"@,
            EdgeError::InvalidNetworkName => words@ == "invalid network_name"@,
            EdgeError::UnsupportedAlgorithm => words@ == "unsupported EasyTier encryption algorithm"@,
            EdgeError::EmptyNetworkSecret => words@ == "network_secret must not be empty"@,
            EdgeError::Msg2AlreadyBuilt => words@ == "message 2 was already built"@,
            EdgeError::Msg1NotReceived => words@ == "message 1 not received"@,
            EdgeError::Msg1HasNoNetwork => words@ == "message 1 has no network"@,
            EdgeError::Msg1HasNoAlgorithm => words@ == "message 1 has no encryption algorithm"@,
            EdgeError::InvalidMsg3Envelope => words@ == "invalid NoiseHandshakeMsg3 envelope"@,
            EdgeError::Msg2NotSent => words@ == "message 2 not sent"@,
            EdgeError::ConnectionIdMismatch => words@ == "Noise connection id echo mismatch"@,
            EdgeError::MissingProof => words@ == "client did not provide a network-secret proof"@,
            EdgeError::NoNetworkSecret => words@ == "network secret is not selected"@,
            EdgeError::NoProofChallenge => words@ == "proof challenge is missing"@,
            EdgeError::ProofRejected => words@ == "network-secret proof verification failed"@,
            EdgeError::MissingRemoteKey => words@ == "client Noise static public key is missing"@,
            EdgeError::NoSessionKey => words@ == "secure session key is missing"@,
            EdgeError::SessionLostAttaching => words@ == "secure session disappeared while attaching connection"@,
            EdgeError::AttachmentsExhausted => words@ == "secure session attachment count exhausted"@,
            EdgeError::SessionLostLoading => words@ == "secure session disappeared while loading state"@,
            EdgeError::SessionLostSaving => words@ == "secure session disappeared while saving state"@,
            EdgeError::NotAuthenticated => words@ == "secure session is not authenticated"@,
            EdgeError::NotDirect => words@ == "packet is not addressed over this direct session"@,
            EdgeError::AlreadyEncrypted => words@ == "packet is already encrypted"@,
            EdgeError::SequenceExhausted => words@ == "secure packet sequence exhausted"@,
            EdgeError::DecryptionFailed => words@ == "EasyTier session decryption failed"@,
            EdgeError::PayloadTooShort => words@ == "encrypted EasyTier payload is too short"@,
            EdgeError::AlgorithmChanged => words@ == "reconnecting peer changed its secure-session encryption algorithm"@,
            EdgeError::SessionCapacityExceeded => words@ == "secure peer session capacity exceeded"@,
            EdgeError::SessionLostAuthenticating => words@ == "secure session disappeared during authentication"@,
            EdgeError::RemoteKeyChanged => words@ == "reconnecting peer changed its Noise static public key"@,
        }
    }

    /// What went wrong, in words.
    pub fn message(&self) -> (r: String)
        ensures
            self.explained_by(r),
    {
        match self {
            EdgeError::HeaderTooShort { len } => {
                let mut r = "header too short: ".to_string();
                r.append(text::to_decimal(*len as u64).as_str());
                r.append(" < 16");
                r
            },
            EdgeError::PayloadLengthMismatch { payload_len, expected_len } => {
                let mut r = "payload length mismatch: ".to_string();
                r.append(text::to_decimal(*payload_len as u64).as_str());
                r.append(" != ");
                r.append(text::to_decimal(*expected_len).as_str());
                r
            },
            EdgeError::RouteSyncFailed { code } => {
                let mut r = "peer returned route synchronization error ".to_string();
                r.append(text::to_signed_decimal(*code).as_str());
                r
            },
            EdgeError::KeyNotBase64 { label } => {
                let mut r = "local_".to_string();
                r.append(label.name());
                r.append("_key is not valid base64");
                r
            },
            EdgeError::KeyWrongLength { label, len } => {
                let mut r = "local_".to_string();
                r.append(label.name());
                r.append("_key must decode to 32 bytes, got ");
                r.append(text::to_decimal(*len as u64).as_str());
                r
            },
            EdgeError::Random(error) => error.to_string(),
            EdgeError::Noise(error) => error.to_string(),
            EdgeError::PayloadTooLong => "packet payload exceeds the EasyTier u32 length".to_string(),
            EdgeError::HopLimitExceeded => "EasyTier forwarding hop limit exceeded".to_string(),
            EdgeError::NotPing => "only an EasyTier Ping packet can become Pong".to_string(),
            EdgeError::ReportPeerMismatch => "ReportPeersRequest peer id does not match the authenticated connection".to_string(),
            EdgeError::PeerKeyLength => "authenticated peer public key must be 32 bytes".to_string(),
            EdgeError::PeerKeyConflict => "peer id is already bound to another authenticated public key".to_string(),
            EdgeError::InvalidNetworkLength => "invalid network_length".to_string(),
            EdgeError::InvalidIpv4Addr => "invalid ipv4_addr".to_string(),
            EdgeError::UnknownField => "unknown field".to_string(),
            EdgeError::NoiseKeyLength => "Noise public key must be 32 bytes".to_string(),
            EdgeError::RoutePeerMismatch => "SyncRouteInfoRequest peer id does not match the authenticated connection".to_string(),
            EdgeError::RoutePeerUnauthenticated => "route peer has no authenticated public key".to_string(),
            EdgeError::RouteKeyMismatch => "RoutePeerInfo public key does not match the authenticated Noise identity".to_string(),
            EdgeError::LegacyBitmapLimit => "peer does not support sparse route synchronization and the legacy bitmap limit was exceeded".to_string(),
            EdgeError::ZeroServerPeerId => "server peer id must not be zero".to_string(),
            EdgeError::MissingRequestDescriptor => "RPC request is missing its descriptor".to_string(),
            EdgeError::UnknownTransaction => "RPC response does not match an outstanding transaction".to_string(),
            EdgeError::LateResponse => "RPC response arrived after its transaction deadline".to_string(),
            EdgeError::MissingResponseDescriptor => "RPC response is missing its descriptor".to_string(),
            EdgeError::ResponseDescriptorMismatch => "RPC response descriptor does not match the route request".to_string(),
            EdgeError::RouteRejected => "peer rejected the route synchronization RPC".to_string(),
            EdgeError::EnvelopeMismatch => "RPC protobuf envelope does not match its EasyTier header".to_string(),
            EdgeError::UnexpectedDirection => "unexpected RPC request/response direction".to_string(),
            EdgeError::CrossNetworkDomain => "cross-network RPC domain rejected".to_string(),
            EdgeError::CompressedRpc => "compressed RPC is not negotiated by this relay".to_string(),
            EdgeError::InvalidFragment => "invalid fragmented RPC envelope".to_string(),
            EdgeError::MissingFirstDescriptor => "fragmented RPC first piece is missing its descriptor".to_string(),
            EdgeError::PieceCountChanged => "fragmented RPC changed its declared piece count".to_string(),
            EdgeError::TooManyPendingTransactions => "too many pending fragmented RPC transactions".to_string(),
            EdgeError::PendingPieceLimit => "pending fragmented RPC piece limit exceeded".to_string(),
            EdgeError::PendingByteLimit => "pending fragmented RPC byte limit exceeded".to_string(),
            EdgeError::TransactionDisappeared => "route synchronization transaction disappeared".to_string(),
            EdgeError::TransactionIdExhausted => "failed to allocate a unique RPC transaction id".to_string(),
            EdgeError::PublicKeyMismatch => "local_public_key does not match local_private_key".to_string(),
            EdgeError::HandshakeStarted => "handshake already started".to_string(),
            EdgeError::NotNoiseMsg1 => "secure mode requires an unencrypted NoiseHandshakeMsg1".to_string(),
            EdgeError::InvalidClientPeerId => "invalid or conflicting client peer id".to_string(),
            EdgeError::UnsupportedVersion => "unsupported EasyTier secure handshake version".to_string(),
            EdgeError::InvalidNetworkName => "invalid network_name".to_string(),
            EdgeError::UnsupportedAlgorithm => "unsupported EasyTier encryption algorithm".to_string(),
            EdgeError::EmptyNetworkSecret => "network_secret must not be empty".to_string(),
            EdgeError::Msg2AlreadyBuilt => "message 2 was already built".to_string(),
            EdgeError::Msg1NotReceived => "message 1 not received".to_string(),
            EdgeError::Msg1HasNoNetwork => "message 1 has no network".to_string(),
            EdgeError::Msg1HasNoAlgorithm => "message 1 has no encryption algorithm".to_string(),
            EdgeError::InvalidMsg3Envelope => "invalid NoiseHandshakeMsg3 envelope".to_string(),
            EdgeError::Msg2NotSent => "message 2 not sent".to_string(),
            EdgeError::ConnectionIdMismatch => "Noise connection id echo mismatch".to_string(),
            EdgeError::MissingProof => "client did not provide a network-secret proof".to_string(),
            EdgeError::NoNetworkSecret => "network secret is not selected".to_string(),
            EdgeError::NoProofChallenge => "proof challenge is missing".to_string(),
            EdgeError::ProofRejected => "network-secret proof verification failed".to_string(),
            EdgeError::MissingRemoteKey => "client Noise static public key is missing".to_string(),
            EdgeError::NoSessionKey => "secure session key is missing".to_string(),
            EdgeError::SessionLostAttaching => "secure session disappeared while attaching connection".to_string(),
            EdgeError::AttachmentsExhausted => "secure session attachment count exhausted".to_string(),
            EdgeError::SessionLostLoading => "secure session disappeared while loading state".to_string(),
            EdgeError::SessionLostSaving => "secure session disappeared while saving state".to_string(),
            EdgeError::NotAuthenticated => "secure session is not authenticated".to_string(),
            EdgeError::NotDirect => "packet is not addressed over this direct session".to_string(),
            EdgeError::AlreadyEncrypted => "packet is already encrypted".to_string(),
            EdgeError::SequenceExhausted => "secure packet sequence exhausted".to_string(),
            EdgeError::DecryptionFailed => "EasyTier session decryption failed".to_string(),
            EdgeError::PayloadTooShort => "encrypted EasyTier payload is too short".to_string(),
            EdgeError::AlgorithmChanged => "reconnecting peer changed its secure-session encryption algorithm".to_string(),
            EdgeError::SessionCapacityExceeded => "secure peer session capacity exceeded".to_string(),
            EdgeError::SessionLostAuthenticating => "secure session disappeared during authentication".to_string(),
            EdgeError::RemoteKeyChanged => "reconnecting peer changed its Noise static public key".to_string(),
        }
    }
}

} // verus!
