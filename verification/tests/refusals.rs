use easytier_edge::error::{EdgeError, KeyLabel};

#[test]
fn every_refusal_has_its_words() {
    let words = [
        (EdgeError::PayloadTooLong, "packet payload exceeds the EasyTier u32 length"),
        (EdgeError::HopLimitExceeded, "EasyTier forwarding hop limit exceeded"),
        (EdgeError::NotPing, "only an EasyTier Ping packet can become Pong"),
        (EdgeError::ReportPeerMismatch, "ReportPeersRequest peer id does not match the authenticated connection"),
        (EdgeError::PeerKeyLength, "authenticated peer public key must be 32 bytes"),
        (EdgeError::PeerKeyConflict, "peer id is already bound to another authenticated public key"),
        (EdgeError::InvalidNetworkLength, "invalid network_length"),
        (EdgeError::InvalidIpv4Addr, "invalid ipv4_addr"),
        (EdgeError::UnknownField, "unknown field"),
        (EdgeError::NoiseKeyLength, "Noise public key must be 32 bytes"),
        (EdgeError::RoutePeerMismatch, "SyncRouteInfoRequest peer id does not match the authenticated connection"),
        (EdgeError::RoutePeerUnauthenticated, "route peer has no authenticated public key"),
        (EdgeError::RouteKeyMismatch, "RoutePeerInfo public key does not match the authenticated Noise identity"),
        (EdgeError::LegacyBitmapLimit, "peer does not support sparse route synchronization and the legacy bitmap limit was exceeded"),
        (EdgeError::ZeroServerPeerId, "server peer id must not be zero"),
        (EdgeError::MissingRequestDescriptor, "RPC request is missing its descriptor"),
        (EdgeError::UnknownTransaction, "RPC response does not match an outstanding transaction"),
        (EdgeError::LateResponse, "RPC response arrived after its transaction deadline"),
        (EdgeError::MissingResponseDescriptor, "RPC response is missing its descriptor"),
        (EdgeError::ResponseDescriptorMismatch, "RPC response descriptor does not match the route request"),
        (EdgeError::RouteRejected, "peer rejected the route synchronization RPC"),
        (EdgeError::EnvelopeMismatch, "RPC protobuf envelope does not match its EasyTier header"),
        (EdgeError::UnexpectedDirection, "unexpected RPC request/response direction"),
        (EdgeError::CrossNetworkDomain, "cross-network RPC domain rejected"),
        (EdgeError::CompressedRpc, "compressed RPC is not negotiated by this relay"),
        (EdgeError::InvalidFragment, "invalid fragmented RPC envelope"),
        (EdgeError::MissingFirstDescriptor, "fragmented RPC first piece is missing its descriptor"),
        (EdgeError::PieceCountChanged, "fragmented RPC changed its declared piece count"),
        (EdgeError::TooManyPendingTransactions, "too many pending fragmented RPC transactions"),
        (EdgeError::PendingPieceLimit, "pending fragmented RPC piece limit exceeded"),
        (EdgeError::PendingByteLimit, "pending fragmented RPC byte limit exceeded"),
        (EdgeError::TransactionDisappeared, "route synchronization transaction disappeared"),
        (EdgeError::TransactionIdExhausted, "failed to allocate a unique RPC transaction id"),
        (EdgeError::PublicKeyMismatch, "local_public_key does not match local_private_key"),
        (EdgeError::HandshakeStarted, "handshake already started"),
        (EdgeError::NotNoiseMsg1, "secure mode requires an unencrypted NoiseHandshakeMsg1"),
        (EdgeError::InvalidClientPeerId, "invalid or conflicting client peer id"),
        (EdgeError::UnsupportedVersion, "unsupported EasyTier secure handshake version"),
        (EdgeError::InvalidNetworkName, "invalid network_name"),
        (EdgeError::UnsupportedAlgorithm, "unsupported EasyTier encryption algorithm"),
        (EdgeError::EmptyNetworkSecret, "network_secret must not be empty"),
        (EdgeError::Msg2AlreadyBuilt, "message 2 was already built"),
        (EdgeError::Msg1NotReceived, "message 1 not received"),
        (EdgeError::Msg1HasNoNetwork, "message 1 has no network"),
        (EdgeError::Msg1HasNoAlgorithm, "message 1 has no encryption algorithm"),
        (EdgeError::InvalidMsg3Envelope, "invalid NoiseHandshakeMsg3 envelope"),
        (EdgeError::Msg2NotSent, "message 2 not sent"),
        (EdgeError::ConnectionIdMismatch, "Noise connection id echo mismatch"),
        (EdgeError::MissingProof, "client did not provide a network-secret proof"),
        (EdgeError::NoNetworkSecret, "network secret is not selected"),
        (EdgeError::NoProofChallenge, "proof challenge is missing"),
        (EdgeError::ProofRejected, "network-secret proof verification failed"),
        (EdgeError::MissingRemoteKey, "client Noise static public key is missing"),
        (EdgeError::NoSessionKey, "secure session key is missing"),
        (EdgeError::SessionLostAttaching, "secure session disappeared while attaching connection"),
        (EdgeError::AttachmentsExhausted, "secure session attachment count exhausted"),
        (EdgeError::SessionLostLoading, "secure session disappeared while loading state"),
        (EdgeError::SessionLostSaving, "secure session disappeared while saving state"),
        (EdgeError::NotAuthenticated, "secure session is not authenticated"),
        (EdgeError::NotDirect, "packet is not addressed over this direct session"),
        (EdgeError::AlreadyEncrypted, "packet is already encrypted"),
        (EdgeError::SequenceExhausted, "secure packet sequence exhausted"),
        (EdgeError::DecryptionFailed, "EasyTier session decryption failed"),
        (EdgeError::PayloadTooShort, "encrypted EasyTier payload is too short"),
        (EdgeError::AlgorithmChanged, "reconnecting peer changed its secure-session encryption algorithm"),
        (EdgeError::SessionCapacityExceeded, "secure peer session capacity exceeded"),
        (EdgeError::SessionLostAuthenticating, "secure session disappeared during authentication"),
        (EdgeError::RemoteKeyChanged, "reconnecting peer changed its Noise static public key"),
    ];
    for (error, expected) in words {
        assert_eq!(error.message(), expected);
    }
}

#[test]
fn numbers_are_part_of_the_words() {
    let words = [
        (EdgeError::HeaderTooShort { len: 0 }, "header too short: 0 < 16"),
        (
            EdgeError::PayloadLengthMismatch { payload_len: 10, expected_len: 4_294_967_323 },
            "payload length mismatch: 10 != 4294967323",
        ),
        (
            EdgeError::RouteSyncFailed { code: -2_147_483_648 },
            "peer returned route synchronization error -2147483648",
        ),
        (
            EdgeError::RouteSyncFailed { code: 7 },
            "peer returned route synchronization error 7",
        ),
        (EdgeError::KeyNotBase64 { label: KeyLabel::Private }, "local_private_key is not valid base64"),
        (
            EdgeError::KeyWrongLength { label: KeyLabel::Public, len: 100 },
            "local_public_key must decode to 32 bytes, got 100",
        ),
    ];
    for (error, expected) in words {
        assert_eq!(error.message(), expected);
    }
}

#[test]
fn outside_errors_speak_for_themselves() {
    assert_eq!(EdgeError::Noise(snow::Error::Decrypt).message(), snow::Error::Decrypt.to_string());
    assert_eq!(
        EdgeError::Random(getrandom::Error::UNSUPPORTED).message(),
        getrandom::Error::UNSUPPORTED.to_string()
    );
}
