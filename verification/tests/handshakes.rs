use easytier_edge::crypto::{decode_key, open, seal, secret_proof, traffic_key};
use easytier_edge::error::{EdgeError, KeyLabel};
use easytier_edge::packet::{build_packet, parse_packet};
use easytier_edge::proto::{PeerConnNoiseMsg1, PeerConnNoiseMsg2, PeerConnNoiseMsg3, SessionAction, Uuid};
use easytier_edge::secure::AuthInfo;
use easytier_edge::session::{SessionKey, SessionStore};
use easytier_edge::traffic::{frame_payload, packet_nonce};
use easytier_edge::SecurePeer;

const PRIVATE: &str = "AQIDBAUGBwgJCgsMDQ4PEBESExQVFhcYGRobHB0eHyA=";
const PUBLIC: &str = "B6N8vBQgk8i3VdwbEOhstCY3StFqqFPtC9/AsrhtHHw=";
const OTHER_PRIVATE: &str = "BwcHBwcHBwcHBwcHBwcHBwcHBwcHBwcHBwcHBwcHBwc=";
const OTHER_PUBLIC: &str = "E75P6uryBMf9M1j8nAByGIHRdCeBKCJ+xnTzf3/pe20=";

const SERVER: u32 = 10_000_001;
const PEER: u32 = 7;
const A_CONN: Uuid = Uuid { part1: 1, part2: 2, part3: 3, part4: 4 };

fn relay() -> SecurePeer {
    SecurePeer::new(PRIVATE, PUBLIC, SERVER, 1_000).unwrap()
}

fn client(private: u8) -> snow::HandshakeState {
    snow::Builder::new("Noise_XX_25519_ChaChaPoly_SHA256".parse().unwrap())
        .prologue(b"easytier-peerconn-noise")
        .unwrap()
        .local_private_key(&[private; 32])
        .unwrap()
        .build_initiator()
        .unwrap()
}

fn write(state: &mut snow::HandshakeState, payload: &[u8]) -> Vec<u8> {
    let mut message = vec![0; 4096];
    let len = state.write_message(payload, &mut message).unwrap();
    message.truncate(len);
    message
}

fn read(state: &mut snow::HandshakeState, message: &[u8]) -> Vec<u8> {
    let mut payload = vec![0; 4096];
    let len = state.read_message(message, &mut payload).unwrap();
    payload.truncate(len);
    payload
}

fn msg1(generation: Option<u32>, algorithm: &str) -> PeerConnNoiseMsg1 {
    PeerConnNoiseMsg1 {
        version: 1,
        a_network_name: "office".to_string(),
        a_session_generation: generation,
        a_conn_id: Some(A_CONN),
        client_encryption_algorithm: algorithm.to_string(),
    }
}

struct Connection {
    peer: SecurePeer,
    noise: snow::HandshakeState,
    reply: PeerConnNoiseMsg2,
    challenge: Vec<u8>,
    first_challenge: Vec<u8>,
}

/// The first two messages of a handshake.
fn greet(store: &mut SessionStore, generation: Option<u32>, algorithm: &str, private: u8) -> Connection {
    let mut peer = relay();
    let mut noise = client(private);
    let packet = build_packet(PEER, SERVER, 13, &write(&mut noise, b"hello")).unwrap();
    let opened = peer.open_msg1(&packet).unwrap();
    assert_eq!((opened.peer_id, opened.payload.as_slice()), (PEER, &b"hello"[..]));
    let info = peer.read_msg1(opened, msg1(generation, algorithm)).unwrap();
    assert_eq!(info.peer_id, PEER);
    assert_eq!(info.network_name, "office");
    assert_eq!(info.client_encryption_algorithm, algorithm);
    let first_challenge = noise.get_handshake_hash().to_vec();
    let prepared = peer.prepare_msg2(store, "secret", 2_000).unwrap();
    let reply = PeerConnNoiseMsg2 {
        b_network_name: prepared.message.b_network_name.clone(),
        role_hint: prepared.message.role_hint,
        action: prepared.message.action,
        b_session_generation: prepared.message.b_session_generation,
        root_key_32: Some(prepared.session_root_key.to_vec()),
        initial_epoch: prepared.message.initial_epoch,
        b_conn_id: prepared.message.b_conn_id,
        a_conn_id_echo: prepared.message.a_conn_id_echo,
        secret_proof_32: prepared.message.secret_proof_32.clone(),
        server_encryption_algorithm: prepared.message.server_encryption_algorithm.clone(),
    };
    let packet = peer.build_msg2(store, "secret", prepared, b"answer", 2_000).unwrap();
    assert_eq!(&packet[..4], &SERVER.to_le_bytes());
    assert_eq!(&packet[4..8], &PEER.to_le_bytes());
    assert_eq!((packet[8], packet[9], packet[10]), (14, 0, 1));
    assert_eq!(read(&mut noise, &packet[16..]), b"answer");
    let challenge = noise.get_handshake_hash().to_vec();
    Connection { peer, noise, reply, challenge, first_challenge }
}

fn msg3(connection: &Connection, secret: &[u8]) -> PeerConnNoiseMsg3 {
    PeerConnNoiseMsg3 {
        a_conn_id_echo: Some(A_CONN),
        b_conn_id_echo: connection.reply.b_conn_id,
        secret_proof_32: Some(secret_proof(secret, &connection.challenge)),
    }
}

fn finish(
    connection: &mut Connection,
    store: &mut SessionStore,
    message: &PeerConnNoiseMsg3,
) -> Result<AuthInfo, EdgeError> {
    let packet = build_packet(PEER, SERVER, 15, &write(&mut connection.noise, b"bye")).unwrap();
    let opened = connection.peer.open_msg3(&packet)?;
    assert_eq!(opened.payload, b"bye");
    connection.peer.finish_msg3(store, &opened.handshake, message, 3_000)
}

fn connect(store: &mut SessionStore, generation: Option<u32>, algorithm: &str) -> Connection {
    let mut connection = greet(store, generation, algorithm, 7);
    let message = msg3(&connection, b"secret");
    finish(&mut connection, store, &message).unwrap();
    connection
}

fn root_key(connection: &Connection) -> [u8; 32] {
    connection.reply.root_key_32.clone().unwrap().try_into().unwrap()
}

/// A packet that the client encrypts for the relay.
fn client_packet(connection: &Connection, algorithm: &str, epoch: u32, sequence: u64, text: &[u8]) -> Vec<u8> {
    let nonce = packet_nonce(epoch, sequence);
    let key = traffic_key(&root_key(connection), epoch, 0);
    let (ciphertext, tag) = seal(algorithm, &key, &nonce, text).unwrap();
    let mut packet = build_packet(PEER, SERVER, 8, &frame_payload(ciphertext, &tag, &nonce)).unwrap();
    packet[9] = 1;
    packet[12..16].copy_from_slice(&(text.len() as u32).to_le_bytes());
    packet
}

#[test]
fn keys_must_belong_together() {
    assert!(SecurePeer::new(OTHER_PRIVATE, OTHER_PUBLIC, SERVER, 0).is_ok());
    assert_eq!(
        SecurePeer::new(PRIVATE, OTHER_PUBLIC, SERVER, 0).err(),
        Some(EdgeError::PublicKeyMismatch)
    );
    assert_eq!(SecurePeer::new("x", "y", 0, 0).err(), Some(EdgeError::ZeroServerPeerId));
    assert_eq!(
        SecurePeer::new("x", "y", 1, 0).err(),
        Some(EdgeError::KeyNotBase64 { label: KeyLabel::Private })
    );
    assert_eq!(
        SecurePeer::new(PRIVATE, "AQID", 1, 0).err(),
        Some(EdgeError::KeyWrongLength { label: KeyLabel::Public, len: 3 })
    );
    assert_eq!(
        SecurePeer::with_keys([1; 32], [2; 32], &[3; 32], 1, 0).err(),
        Some(EdgeError::PublicKeyMismatch)
    );
}

#[test]
fn handshake_authenticates_the_peer() {
    let mut store = SessionStore::new();
    let mut connection = greet(&mut store, None, "aes-gcm", 7);
    assert!(!connection.peer.is_authenticated());
    assert_eq!(connection.reply.action, SessionAction::Create);
    assert_eq!(connection.reply.b_network_name, "office");
    assert_eq!(connection.reply.role_hint, 1);
    assert_eq!(connection.reply.a_conn_id_echo, Some(A_CONN));
    assert_eq!(connection.reply.server_encryption_algorithm, "aes-gcm");
    assert_eq!(
        connection.reply.secret_proof_32,
        Some(secret_proof(b"secret", &connection.first_challenge))
    );
    let message = msg3(&connection, b"secret");
    let info = finish(&mut connection, &mut store, &message).unwrap();
    assert!(connection.peer.is_authenticated());
    assert_eq!(info.peer_id, PEER);
    assert_eq!(info.network_name, "office");
    assert_eq!(info.remote_public_key_base64, OTHER_PUBLIC);
    assert_eq!(info.auth_level, "NetworkSecretConfirmed");
}

#[test]
fn wrong_secret_is_refused() {
    let mut store = SessionStore::new();
    let mut connection = greet(&mut store, None, "aes-gcm", 7);
    let message = msg3(&connection, b"guess");
    assert_eq!(
        finish(&mut connection, &mut store, &message).unwrap_err(),
        EdgeError::ProofRejected
    );
    assert!(!connection.peer.is_authenticated());
    let packet = build_packet(SERVER, PEER, 8, b"x").unwrap();
    assert_eq!(
        connection.peer.encrypt_packet(&mut store, &packet, 3_000),
        Err(EdgeError::NotAuthenticated)
    );
}

#[test]
fn third_message_must_fit_the_connection() {
    let mut store = SessionStore::new();
    let mut connection = greet(&mut store, None, "aes-gcm", 7);
    let mut message = msg3(&connection, b"secret");
    message.b_conn_id_echo = None;
    assert_eq!(
        finish(&mut connection, &mut store, &message).unwrap_err(),
        EdgeError::ConnectionIdMismatch
    );
    let mut connection = greet(&mut store, None, "aes-gcm", 7);
    let mut message = msg3(&connection, b"secret");
    message.secret_proof_32 = None;
    assert_eq!(
        finish(&mut connection, &mut store, &message).unwrap_err(),
        EdgeError::MissingProof
    );
    let message = msg3(&connection, b"secret");
    assert_eq!(
        connection.peer.confirm_peer(&mut store, &message, None, 0).unwrap_err(),
        EdgeError::MissingRemoteKey
    );
    assert_eq!(
        connection.peer.confirm_peer(&mut store, &message, Some(vec![1; 31]), 0).unwrap_err(),
        EdgeError::MissingRemoteKey
    );
    let packet = build_packet(PEER, SERVER, 15, b"late").unwrap();
    assert_eq!(connection.peer.open_msg3(&packet).err(), Some(EdgeError::Msg2NotSent));
    let packet = build_packet(8, SERVER, 15, b"other").unwrap();
    assert_eq!(
        connection.peer.open_msg3(&packet).err(),
        Some(EdgeError::InvalidMsg3Envelope)
    );
    assert_eq!(
        connection.peer.open_msg3(&packet[..5]).err(),
        Some(EdgeError::HeaderTooShort { len: 5 })
    );
}

#[test]
fn first_message_is_checked() {
    let peer = relay();
    let mut noise = client(7);
    let message = write(&mut noise, b"hello");
    let wrong_type = build_packet(PEER, SERVER, 14, &message).unwrap();
    assert_eq!(peer.open_msg1(&wrong_type).err(), Some(EdgeError::NotNoiseMsg1));
    for sender in [0, SERVER] {
        let packet = build_packet(sender, SERVER, 13, &message).unwrap();
        assert_eq!(peer.open_msg1(&packet).err(), Some(EdgeError::InvalidClientPeerId));
    }
    let short = build_packet(PEER, SERVER, 13, &message[..20]).unwrap();
    assert_eq!(peer.open_msg1(&short).err(), Some(EdgeError::Noise(snow::Error::Input)));
}

#[test]
fn first_message_names_network_and_cipher() {
    let mut store = SessionStore::new();
    let mut noise = client(7);
    let packet = build_packet(PEER, SERVER, 13, &write(&mut noise, b"hello")).unwrap();
    let mut peer = relay();
    let mut refused = |change: &dyn Fn(&mut PeerConnNoiseMsg1)| {
        let opened = peer.open_msg1(&packet).unwrap();
        let mut message = msg1(None, "aes-gcm");
        change(&mut message);
        peer.read_msg1(opened, message).unwrap_err()
    };
    assert_eq!(refused(&|message| message.version = 2), EdgeError::UnsupportedVersion);
    assert_eq!(
        refused(&|message| message.a_network_name = String::new()),
        EdgeError::InvalidNetworkName
    );
    assert_eq!(
        refused(&|message| message.a_network_name = "n".repeat(256)),
        EdgeError::InvalidNetworkName
    );
    assert_eq!(
        refused(&|message| message.client_encryption_algorithm = "xor".to_string()),
        EdgeError::UnsupportedAlgorithm
    );
    let mut long = msg1(None, "aes-gcm");
    long.a_network_name = "é".repeat(127);
    let opened = peer.open_msg1(&packet).unwrap();
    assert!(peer.read_msg1(opened, long).is_ok());
    assert_eq!(peer.open_msg1(&packet).err(), Some(EdgeError::HandshakeStarted));
    assert_eq!(
        peer.prepare_msg2(&mut store, "", 0).err(),
        Some(EdgeError::EmptyNetworkSecret)
    );
}

#[test]
fn second_message_follows_the_first() {
    let mut store = SessionStore::new();
    let peer = relay();
    assert_eq!(
        peer.prepare_msg2(&mut store, "secret", 0).err(),
        Some(EdgeError::Msg1NotReceived)
    );
    let mut peer = relay();
    let packet = build_packet(PEER, SERVER, 15, b"early").unwrap();
    assert_eq!(peer.open_msg3(&packet).err(), Some(EdgeError::Msg1NotReceived));
    let connection = greet(&mut store, None, "aes-gcm", 7);
    assert_eq!(
        connection.peer.prepare_msg2(&mut store, "secret", 0).err(),
        Some(EdgeError::Msg2AlreadyBuilt)
    );
}

#[test]
fn client_packets_are_decrypted_once() {
    for algorithm in ["aes-gcm", "aes-256-gcm", "ChaCha20"] {
        let mut store = SessionStore::new();
        let mut connection = connect(&mut store, None, algorithm);
        let packet = client_packet(&connection, algorithm, 0, 0, b"route");
        let clear = connection.peer.decrypt_packet(&mut store, &packet, 4_000).unwrap();
        assert_eq!(clear, build_packet(PEER, SERVER, 8, b"route").unwrap());
        let again = connection.peer.decrypt_packet(&mut store, &packet, 4_000).unwrap();
        assert!(again.is_empty());
        assert_eq!(connection.peer.decrypt_packet(&mut store, &clear, 4_000), Ok(clear.clone()));
    }
}

#[test]
fn relay_packets_are_encrypted_for_the_peer() {
    let mut store = SessionStore::new();
    let mut connection = connect(&mut store, None, "chacha20");
    let packet = build_packet(SERVER, PEER, 8, b"update").unwrap();
    let encrypted = connection.peer.encrypt_packet(&mut store, &packet, 4_000).unwrap();
    assert_eq!(encrypted[9], 1);
    assert_eq!(encrypted.len(), packet.len() + 28);
    assert_eq!(&encrypted[10..16], &packet[10..16]);
    let nonce: [u8; 12] = encrypted[encrypted.len() - 12..].try_into().unwrap();
    assert_eq!(nonce, packet_nonce(0, 0));
    let tag: [u8; 16] = encrypted[encrypted.len() - 28..encrypted.len() - 12].try_into().unwrap();
    let key = traffic_key(&root_key(&connection), 0, 1);
    assert_eq!(
        open("aes-gcm", &key, &nonce, &encrypted[16..encrypted.len() - 28], &tag),
        Ok(b"update".to_vec())
    );
    assert_eq!(
        connection.peer.encrypt_packet(&mut store, &encrypted, 4_000),
        Err(EdgeError::AlreadyEncrypted)
    );
    let forwarded = build_packet(8, PEER, 8, b"x").unwrap();
    assert_eq!(
        connection.peer.encrypt_packet(&mut store, &forwarded, 4_000),
        Err(EdgeError::NotDirect)
    );
    assert_eq!(
        connection.peer.decrypt_packet(&mut store, &forwarded, 4_000),
        Err(EdgeError::NotDirect)
    );
}

#[test]
fn reconnecting_peer_joins_its_session() {
    let mut store = SessionStore::new();
    let mut first = connect(&mut store, None, "aes-gcm");
    let packet = client_packet(&first, "aes-gcm", 0, 0, b"route");
    assert!(!first.peer.decrypt_packet(&mut store, &packet, 4_000).unwrap().is_empty());
    let mut second = connect(&mut store, Some(1), "aes-gcm");
    assert_eq!(second.reply.action, SessionAction::Join);
    assert_eq!(root_key(&second), root_key(&first));
    assert!(second.peer.decrypt_packet(&mut store, &packet, 4_000).unwrap().is_empty());
    let next = client_packet(&first, "aes-gcm", 0, 1, b"more");
    assert!(!second.peer.decrypt_packet(&mut store, &next, 4_000).unwrap().is_empty());
    assert!(first.peer.decrypt_packet(&mut store, &next, 4_000).unwrap().is_empty());
}

#[test]
fn reconnecting_peer_keeps_its_key() {
    let mut store = SessionStore::new();
    connect(&mut store, None, "aes-gcm");
    let mut other = greet(&mut store, Some(1), "aes-gcm", 9);
    let message = msg3(&other, b"secret");
    assert_eq!(
        finish(&mut other, &mut store, &message).unwrap_err(),
        EdgeError::RemoteKeyChanged
    );
}

fn session_key() -> SessionKey {
    SessionKey {
        network_name: "office".to_string(),
        peer_id: PEER,
        server_peer_id: SERVER,
        server_public_key: decode_key(PUBLIC, KeyLabel::Public).unwrap(),
    }
}

#[test]
fn forgetful_peer_synchronizes_its_session() {
    let mut store = SessionStore::new();
    let mut first = connect(&mut store, None, "aes-gcm");
    let packet = client_packet(&first, "aes-gcm", 0, 0, b"route");
    assert!(!first.peer.decrypt_packet(&mut store, &packet, 4_000).unwrap().is_empty());
    let mut second = connect(&mut store, None, "aes-gcm");
    assert_eq!(second.reply.action, SessionAction::Sync);
    assert_eq!(second.reply.initial_epoch, 1);
    assert_eq!(root_key(&second), root_key(&first));
    let packet = client_packet(&second, "aes-gcm", 1, 0, b"route");
    assert!(!second.peer.decrypt_packet(&mut store, &packet, 4_000).unwrap().is_empty());
}

#[test]
fn detached_session_ends() {
    let mut store = SessionStore::new();
    let first = connect(&mut store, None, "aes-gcm");
    let mut second = connect(&mut store, Some(1), "aes-gcm");
    first.peer.detach(&mut store, 5_000);
    let packet = build_packet(SERVER, PEER, 8, b"x").unwrap();
    assert!(second.peer.encrypt_packet(&mut store, &packet, 100_000).is_ok());
    second.peer.detach(&mut store, 100_000);
    assert!(matches!(store.reuse_session(&session_key(), Some(1), "aes-gcm", 159_999), Ok(Some(_))));
    assert!(matches!(store.reuse_session(&session_key(), Some(1), "aes-gcm", 219_999), Ok(None)));
}

#[test]
fn failures_in_a_row_are_reported() {
    let mut store = SessionStore::new();
    let mut connection = connect(&mut store, None, "aes-gcm");
    let mut broken = client_packet(&connection, "aes-gcm", 0, 0, b"route");
    broken[16] ^= 1;
    for _ in 0..9 {
        assert_eq!(
            connection.peer.decrypt_packet(&mut store, &broken, 4_000),
            Ok(vec![])
        );
    }
    assert_eq!(
        connection.peer.decrypt_packet(&mut store, &broken, 4_000),
        Err(EdgeError::DecryptionFailed)
    );
}

#[test]
fn second_message_is_sent_once() {
    let mut store = SessionStore::new();
    let mut peer = relay();
    let mut noise = client(7);
    let packet = build_packet(PEER, SERVER, 13, &write(&mut noise, b"hello")).unwrap();
    let opened = peer.open_msg1(&packet).unwrap();
    peer.read_msg1(opened, msg1(None, "aes-gcm")).unwrap();
    let kept = peer.prepare_msg2(&mut store, "secret", 0).unwrap();
    let unused = peer.prepare_msg2(&mut store, "secret", 0).unwrap();
    let prepared = peer.prepare_msg2(&mut store, "secret", 0).unwrap();
    assert_eq!(
        relay().build_msg2(&mut store, "secret", unused, b"answer", 0),
        Err(EdgeError::Msg1NotReceived)
    );
    let unused = peer.prepare_msg2(&mut store, "secret", 0).unwrap();
    assert_eq!(
        peer.build_msg2(&mut store, "", unused, b"answer", 0),
        Err(EdgeError::EmptyNetworkSecret)
    );
    let packet = peer.build_msg2(&mut store, "secret", prepared, b"answer", 0).unwrap();
    assert_eq!(read(&mut noise, &packet[16..]), b"answer");
    assert_eq!(
        peer.build_msg2(&mut store, "secret", kept, b"again", 0),
        Err(EdgeError::Msg2AlreadyBuilt)
    );
}

#[test]
fn second_message_must_fit_its_room() {
    let mut store = SessionStore::new();
    let mut peer = relay();
    let mut noise = client(7);
    let packet = build_packet(PEER, SERVER, 13, &write(&mut noise, b"hello")).unwrap();
    let opened = peer.open_msg1(&packet).unwrap();
    peer.read_msg1(opened, msg1(None, "aes-gcm")).unwrap();
    let prepared = peer.prepare_msg2(&mut store, "secret", 0).unwrap();
    assert_eq!(
        peer.build_msg2(&mut store, "secret", prepared, &[0; 5_000], 0),
        Err(EdgeError::Noise(snow::Error::Input))
    );
}

#[test]
fn decrypted_packet_is_a_packet() {
    let mut store = SessionStore::new();
    let mut connection = connect(&mut store, None, "aes-gcm");
    let packet = client_packet(&connection, "aes-gcm", 0, 0, b"route");
    let clear = connection.peer.decrypt_packet(&mut store, &packet, 4_000).unwrap();
    assert_eq!(clear.len(), packet.len() - 28);
    assert_eq!(clear[..9], packet[..9]);
    assert_eq!(clear[9], 0);
    assert_eq!(clear[10..16], packet[10..16]);
    assert_eq!(parse_packet(&clear).unwrap().len, 5);
    assert_eq!(connection.peer.decrypt_packet(&mut store, &packet, 34_000), Ok(vec![]));
}

#[test]
fn packets_of_a_session_have_their_own_nonces() {
    let mut store = SessionStore::new();
    let mut one = connect(&mut store, None, "aes-gcm");
    let packet = build_packet(SERVER, PEER, 8, b"update").unwrap();
    let nonce = |encrypted: Vec<u8>| encrypted[encrypted.len() - 12..].to_vec();
    let first = nonce(one.peer.encrypt_packet(&mut store, &packet, 4_000).unwrap());
    let second = nonce(one.peer.encrypt_packet(&mut store, &packet, 4_000).unwrap());
    let mut two = connect(&mut store, Some(1), "aes-gcm");
    let third = nonce(two.peer.encrypt_packet(&mut store, &packet, 4_000).unwrap());
    let fourth = nonce(one.peer.encrypt_packet(&mut store, &packet, 4_000).unwrap());
    let mut three = connect(&mut store, None, "aes-gcm");
    let fifth = nonce(three.peer.encrypt_packet(&mut store, &packet, 4_000).unwrap());
    let sixth = nonce(one.peer.encrypt_packet(&mut store, &packet, 4_000).unwrap());
    assert_eq!(first, packet_nonce(0, 0));
    assert_eq!(second, packet_nonce(0, 1));
    assert_eq!(third, packet_nonce(0, 2));
    assert_eq!(fourth, packet_nonce(0, 3));
    assert_eq!(fifth, packet_nonce(1, 0));
    assert_eq!(sixth, packet_nonce(1, 1));
}
