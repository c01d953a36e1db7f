//! What holds of the connection of a peer: who is admitted, and which packets are taken
//! and sent.
use vstd::prelude::*;

use crate::crypto;
use crate::crypto::Algorithm;
use crate::error::EdgeError;
use crate::noise;
use crate::packet;
use crate::packet::PacketHeader;
use crate::proto::{PeerConnNoiseMsg1, PeerConnNoiseMsg2, PeerConnNoiseMsg3, SessionAction, Uuid};
use crate::secure;
use crate::secure::{AuthInfo, PeerView, PreparedMsg2};
use crate::session;
use crate::session::{SelectionView, SessionKeyView, Sessions, StoredView};
use crate::text;
use crate::traffic;

verus! {

/// The first message of a connection is a clear packet of its type, from a peer that is
/// neither the relay nor nobody, on a connection on which no handshake has begun.
pub proof fn law_first_message_opens_a_connection(peer: PeerView, bytes: Seq<u8>)
    ensures
        ({
            let sender = secure::msg1_sender(peer, bytes);
            let header = packet::header_of(bytes);
            let has_begun = peer.handshake is Some || peer.authenticated;
            let is_msg1 = header.packet_type == 13 && header.flags & 1 == 0;
            let is_somebody = header.from_peer_id != 0 && header.from_peer_id != peer.server_peer_id;
            &&& sender is Ok <==> !has_begun && packet::is_packet(bytes) && is_msg1 && is_somebody
            &&& sender matches Ok(id) ==> id == header.from_peer_id
            &&& has_begun ==> sender == Err::<u32, EdgeError>(EdgeError::HandshakeStarted)
            &&& !has_begun && packet::is_packet(bytes) && !is_msg1 ==> sender == Err::<u32, EdgeError>(
                EdgeError::NotNoiseMsg1,
            )
            &&& !has_begun && packet::is_packet(bytes) && is_msg1 && !is_somebody ==> sender == Err::<u32, EdgeError>(
                EdgeError::InvalidClientPeerId,
            )
        }),
{
}

/// The first message is taken in exactly if no handshake has begun, it speaks the version of
/// the relay, names a network in one to so many bytes, and a cipher that is known. Then the
/// connection knows who the peer is and what it asks for, and nothing else changes; a
/// message that is refused changes nothing.
pub proof fn law_first_message_is_kept(
    peer: PeerView,
    sender: u32,
    handshake: snow::HandshakeState,
    message: PeerConnNoiseMsg1,
)
    ensures
        ({
            let (after, outcome) = secure::msg1_taken(peer, sender, handshake, message);
            let has_begun = peer.handshake is Some || peer.authenticated;
            let size = vstd::utf8::encode_utf8(message.a_network_name@).len();
            let is_named = 0 < size <= 255;
            let is_current = message.version == 1;
            let is_known = crypto::algorithm_of(message.client_encryption_algorithm@) is Some;
            &&& outcome is Ok <==> !has_begun && is_current && is_named && is_known
            &&& outcome is Err ==> after == peer
            &&& has_begun ==> outcome == Err::<(), EdgeError>(EdgeError::HandshakeStarted)
            &&& !has_begun && !is_current ==> outcome == Err::<(), EdgeError>(EdgeError::UnsupportedVersion)
            &&& !has_begun && is_current && !is_named ==> outcome == Err::<(), EdgeError>(
                EdgeError::InvalidNetworkName,
            )
            &&& !has_begun && is_current && is_named && !is_known ==> outcome == Err::<(), EdgeError>(
                EdgeError::UnsupportedAlgorithm,
            )
            &&& outcome is Ok ==> {
                &&& after.peer_id == Some(sender)
                &&& after.network_name == Some(message.a_network_name@)
                &&& after.client_algorithm == Some(message.client_encryption_algorithm@)
                &&& after.a_session_generation == message.a_session_generation
                &&& after.a_conn_id == message.a_conn_id
                &&& after.handshake == Some(handshake)
                &&& after.local_private == peer.local_private
                &&& after.local_public == peer.local_public
                &&& after.server_peer_id == peer.server_peer_id
                &&& after.session_key == peer.session_key
                &&& after.network_secret == peer.network_secret
                &&& after.proof_challenge == peer.proof_challenge
                &&& after.root_key == peer.root_key
                &&& after.b_conn_id == peer.b_conn_id
                &&& after.session_attached == peer.session_attached
                &&& after.traffic == peer.traffic
                &&& !after.authenticated
            }
        }),
{
}

/// The second message can be prepared exactly if a secret is given, the first message was
/// taken in, and no second message has gone out. After a first message on a new connection
/// it can.
pub proof fn law_second_message_follows_the_first(
    peer: PeerView,
    network_secret: Seq<char>,
    sender: u32,
    handshake: snow::HandshakeState,
    message: PeerConnNoiseMsg1,
)
    ensures
        peer.msg2_obstacle(network_secret) is None <==> network_secret.len() > 0 && peer.session_key is None
            && peer.peer_id is Some && peer.network_name is Some && peer.handshake is Some
            && peer.client_algorithm is Some,
        network_secret.len() == 0 <==> peer.msg2_obstacle(network_secret) == Some(EdgeError::EmptyNetworkSecret),
        network_secret.len() > 0 && peer.session_key is Some <==> peer.msg2_obstacle(network_secret) == Some(
            EdgeError::Msg2AlreadyBuilt,
        ),
        network_secret.len() > 0 && peer.session_key is None && peer.peer_id is None ==> peer.msg2_obstacle(
            network_secret,
        ) == Some(EdgeError::Msg1NotReceived),
        peer.session_key is None && network_secret.len() > 0 && secure::msg1_taken(peer, sender, handshake, message).1
            is Ok ==> secure::msg1_taken(peer, sender, handshake, message).0.msg2_obstacle(network_secret) is None,
{
}

/// The session of a peer is that of its network, its id, and the relay that it talks to.
pub proof fn law_session_belongs_to_its_ends(peer: PeerView, network_name: Seq<char>)
    requires
        peer.peer_id is Some,
    ensures
        ({
            let key = peer.session_key_in(network_name);
            &&& key.network_name == network_name
            &&& Some(key.peer_id) == peer.peer_id
            &&& key.server_peer_id == peer.server_peer_id
            &&& key.server_public_key == peer.local_public
        }),
{
}

/// The second message tells the peer all that it needs to use its session: what becomes of
/// it, its generation, the root key where the peer does not have it, and the epoch to begin
/// with. It names the network, echoes the identifier of the peer, and carries the relay's
/// own identifier and its proof of the secret.
pub proof fn law_second_message_tells_the_session(
    message: PeerConnNoiseMsg2,
    network_name: Seq<char>,
    selection: SelectionView,
    b_conn_id: Uuid,
    a_conn_id: Option<Uuid>,
    proof: Seq<u8>,
)
    requires
        secure::msg2_says(message, network_name, selection, b_conn_id, a_conn_id, proof),
    ensures
        message.b_network_name@ == network_name,
        message.action == selection.action,
        message.b_session_generation == selection.generation,
        message.root_key_32 is Some <==> selection.root_key_for_peer is Some,
        message.root_key_32 matches Some(key) ==> Some(key@) == selection.root_key_for_peer,
        message.initial_epoch == selection.initial_epoch,
        message.b_conn_id == Some(b_conn_id),
        message.a_conn_id_echo == a_conn_id,
        message.secret_proof_32 matches Some(told) && told@ == proof,
        crypto::algorithm_of(message.server_encryption_algorithm@) == Some(Algorithm::Aes128Gcm),
        message.role_hint == 1,
{
    law_cipher_names("aes-gcm"@);
    lemma_same_letters("aes-gcm"@);
}

/// A peer that is told of a new or a synchronized session gets the root key that the relay
/// will use with it; one that joins has it already.
pub proof fn law_peer_learns_the_root_key(
    sessions: Sessions,
    key: SessionKeyView,
    generation: Option<u32>,
    client_algorithm: Seq<char>,
    clock_ms: u64,
)
    ensures
        session::reused(sessions, key, generation, client_algorithm, clock_ms).1 matches Ok(Some(told)) ==> {
            let after = session::reused(sessions, key, generation, client_algorithm, clock_ms).0;
            &&& told.action == SessionAction::Join || told.action == SessionAction::Sync
            &&& told.action == SessionAction::Sync ==> told.root_key_for_peer == Some(after[key].root_key)
            &&& told.action == SessionAction::Join ==> generation == Some(after[key].generation)
        },
{
}

/// When the second message has gone out, the connection knows what the third one must say,
/// has joined its session, and goes on with the keys and the packet state of the session;
/// the peer is not admitted by that. If the session is gone or full, the connection has not
/// joined it.
pub proof fn law_second_message_joins_the_session(
    peer: PeerView,
    sessions: Sessions,
    network_secret: Seq<char>,
    prepared: PreparedMsg2,
    encoded: Seq<u8>,
    drawn: Option<Seq<u8>>,
    clock_ms: u64,
)
    ensures
        ({
            let (after, saved, outcome) = secure::msg2_sent(
                peer,
                sessions,
                network_secret,
                prepared,
                encoded,
                drawn,
                clock_ms,
            );
            let (message, handshake) = noise::message_written(peer.handshake->0, drawn, encoded);
            let key = prepared.session_key@;
            &&& after.handshake == Some(handshake)
            &&& after.authenticated == peer.authenticated
            &&& after.peer_id == peer.peer_id
            &&& after.network_name == peer.network_name
            &&& after.client_algorithm == peer.client_algorithm
            &&& after.server_peer_id == peer.server_peer_id
            &&& after.a_conn_id == peer.a_conn_id
            &&& message is Err ==> after == PeerView { handshake: Some(handshake), ..peer } && saved == sessions
                && outcome == message
            &&& message is Ok ==> {
                &&& after.session_key == Some(key)
                &&& after.network_secret == Some(vstd::utf8::encode_utf8(network_secret))
                &&& after.proof_challenge == Some(noise::noise_hash(handshake))
                &&& outcome is Ok <==> session::joined(sessions, key, clock_ms).1 is Ok
                &&& outcome is Ok ==> after.session_attached
                &&& outcome is Err ==> after.session_attached == peer.session_attached
                &&& saved == session::joined(sessions, key, clock_ms).0
                &&& outcome matches Err(error) ==> session::joined(sessions, key, clock_ms).1 == Err::<(), EdgeError>(
                    error,
                )
                &&& outcome is Ok ==> after.root_key == Some(sessions[key].root_key) && after.traffic
                    == sessions[key].traffic && after.b_conn_id == Some(prepared.b_conn_id)
                &&& outcome is Ok && message->Ok_0.len() <= u32::MAX ==> {
                    let sent = outcome->Ok_0;
                    &&& packet::is_packet(sent)
                    &&& packet::header_of(sent).from_peer_id == peer.server_peer_id
                    &&& packet::header_of(sent).to_peer_id == peer.peer_id->0
                    &&& packet::header_of(sent).packet_type == 14
                    &&& packet::header_of(sent).flags == 0
                    &&& sent.skip(packet::HEADER_SIZE as int) == message->Ok_0
                }
            }
        }),
{
    let message = noise::message_written(peer.handshake->0, drawn, encoded).0;
    if message is Ok && message->Ok_0.len() <= u32::MAX {
        packet::law_build_parse(
            peer.server_peer_id,
            peer.peer_id->0,
            14,
            message->Ok_0,
        );
    }
}

/// The proof of a network secret is the keyed hash, under the secret, of a fixed text and
/// the challenge.
pub open spec fn proof_of(secret: Seq<u8>, challenge: Seq<u8>) -> Seq<u8> {
    crypto::hmac_of(secret, vstd::utf8::encode_utf8("easytier secret proof"@) + challenge)
}

/// A third message is accepted exactly if it echoes both identifiers of the connection,
/// carries the proof of the network secret for the challenge of this very handshake, and
/// the peer has used a key of the right length, on a connection whose second message has
/// gone out.
pub proof fn law_third_message_proves_the_secret(
    peer: PeerView,
    message: PeerConnNoiseMsg3,
    remote_key: Option<Seq<u8>>,
)
    ensures
        ({
            let obstacle = secure::msg3_obstacle(peer, message, remote_key);
            let is_echoed = message.a_conn_id_echo == peer.a_conn_id && message.b_conn_id_echo == peer.b_conn_id;
            let is_asked = peer.network_secret is Some && peer.proof_challenge is Some;
            let is_proved = message.secret_proof_32 is Some && message.secret_proof_32->0@ == proof_of(
                peer.network_secret->0,
                peer.proof_challenge->0,
            );
            let has_key = remote_key is Some && remote_key->0.len() == 32;
            &&& obstacle is None <==> peer.peer_id is Some && is_echoed && is_asked && is_proved && has_key
                && peer.session_key is Some
            &&& peer.peer_id is Some && !is_echoed ==> obstacle == Some(EdgeError::ConnectionIdMismatch)
            &&& peer.peer_id is Some && is_echoed && message.secret_proof_32 is None ==> obstacle == Some(
                EdgeError::MissingProof,
            )
            &&& peer.peer_id is Some && is_echoed && message.secret_proof_32 is Some && is_asked && !is_proved
                ==> obstacle == Some(EdgeError::ProofRejected)
            &&& peer.peer_id is Some && is_echoed && is_asked && is_proved && !has_key ==> obstacle == Some(
                EdgeError::MissingRemoteKey,
            )
        }),
{
}

/// A third message that is accepted admits the peer, if its session is there and not bound
/// to another key; the session is then bound to the key of the peer. Anything else admits
/// nobody and changes nothing.
pub proof fn law_admission_binds_the_session(
    peer: PeerView,
    sessions: Sessions,
    message: PeerConnNoiseMsg3,
    remote_key: Option<Seq<u8>>,
    clock_ms: u64,
)
    ensures
        ({
            let (after, saved, outcome) = secure::msg3_taken(peer, sessions, message, remote_key, clock_ms);
            let key = peer.session_key->0;
            let is_accepted = secure::msg3_obstacle(peer, message, remote_key) is None;
            let is_free = sessions[key].remote_public_key is None || sessions[key].remote_public_key == remote_key;
            &&& outcome is Ok <==> is_accepted && sessions.contains_key(key) && is_free
            &&& outcome is Err ==> after == peer && saved == sessions
            &&& outcome is Ok ==> {
                &&& after == PeerView { authenticated: true, ..peer }
                &&& saved.contains_key(key)
                &&& saved[key] == StoredView {
                    remote_public_key: remote_key,
                    last_touch_ms: clock_ms,
                    ..sessions[key]
                }
                &&& forall|other: SessionKeyView|
                    other != key ==> (#[trigger] saved.contains_key(other) <==> sessions.contains_key(other))
                        && saved[other] == sessions[other]
            }
            &&& is_accepted && !sessions.contains_key(key) ==> outcome == Err::<(), EdgeError>(
                EdgeError::SessionLostAuthenticating,
            )
            &&& is_accepted && sessions.contains_key(key) && !is_free ==> outcome == Err::<(), EdgeError>(
                EdgeError::RemoteKeyChanged,
            )
        }),
{
}

/// A peer that knows the network secret is admitted: if the second message has gone out and
/// the peer answers with the identifiers that it was sent, and with the proof for the
/// handshake as it stood then, under a key that its session is free for. From then on
/// packets go both ways over the session.
pub proof fn law_honest_peer_is_admitted(
    peer: PeerView,
    sessions: Sessions,
    network_secret: Seq<char>,
    prepared: PreparedMsg2,
    encoded: Seq<u8>,
    drawn: Option<Seq<u8>>,
    sent_ms: u64,
    message: PeerConnNoiseMsg3,
    remote_key: Seq<u8>,
    clock_ms: u64,
)
    requires
        peer.msg2_obstacle(network_secret) is None,
        secure::msg2_sent(peer, sessions, network_secret, prepared, encoded, drawn, sent_ms).2 is Ok,
        message.a_conn_id_echo == peer.a_conn_id,
        message.b_conn_id_echo == Some(prepared.b_conn_id),
        message.secret_proof_32 matches Some(proof) && proof@ == proof_of(
            vstd::utf8::encode_utf8(network_secret),
            noise::noise_hash(noise::message_written(peer.handshake->0, drawn, encoded).1),
        ),
        remote_key.len() == 32,
        ({
            let stored = sessions[prepared.session_key@];
            stored.remote_public_key is None || stored.remote_public_key == Some(remote_key)
        }),
    ensures
        ({
            let (after, saved, _) = secure::msg2_sent(
                peer,
                sessions,
                network_secret,
                prepared,
                encoded,
                drawn,
                sent_ms,
            );
            let (admitted, bound, outcome) = secure::msg3_taken(after, saved, message, Some(remote_key), clock_ms);
            &&& outcome is Ok
            &&& admitted.authenticated
            &&& secure::loaded(admitted, bound) is Ok
            &&& secure::loaded(admitted, bound)->Ok_0.root_key == Some(sessions[prepared.session_key@].root_key)
        }),
{
}

/// A connection that has joined its session leaves it when it ends, and one that has not
/// leaves all sessions as they are.
pub proof fn law_connection_leaves_its_session(peer: PeerView, sessions: Sessions, clock_ms: u64, other: SessionKeyView)
    requires
        peer.session_key != Some(other),
    ensures
        ({
            let after = secure::ended(peer, sessions, clock_ms);
            &&& after.contains_key(other) <==> sessions.contains_key(other)
            &&& after[other] == sessions[other]
            &&& !peer.session_attached || peer.session_key is None ==> after == sessions
            &&& peer.session_attached ==> (peer.session_key matches Some(key) ==> after == session::left(
                sessions,
                key,
                clock_ms,
            ))
        }),
{
}

/// Packets go over a connection exactly if its peer was admitted and its session is there;
/// they go on from the state in which the session is kept.
pub proof fn law_packets_need_an_admitted_peer(peer: PeerView, sessions: Sessions)
    ensures
        ({
            let now = secure::loaded(peer, sessions);
            let is_ready = peer.authenticated && peer.root_key is Some;
            &&& now is Ok <==> is_ready && peer.session_key is Some && sessions.contains_key(peer.session_key->0)
            &&& !is_ready ==> now == Err::<PeerView, EdgeError>(EdgeError::NotAuthenticated)
            &&& is_ready && peer.session_key is None ==> now == Err::<PeerView, EdgeError>(EdgeError::NoSessionKey)
            &&& is_ready && peer.session_key is Some && now is Err ==> now == Err::<PeerView, EdgeError>(
                EdgeError::SessionLostLoading,
            )
            &&& now matches Ok(loaded) ==> {
                let stored = sessions[peer.session_key->0];
                loaded == PeerView { root_key: Some(stored.root_key), traffic: stored.traffic, ..peer }
            }
        }),
{
}

/// Whether a packet goes from one peer to another.
pub open spec fn goes(header: PacketHeader, from: Option<u32>, to: Option<u32>) -> bool {
    Some(header.from_peer_id) == from && Some(header.to_peer_id) == to
}

/// The relay decrypts what its peer has sent to it, and nothing else: a clear packet is
/// handed on as it is, and leaves no trace; a packet that is not between the two is
/// refused, and leaves no trace.
pub proof fn law_relay_reads_its_own_packets(
    peer: PeerView,
    sessions: Sessions,
    bytes: Seq<u8>,
    clock_ms: u64,
)
    requires
        secure::loaded(peer, sessions) is Ok,
    ensures
        ({
            let (after, saved, outcome) = secure::packet_decrypted(peer, sessions, bytes, clock_ms);
            let header = packet::header_of(bytes);
            let is_ours = goes(header, peer.peer_id, Some(peer.server_peer_id));
            let is_clear = header.flags & 1 == 0;
            &&& !packet::is_packet(bytes) ==> outcome is Err && saved == sessions
            &&& packet::is_packet(bytes) && !is_ours ==> outcome == Err::<Seq<u8>, EdgeError>(EdgeError::NotDirect)
                && saved == sessions
            &&& packet::is_packet(bytes) && is_ours && is_clear ==> outcome == Ok::<Seq<u8>, EdgeError>(bytes) && saved
                == sessions
            &&& after.authenticated == peer.authenticated
            &&& after.peer_id == peer.peer_id
            &&& after.session_key == peer.session_key
        }),
{
}

/// What the peer has encrypted for the relay is handed on in clear, as the packet that it
/// was, if it has not come in before and its epoch is not too far ahead; the session
/// remembers it.
pub proof fn law_packet_of_the_peer_arrives(
    peer: PeerView,
    sessions: Sessions,
    header: PacketHeader,
    payload: Seq<u8>,
    plaintext: Seq<u8>,
    clock_ms: u64,
)
    requires
        secure::loaded(peer, sessions) is Ok,
        goes(header, peer.peer_id, Some(peer.server_peer_id)),
        header.flags & 1 != 0,
        payload.len() == header.len + 28,
        plaintext.len() == header.len,
        ({
            let stored = sessions[peer.session_key->0];
            let algorithm = match peer.client_algorithm {
                Some(name) => name,
                None => "aes-gcm"@,
            };
            let direction = crypto::direction_of(header.from_peer_id, header.to_peer_id);
            let epoch = traffic::epoch_of(payload);
            let seq = traffic::sequence_of(payload);
            let key = crypto::traffic_key_of(stored.root_key, epoch, direction as u8);
            &&& crypto::opened_as(
                algorithm,
                key,
                traffic::nonce_part(payload),
                traffic::ciphertext_of(payload),
                traffic::tag_of(payload),
            ) == Ok::<Seq<u8>, EdgeError>(plaintext)
            &&& stored.traffic.rx.evicted(clock_ms).admits(stored.traffic.send_epoch, epoch, seq, direction)
        }),
    ensures
        ({
            let bytes = header.encoded() + payload;
            let (after, saved, outcome) = secure::packet_decrypted(peer, sessions, bytes, clock_ms);
            let key = peer.session_key->0;
            &&& outcome == Ok::<Seq<u8>, EdgeError>(
                PacketHeader { flags: header.flags & !1u8, ..header }.encoded() + plaintext,
            )
            &&& saved.contains_key(key)
            &&& saved[key].traffic == after.traffic
            &&& saved[key].last_touch_ms == clock_ms
            &&& saved[key].root_key == sessions[key].root_key
            &&& saved[key].generation == sessions[key].generation
            &&& saved[key].attachments == sessions[key].attachments
            &&& saved[key].remote_public_key == sessions[key].remote_public_key
            &&& saved[key].traffic.decrypt_fail_count == 0
            &&& saved[key].traffic.send_epoch == sessions[key].traffic.send_epoch
            &&& saved[key].traffic.send_seq == sessions[key].traffic.send_seq
        }),
{
    let bytes = header.encoded() + payload;
    packet::law_join_split(header, payload);
    let stored = sessions[peer.session_key->0];
    traffic::law_decrypts_what_was_encrypted(
        stored.traffic,
        stored.root_key,
        secure::peer_algorithm(peer),
        crypto::direction_of(header.from_peer_id, header.to_peer_id),
        payload,
        plaintext,
        clock_ms,
    );
}

/// The relay encrypts what it sends to its peer, and nothing else: a packet that is not
/// between the two, or is encrypted already, is refused and leaves no trace.
pub proof fn law_relay_encrypts_its_own_packets(
    peer: PeerView,
    sessions: Sessions,
    bytes: Seq<u8>,
    clock_ms: u64,
)
    requires
        secure::loaded(peer, sessions) is Ok,
    ensures
        ({
            let (after, saved, outcome) = secure::packet_encrypted(peer, sessions, bytes, clock_ms);
            let header = packet::header_of(bytes);
            let key = peer.session_key->0;
            let is_ours = goes(header, Some(peer.server_peer_id), peer.peer_id);
            let is_clear = header.flags & 1 == 0;
            let is_exhausted = sessions[key].traffic.send_seq[crypto::direction_of(
                header.from_peer_id,
                header.to_peer_id,
            )] == u64::MAX;
            &&& !packet::is_packet(bytes) ==> outcome is Err && saved == sessions
            &&& packet::is_packet(bytes) && !is_ours ==> outcome == Err::<Seq<u8>, EdgeError>(EdgeError::NotDirect)
                && saved == sessions
            &&& packet::is_packet(bytes) && is_ours && !is_clear ==> outcome == Err::<Seq<u8>, EdgeError>(
                EdgeError::AlreadyEncrypted,
            ) && saved == sessions
            &&& packet::is_packet(bytes) && is_ours && is_clear ==> {
                &&& outcome is Ok <==> !is_exhausted
                &&& is_exhausted ==> outcome == Err::<Seq<u8>, EdgeError>(EdgeError::SequenceExhausted)
                &&& saved.contains_key(key)
                &&& saved[key].traffic == after.traffic
                &&& saved[key].traffic.rx == sessions[key].traffic.rx
                &&& saved[key].last_touch_ms == clock_ms
                &&& saved[key].root_key == sessions[key].root_key
                &&& saved[key].generation == sessions[key].generation
                &&& saved[key].attachments == sessions[key].attachments
                &&& saved[key].remote_public_key == sessions[key].remote_public_key
            }
        }),
{
    law_cipher_names("aes-gcm"@);
    lemma_same_letters("aes-gcm"@);
}

proof fn lemma_same_letters(name: Seq<char>)
    ensures
        text::same_ignoring_case(name, name),
{
}

/// A cipher goes by its name, or by one of two in the case of the third, in letters of
/// either case; no other name is known.
pub proof fn law_cipher_names(name: Seq<char>)
    ensures
        ({
            let is_short = text::same_ignoring_case(name, "aes-gcm"@);
            let is_long = text::same_ignoring_case(name, "aes-256-gcm"@);
            let is_chacha = text::same_ignoring_case(name, "chacha20"@) || text::same_ignoring_case(
                name,
                "chacha20-poly1305"@,
            );
            &&& crypto::algorithm_of(name) == Some(Algorithm::Aes128Gcm) <==> is_short
            &&& crypto::algorithm_of(name) == Some(Algorithm::Aes256Gcm) <==> is_long
            &&& crypto::algorithm_of(name) == Some(Algorithm::ChaCha20) <==> is_chacha
            &&& crypto::algorithm_of(name) is None <==> !is_short && !is_long && !is_chacha
        }),
{
    reveal_strlit("aes-gcm");
    reveal_strlit("aes-256-gcm");
    reveal_strlit("chacha20");
    reveal_strlit("chacha20-poly1305");
    assert("aes-gcm"@.len() == 7);
    assert("aes-256-gcm"@.len() == 11);
    assert("chacha20"@.len() == 8);
    assert("chacha20-poly1305"@.len() == 17);
}

/// A new connection knows its keys and the id of the relay, and nothing of a peer.
pub proof fn law_new_connection_knows_no_peer(private: Seq<u8>, public: Seq<u8>, server_peer_id: u32, clock_ms: u64)
    ensures
        ({
            let peer = PeerView::initial(private, public, server_peer_id, clock_ms);
            &&& peer.local_private == private
            &&& peer.local_public == public
            &&& peer.server_peer_id == server_peer_id
            &&& peer.peer_id is None
            &&& peer.handshake is None
            &&& peer.session_key is None
            &&& peer.network_secret is None
            &&& peer.proof_challenge is None
            &&& peer.root_key is None
            &&& !peer.session_attached
            &&& !peer.authenticated
            &&& !peer.has_started()
        }),
{
}

/// The first message is read with a handshake of its own, begun with the key of the relay,
/// and what is opened is what the handshake gives.
pub proof fn law_first_message_is_read_by_a_new_handshake(peer: PeerView, bytes: Seq<u8>)
    ensures
        ({
            let opened = secure::msg1_opened(peer, bytes);
            let begun = noise::responder_started(peer.local_private);
            let read = noise::message_read(begun->Ok_0, bytes.skip(16));
            &&& opened is Ok <==> secure::msg1_sender(peer, bytes) is Ok && begun is Ok && read.0 is Ok
            &&& opened matches Ok(found) ==> found.0 == packet::header_of(bytes).from_peer_id && found.1
                == read.0->Ok_0 && found.2 == read.1
            &&& secure::msg1_sender(peer, bytes) is Ok && begun is Ok ==> (read.0 matches Err(error) ==> opened
                == Err::<(u32, Seq<u8>, snow::HandshakeState), EdgeError>(error))
        }),
{
}

/// The third message is a clear packet of its type from the peer to the relay; any other
/// packet is refused and changes nothing. It ends the handshake, whether or not it can be
/// read: a second one finds no handshake.
pub proof fn law_third_message_ends_the_handshake(peer: PeerView, bytes: Seq<u8>, again: Seq<u8>)
    ensures
        ({
            let (after, opened) = secure::msg3_opened(peer, bytes);
            let header = packet::header_of(bytes);
            let is_ours = goes(header, peer.peer_id, Some(peer.server_peer_id)) && header.packet_type
                == 15 && header.flags & 1 == 0;
            let read = noise::message_read(peer.handshake->0, bytes.skip(16));
            let second = secure::msg3_opened(after, again).1;
            &&& !packet::is_packet(bytes) ==> opened is Err && after == peer
            &&& packet::is_packet(bytes) && peer.peer_id is None ==> opened == Err::<
                (Seq<u8>, snow::HandshakeState),
                EdgeError,
            >(EdgeError::Msg1NotReceived) && after == peer
            &&& packet::is_packet(bytes) && peer.peer_id is Some && !is_ours ==> opened == Err::<
                (Seq<u8>, snow::HandshakeState),
                EdgeError,
            >(EdgeError::InvalidMsg3Envelope) && after == peer
            &&& packet::is_packet(bytes) && peer.peer_id is Some && is_ours ==> {
                &&& after.handshake is None
                &&& after == PeerView { handshake: None, ..peer }
                &&& second is Err
                &&& peer.handshake is None ==> opened == Err::<(Seq<u8>, snow::HandshakeState), EdgeError>(
                    EdgeError::Msg2NotSent,
                )
                &&& peer.handshake is Some ==> (opened is Ok <==> read.0 is Ok)
                &&& opened matches Ok(found) ==> found.0 == read.0->Ok_0 && found.1 == read.1
            }
        }),
{
}

/// What a peer is told of its admission: who it is, in which network, under which key, and
/// that it knows the network secret.
pub proof fn law_admission_names_the_peer(info: AuthInfo, peer: PeerView, key: Seq<u8>)
    requires
        secure::auth_says(info, peer, key),
    ensures
        peer.peer_id == Some(info.peer_id),
        peer.network_name is Some ==> info.network_name@ == peer.network_name->0,
        info.remote_public_key_base64@ == crypto::base64_encoded(key),
        info.auth_level@ == "NetworkSecretConfirmed"@,
{
}

/// A message of the handshake, and its payload, may have so many bytes; an error of the
/// handshake is passed on.
pub proof fn law_handshake_messages_have_room(
    state: snow::HandshakeState,
    drawn: Option<Seq<u8>>,
    message: Seq<u8>,
)
    ensures
        ({
            let read = noise::noise_read(state, message, 4_096);
            let written = noise::noise_written(state, drawn, message, 4_096);
            &&& noise::message_read(state, message).1 == read.1
            &&& noise::message_read(state, message).0 is Ok <==> read.0 is Ok
            &&& read.0 matches Ok(payload) ==> noise::message_read(state, message).0 == Ok::<Seq<u8>, EdgeError>(payload)
            &&& read.0 matches Err(error) ==> noise::message_read(state, message).0 == Err::<Seq<u8>, EdgeError>(
                EdgeError::Noise(error),
            )
            &&& noise::message_written(state, drawn, message).1 == written.1
            &&& written.0 matches Ok(sent) ==> noise::message_written(state, drawn, message).0 == Ok::<
                Seq<u8>,
                EdgeError,
            >(sent)
            &&& written.0 matches Err(error) ==> noise::message_written(state, drawn, message).0 == Err::<
                Seq<u8>,
                EdgeError,
            >(EdgeError::Noise(error))
        }),
{
}

} // verus!
