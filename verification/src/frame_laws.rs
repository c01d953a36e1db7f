//! What holds of frames, of packets in pieces, and of the values that they are made of.
use vstd::prelude::*;

use crate::bytes;
use crate::collections;
use crate::crypto;
use crate::error::{EdgeError, KeyLabel};
use crate::fragments;
use crate::fragments::{Pending, PendingView, RpcKeyView};
use crate::packet;
use crate::packet::PacketHeader;
use crate::proto::RpcPacketView;
use crate::totals;

verus! {

/// Where the fields of a header stand, and in which order their bytes.
pub proof fn law_header_layout(bytes: Seq<u8>)
    requires
        bytes.len() >= packet::HEADER_SIZE,
    ensures
        ({
            let header = packet::header_of(bytes);
            &&& packet::HEADER_SIZE == 16
            &&& header.from_peer_id == bytes[0] + bytes[1] * 0x100 + bytes[2] * 0x1_0000 + bytes[3] * 0x100_0000
            &&& header.to_peer_id == bytes[4] + bytes[5] * 0x100 + bytes[6] * 0x1_0000 + bytes[7] * 0x100_0000
            &&& header.packet_type == bytes[8]
            &&& header.flags == bytes[9]
            &&& header.forward_counter == bytes[10]
            &&& header.reserved == bytes[11]
            &&& header.len == bytes[12] + bytes[13] * 0x100 + bytes[14] * 0x1_0000 + bytes[15] * 0x100_0000
        }),
{
}

/// A packet is read exactly if a whole header is there, and behind it as many bytes as the
/// header says, and the tail besides if it says that the payload is encrypted.
pub proof fn law_packet_has_the_announced_length(bytes: Seq<u8>)
    ensures
        ({
            let header = packet::header_of(bytes);
            let tail = if header.flags & 1 != 0 {
                28int
            } else {
                0
            };
            let read = packet::parsed_packet(bytes);
            &&& read is Ok <==> bytes.len() >= 16 && bytes.len() == 16 + header.len + tail
            &&& read is Ok <==> packet::is_packet(bytes)
            &&& read matches Ok(found) ==> found == header
            &&& bytes.len() < 16 ==> read == Err::<PacketHeader, EdgeError>(
                EdgeError::HeaderTooShort { len: bytes.len() as usize },
            )
            &&& bytes.len() >= 16 && bytes.len() <= usize::MAX && read is Err ==> read == Err::<PacketHeader, EdgeError>(
                EdgeError::PayloadLengthMismatch {
                    payload_len: (bytes.len() - 16) as usize,
                    expected_len: (header.len + tail) as u64,
                },
            )
        }),
{
}

/// A built packet says who sends it, to whom and what it is; it is clear, has gone one hop,
/// and carries its payload as it is.
pub proof fn law_built_packet_carries_its_payload(from_peer_id: u32, to_peer_id: u32, packet_type: u8, payload: Seq<u8>)
    requires
        payload.len() <= u32::MAX,
    ensures
        ({
            let built = packet::built_packet(from_peer_id, to_peer_id, packet_type, payload);
            let header = packet::header_of(built);
            &&& packet::is_packet(built)
            &&& built.len() == 16 + payload.len()
            &&& built.skip(16) == payload
            &&& header.from_peer_id == from_peer_id
            &&& header.to_peer_id == to_peer_id
            &&& header.packet_type == packet_type
            &&& header.flags == 0
            &&& header.forward_counter == 1
            &&& header.reserved == 0
            &&& header.len == payload.len()
        }),
{
    packet::law_build_parse(from_peer_id, to_peer_id, packet_type, payload);
    let header = PacketHeader {
        from_peer_id,
        to_peer_id,
        packet_type,
        flags: 0,
        forward_counter: 1,
        reserved: 0,
        len: payload.len() as u32,
    };
    packet::law_header_round_trip(header, payload);
}

/// Forwarding and answering a Ping change one byte each, and no other.
pub proof fn law_forwarding_changes_one_byte(bytes: Seq<u8>, i: int)
    requires
        packet::is_packet(bytes),
        0 <= i < bytes.len(),
    ensures
        packet::forwarded(bytes).len() == bytes.len(),
        i != 10 ==> packet::forwarded(bytes)[i] == bytes[i],
        bytes[10] < 255 ==> packet::forwarded(bytes)[10] == bytes[10] + 1,
        packet::ponged(bytes).len() == bytes.len(),
        i != 8 ==> packet::ponged(bytes)[i] == bytes[i],
        packet::ponged(bytes)[8] == 5,
        packet::is_ping(bytes) <==> bytes[8] == 4,
{
}

/// The bytes of a number in one order are those in the other, the other way round.
pub proof fn law_byte_orders_are_opposite(x: u32)
    ensures
        bytes::u32_le(x).len() == 4,
        bytes::u32_be(x).len() == 4,
        forall|i: int| 0 <= i < 4 ==> #[trigger] bytes::u32_le(x)[i] == bytes::u32_be(x)[3 - i],
        x < 256 ==> bytes::u32_le(x) == seq![x as u8, 0u8, 0u8, 0u8],
        bytes::u32_of_le(bytes::u32_le(x)) == x,
        bytes::u32_of_be(bytes::u32_be(x)) == x,
{
    bytes::lemma_u32_le_inverse(x);
    bytes::lemma_u32_be_inverse(x);
    if x < 256 {
        assert(bytes::u32_le(x) =~= seq![x as u8, 0u8, 0u8, 0u8]);
    }
}

/// A packet in one piece comes out as it is, and is not buffered. A packet that says that it
/// is a piece that cannot be is refused, and so is a first piece that does not say what it
/// is for; neither leaves a trace.
pub proof fn law_single_packet_is_not_buffered(
    pending: Pending,
    network: Seq<char>,
    peer_id: u32,
    packet: RpcPacketView,
    now_ms: u64,
)
    ensures
        ({
            let (after, outcome) = fragments::merged(pending, network, peer_id, packet, now_ms);
            let is_single = packet.total_pieces <= 1 && packet.piece_idx == 0;
            let is_possible = packet.piece_idx < packet.total_pieces && packet.total_pieces
                <= 32_768;
            let is_nameless = packet.piece_idx == 0 && packet.descriptor is None;
            &&& is_single ==> outcome == Ok::<Option<RpcPacketView>, EdgeError>(Some(packet)) && after == pending
            &&& !is_single && !is_possible ==> outcome == Err::<Option<RpcPacketView>, EdgeError>(
                EdgeError::InvalidFragment,
            ) && after == pending
            &&& !is_single && is_possible && is_nameless ==> outcome == Err::<Option<RpcPacketView>, EdgeError>(
                EdgeError::MissingFirstDescriptor,
            ) && after == pending
            &&& outcome == Err::<Option<RpcPacketView>, EdgeError>(EdgeError::InvalidFragment) ==> !is_single
                && !is_possible
            &&& outcome == Err::<Option<RpcPacketView>, EdgeError>(EdgeError::MissingFirstDescriptor) ==> is_nameless
        }),
{
}

/// The transactions that a piece finds buffered: those that were touched lately.
pub open spec fn found(pending: Pending, now_ms: u64) -> Pending {
    Map::new(
        |key: RpcKeyView|
            pending.contains_key(key) && now_ms - pending[key].updated_at_ms < 10_000,
        |key: RpcKeyView| pending[key],
    )
}

/// What is known of a transaction with one more piece, which replaces a former one with the
/// same index.
pub open spec fn filled_with(live: Pending, key: RpcKeyView, packet: RpcPacketView, now_ms: u64) -> PendingView {
    let is_known = live.contains_key(key);
    PendingView {
        pieces: (if is_known {
            live[key].pieces
        } else {
            Seq::new(packet.total_pieces as nat, |i: int| None::<Seq<u8>>)
        }).update(packet.piece_idx as int, Some(packet.body)),
        first: if packet.piece_idx == 0 {
            Some(packet)
        } else if is_known {
            live[key].first
        } else {
            None
        },
        updated_at_ms: now_ms,
    }
}

/// What becomes of a piece that may be one. It is refused if the transaction is known with
/// another number of pieces, which ends the transaction; or if the transaction is not known
/// and the peer has as many as it may have, or too many pieces would be announced; or if
/// too many bytes would be buffered, which ends the transaction. Else it is taken in. Every
/// piece first ends the transactions that were not touched lately.
pub proof fn law_piece_is_taken_within_the_limits(
    pending: Pending,
    network: Seq<char>,
    peer_id: u32,
    packet: RpcPacketView,
    now_ms: u64,
    other: RpcKeyView,
)
    requires
        packet.piece_idx < packet.total_pieces,
        2 <= packet.total_pieces <= 32_768,
        packet.piece_idx == 0 ==> packet.descriptor is Some,
    ensures
        ({
            let (after, outcome) = fragments::merged(pending, network, peer_id, packet, now_ms);
            let key = RpcKeyView {
                network,
                peer_id,
                transaction_id: packet.transaction_id,
                is_request: packet.is_request,
            };
            let live = found(pending, now_ms);
            let is_known = live.contains_key(key);
            let has_changed = is_known && live[key].pieces.len() != packet.total_pieces;
            let value = filled_with(live, key, packet, now_ms);
            let is_crowded = fragments::peer_transactions(live, network, peer_id)
                >= 64;
            let is_long = totals::total(live, fragments::pieces_of()) + packet.total_pieces
                > 32_768;
            let is_heavy = totals::total(live.insert(key, value), fragments::bytes_of()) > 33_554_432;
            &&& has_changed ==> outcome == Err::<Option<RpcPacketView>, EdgeError>(
                EdgeError::PieceCountChanged,
            ) && !after.contains_key(key)
            &&& !is_known && is_crowded ==> outcome == Err::<Option<RpcPacketView>, EdgeError>(
                EdgeError::TooManyPendingTransactions,
            ) && !after.contains_key(key)
            &&& !is_known && !is_crowded && is_long ==> outcome == Err::<Option<RpcPacketView>, EdgeError>(
                EdgeError::PendingPieceLimit,
            ) && !after.contains_key(key)
            &&& !has_changed && (is_known || (!is_crowded && !is_long)) ==> {
                &&& is_heavy ==> outcome == Err::<Option<RpcPacketView>, EdgeError>(EdgeError::PendingByteLimit)
                    && !after.contains_key(key)
                &&& !is_heavy ==> outcome is Ok
                &&& !is_heavy ==> (after.contains_key(key) <==> exists|i: int|
                    0 <= i < value.pieces.len() && (#[trigger] value.pieces[i]) is None)
                &&& !is_heavy && after.contains_key(key) ==> outcome->Ok_0 is None && after[key] == value
                &&& !is_heavy && !after.contains_key(key) ==> (outcome->Ok_0 matches Some(whole) && whole.total_pieces
                    == 1 && whole.piece_idx == 0 && (value.first matches Some(first) ==> whole.transaction_id
                    == first.transaction_id && whole.descriptor == first.descriptor && whole.trace_id == first.trace_id
                    && whole.from_peer == first.from_peer && whole.to_peer == first.to_peer && whole.compression_info
                    == first.compression_info))
            }
            &&& other != key ==> (after.contains_key(other) <==> live.contains_key(other))
            &&& other != key && live.contains_key(other) ==> after[other] == pending[other]
        }),
{
    let live = found(pending, now_ms);
    assert(live =~= collections::kept(pending, fragments::fresh(now_ms)));
    let key = fragments::key_of(network, peer_id, packet);
    let announced = PendingView::announced(packet.total_pieces, now_ms);
    assert(announced.pieces =~= Seq::new(packet.total_pieces as nat, |i: int| None::<Seq<u8>>));
    let before = if live.contains_key(key) {
        live[key]
    } else {
        announced
    };
    let filled = before.pieces.update(packet.piece_idx as int, Some(packet.body));
    let value = before.with_piece(packet, now_ms);
    assert(value == filled_with(live, key, packet, now_ms));
    assert(fragments::all_there(filled) <==> !exists|i: int| 0 <= i < filled.len() && (#[trigger] filled[i]) is None);
    assert(fragments::merged(pending, network, peer_id, packet, now_ms) == fragments::merged_piece(
        live,
        network,
        peer_id,
        packet,
        now_ms,
    ));
}

/// The number of transactions, of announced pieces and of bytes.
pub proof fn law_totals_count_every_transaction(pending: Pending, key: RpcKeyView, value: PendingView)
    requires
        pending.dom().finite(),
        !pending.contains_key(key),
    ensures
        ({
            let after = pending.insert(key, value);
            let network = key.network;
            let peer_id = key.peer_id;
            &&& totals::total(after, fragments::pieces_of()) == totals::total(pending, fragments::pieces_of())
                + value.pieces.len()
            &&& totals::total(after, fragments::bytes_of()) == totals::total(pending, fragments::bytes_of())
                + fragments::buffered(value.pieces)
            &&& fragments::peer_transactions(after, network, peer_id) == fragments::peer_transactions(
                pending,
                network,
                peer_id,
            ) + 1
            &&& fragments::peer_transactions(Map::<RpcKeyView, PendingView>::empty(), network, peer_id) == 0
        }),
{
    let p = fragments::of_peer(key.network, key.peer_id);
    totals::lemma_total_insert(pending, fragments::pieces_of(), key, value);
    totals::lemma_total_insert(pending, fragments::bytes_of(), key, value);
    assert(pending.remove(key) =~= pending);
    pending.dom().lemma_len_filter(p);
    assert(pending.insert(key, value).dom().filter(p) =~= pending.dom().filter(p).insert(key));
    assert(Map::<RpcKeyView, PendingView>::empty().dom().filter(p) =~= Set::empty());
}

/// How much the pieces of a transaction hold.
pub proof fn law_buffered_counts_every_byte(pieces: Seq<Option<Seq<u8>>>, piece: Option<Seq<u8>>)
    ensures
        fragments::buffered(Seq::empty()) == 0,
        fragments::buffered(pieces.push(piece)) == fragments::buffered(pieces) + match piece {
            Some(body) => body.len() as int,
            None => 0,
        },
        fragments::received(pieces.push(piece)) == fragments::received(pieces) + if piece is Some {
            1int
        } else {
            0
        },
{
    assert(pieces.push(piece).drop_last() =~= pieces);
}

/// A configured key is what its text decodes to, if that has the right length.
pub proof fn law_configured_key_has_32_bytes(decoded: Option<Seq<u8>>, label: KeyLabel)
    ensures
        ({
            let key = crypto::key_of_decoded(decoded, label);
            &&& key is Ok <==> decoded is Some && decoded->0.len() == 32
            &&& key matches Ok(found) ==> Some(found) == decoded
            &&& decoded is None ==> key == Err::<Seq<u8>, EdgeError>(EdgeError::KeyNotBase64 { label })
            &&& decoded is Some && decoded->0.len() != 32 ==> key == Err::<Seq<u8>, EdgeError>(
                EdgeError::KeyWrongLength { label, len: decoded->0.len() as usize },
            )
        }),
{
}

/// The key of a packet depends on the root key, the epoch and the direction: it is the keyed
/// hash of a text that holds the last two, under the keyed hash of the root key.
pub proof fn law_traffic_key_is_derived(root_key: Seq<u8>, epoch: u32, direction: u8, other_epoch: u32, other_direction: u8)
    ensures
        crypto::traffic_label(epoch, direction).len() == vstd::utf8::encode_utf8("et-traffic"@).len() + 6,
        crypto::traffic_label(epoch, direction) == crypto::traffic_label(other_epoch, other_direction) ==> epoch
            == other_epoch && direction == other_direction,
        crypto::traffic_key_of(root_key, epoch, direction) == crypto::hmac_of(
            crypto::hmac_of(Seq::new(32, |i: int| 0u8), root_key),
            vstd::utf8::encode_utf8("et-traffic"@) + bytes::u32_be(epoch) + seq![direction, 1u8],
        ),
{
    let prefix = vstd::utf8::encode_utf8("et-traffic"@);
    let a = crypto::traffic_label(epoch, direction);
    let b = crypto::traffic_label(other_epoch, other_direction);
    let n = prefix.len() as int;
    bytes::lemma_u32_be_inverse(epoch);
    bytes::lemma_u32_be_inverse(other_epoch);
    assert(a.subrange(n, n + 4) =~= bytes::u32_be(epoch));
    assert(b.subrange(n, n + 4) =~= bytes::u32_be(other_epoch));
    assert(a[n + 4] == direction);
    assert(b[n + 4] == other_direction);
}

/// The peer with the higher id sends in the one direction, the other in the other.
pub proof fn law_direction_goes_by_id(sender: u32, receiver: u32)
    ensures
        sender > receiver ==> crypto::direction_of(sender, receiver) == 1,
        sender < receiver ==> crypto::direction_of(sender, receiver) == 0,
        crypto::direction_of(sender, sender) == 1,
{
}

} // verus!
