//! What holds of the RPC state as a whole.
use vstd::prelude::*;

use crate::error::EdgeError;
use crate::fragments;
use crate::fragments::RpcKeyView;
use crate::proto::{RpcDescriptorView, RpcPacketView, SyncRouteInfoResponse};
use crate::route_laws;
use crate::rpc;
use crate::rpc::{CoreView, Draw, NetworkPeerView, RouteReply, RpcCallView};

verus! {

/// Nothing of any other network has changed, but that what has waited for too long
/// may be gone.
pub open spec fn others_untouched(before: CoreView, after: CoreView, network: Seq<char>, now_ms: u64) -> bool {
    &&& after.server_peer_id == before.server_peer_id
    &&& after.hostname == before.hostname
    &&& after.public_key == before.public_key
    &&& after.routes.my_peer_id == before.routes.my_peer_id
    &&& forall|other: Seq<char>|
        other != network ==> {
            &&& (#[trigger] after.routes.groups.contains_key(other) <==> before.routes.groups.contains_key(other))
            &&& after.routes.groups[other] == before.routes.groups[other]
        }
    &&& forall|other: Seq<char>|
        other != network ==> {
            &&& (#[trigger] after.center.contains_key(other) <==> before.center.contains_key(other))
            &&& after.center[other] == before.center[other]
        }
    &&& forall|other: Seq<char>|
        other != network ==> (#[trigger] after.configured.contains(other) <==> before.configured.contains(other))
    &&& forall|key: NetworkPeerView|
        key.network != network ==> {
            &&& (#[trigger] after.initiators.contains_key(key) <==> before.initiators.contains_key(key))
            &&& after.initiators[key] == before.initiators[key]
        }
    &&& forall|key: RpcKeyView|
        key.network != network && #[trigger] after.pending.contains_key(key) ==> before.pending.contains_key(key)
            && after.pending[key] == before.pending[key]
    &&& forall|key: RpcKeyView|
        key.network != network && #[trigger] before.pending.contains_key(key) && fragments::fresh(now_ms)(
            key,
            before.pending[key],
        ) ==> after.pending.contains_key(key)
    &&& forall|key: RpcKeyView|
        key.network != network && #[trigger] after.outstanding.contains_key(key) ==> before.outstanding.contains_key(
            key,
        ) && after.outstanding[key] == before.outstanding[key]
    &&& forall|key: RpcKeyView|
        key.network != network && #[trigger] before.outstanding.contains_key(key) && rpc::in_time(now_ms)(
            key,
            before.outstanding[key],
        ) ==> after.outstanding.contains_key(key)
}

/// A peer that joins or leaves a network changes no other network.
pub proof fn law_membership_is_isolated(
    core: CoreView,
    network: Seq<char>,
    peer_id: u32,
    key: Seq<u8>,
    words: Seq<u32>,
    now_ms: u64,
)
    ensures
        others_untouched(core, core.added(network, peer_id, key, words).0, network, now_ms),
        others_untouched(core, core.left(network, peer_id, words), network, now_ms),
{
}

/// A packet that comes in from a peer of one network changes no other network.
pub proof fn law_packets_are_isolated(
    core: CoreView,
    network: Seq<char>,
    peer_id: u32,
    packet: RpcPacketView,
    now_ms: u64,
)
    ensures
        others_untouched(core, core.request_received(network, peer_id, packet, now_ms).0, network, now_ms),
        others_untouched(core, core.response_received(network, peer_id, packet, now_ms).0, network, now_ms),
{
    let merged = fragments::merged(core.pending, network, peer_id, packet, now_ms).0;
    assert forall|key: RpcKeyView| key.network != network && #[trigger] merged.contains_key(key) implies core.pending.contains_key(key)
        && merged[key] == core.pending[key] by {}
    assert forall|key: RpcKeyView|
        key.network != network && #[trigger] core.pending.contains_key(key) && fragments::fresh(now_ms)(
            key,
            core.pending[key],
        ) implies merged.contains_key(key) by {
        fragments::law_merge_keeps_other_networks(core.pending, network, peer_id, packet, now_ms, key);
    }
}

/// A request or an answer of a peer of one network changes no other network.
pub proof fn law_calls_are_isolated(
    core: CoreView,
    network: Seq<char>,
    peer_id: u32,
    descriptor: RpcDescriptorView,
    call: RpcCallView,
    transaction_id: i64,
    reply: RouteReply,
    words: Seq<u32>,
    clock_ms: u64,
    now_ms: u64,
)
    ensures
        others_untouched(
            core,
            core.request_handled(network, peer_id, descriptor, call, words, clock_ms).0,
            network,
            now_ms,
        ),
        others_untouched(
            core,
            core.response_handled(network, peer_id, transaction_id, reply, words, clock_ms).0,
            network,
            now_ms,
        ),
{
}

/// An update for a peer of one network changes no other network.
pub proof fn law_updates_are_isolated(
    core: CoreView,
    network: Seq<char>,
    peer_id: u32,
    session_id: u64,
    force_full: bool,
    now_ms: u64,
    words: Seq<u32>,
    clock_ms: u64,
    transaction_id: i64,
    versions: Seq<(u32, u32)>,
    topology_version: Option<u64>,
)
    ensures
        others_untouched(
            core,
            core.update_built(network, peer_id, session_id, force_full, now_ms, words, clock_ms).0,
            network,
            now_ms,
        ),
        others_untouched(
            core,
            core.update_sent(network, peer_id, transaction_id, versions, topology_version, now_ms),
            network,
            now_ms,
        ),
{
}

/// A packet that names another network than that of its sender is refused, and
/// leaves no trace.
pub proof fn law_cross_network_packet_is_refused(
    core: CoreView,
    network: Seq<char>,
    peer_id: u32,
    packet: RpcPacketView,
    now_ms: u64,
)
    requires
        packet.descriptor matches Some(descriptor) && descriptor.domain_name != network,
    ensures
        core.request_received(network, peer_id, packet, now_ms).1 is Err,
        core.request_received(network, peer_id, packet, now_ms).0 == core,
        core.response_received(network, peer_id, packet, now_ms).1 is Err,
        core.response_received(network, peer_id, packet, now_ms).0 == core,
{
}

/// What is buffered was accepted from the peer that it is buffered for.
pub open spec fn pieces_are_addressed(core: CoreView) -> bool {
    &&& fragments::is_sound(core.pending)
    &&& forall|key: RpcKeyView| #[trigger]
        core.pending.contains_key(key) ==> (core.pending[key].first matches Some(first)
            ==> rpc::envelope_obstacle(first, key.network, key.peer_id, core.server_peer_id, key.is_request) is None)
}

/// A packet that comes out whole, put together from pieces or not, comes from the peer
/// that sent the last piece, names no other network than that of the peer, and belongs
/// to the transaction of that piece.
pub proof fn law_whole_packets_are_addressed(
    core: CoreView,
    network: Seq<char>,
    peer_id: u32,
    packet: RpcPacketView,
    now_ms: u64,
)
    requires
        pieces_are_addressed(core),
    ensures
        pieces_are_addressed(core.request_received(network, peer_id, packet, now_ms).0),
        pieces_are_addressed(core.response_received(network, peer_id, packet, now_ms).0),
        core.request_received(network, peer_id, packet, now_ms).1 matches Ok(Some(whole)) ==> rpc::envelope_obstacle(
            whole,
            network,
            peer_id,
            core.server_peer_id,
            true,
        ) is None && whole.transaction_id == packet.transaction_id,
        core.response_received(network, peer_id, packet, now_ms).1 matches Ok(Some(whole)) ==> rpc::envelope_obstacle(
            whole,
            network,
            peer_id,
            core.server_peer_id,
            false,
        ) is None && whole.transaction_id == packet.transaction_id,
{
    fragments::law_merge_stays_sound(core.pending, network, peer_id, packet, now_ms);
    fragments::law_whole_packet_has_a_first_piece(core.pending, network, peer_id, packet, now_ms);
}

/// A draw that the search of a transaction id goes on after: bytes that stand for no free
/// id.
pub open spec fn is_in_vain(core: CoreView, network: Seq<char>, peer_id: u32, drawn: Draw) -> bool {
    drawn matches Ok(word) && !core.is_free_id(network, peer_id, rpc::transaction_id_of(word))
}

proof fn lemma_search_goes_on(core: CoreView, network: Seq<char>, peer_id: u32, draws: Seq<Draw>)
    requires
        core.id_searched(network, peer_id, draws) == Ok::<Option<i64>, EdgeError>(None),
    ensures
        draws.len() < rpc::TRANSACTION_ID_TRIES,
        forall|i: int| 0 <= i < draws.len() ==> is_in_vain(core, network, peer_id, #[trigger] draws[i]),
    decreases draws.len(),
{
    if draws.len() > 0 {
        let earlier = draws.drop_last();
        lemma_search_goes_on(core, network, peer_id, earlier);
        assert forall|i: int| 0 <= i < draws.len() implies is_in_vain(core, network, peer_id, #[trigger] draws[i]) by {
            if i < earlier.len() {
                assert(is_in_vain(core, network, peer_id, earlier[i]));
            }
        }
    }
}

/// The search of a transaction id ends with the first draw that stands for a free id,
/// and gives that id; it is given up only after all tries were in vain.
pub proof fn law_search_uses_all_tries(
    core: CoreView,
    network: Seq<char>,
    peer_id: u32,
    draws: Seq<Draw>,
    r: Result<i64, EdgeError>,
)
    requires
        core.id_found(network, peer_id, draws, r),
    ensures
        forall|i: int|
            0 <= i < draws.len() - 1 ==> is_in_vain(core, network, peer_id, #[trigger] draws[i]),
        match r {
            Ok(id) => core.is_free_id(network, peer_id, id) && (draws.last() matches Ok(word)
                && rpc::transaction_id_of(word) == id),
            Err(error) => {
                ||| draws.last() == Err::<Seq<u8>, EdgeError>(error)
                ||| error == EdgeError::TransactionIdExhausted && draws.len() == rpc::TRANSACTION_ID_TRIES
                    && is_in_vain(core, network, peer_id, draws.last())
            },
        },
{
    let earlier = draws.drop_last();
    lemma_search_goes_on(core, network, peer_id, earlier);
    assert forall|i: int| 0 <= i < draws.len() - 1 implies is_in_vain(core, network, peer_id, #[trigger] draws[i]) by {
        assert(is_in_vain(core, network, peer_id, earlier[i]));
    }
}

/// An answer to an update that was sent is taken in once, and the peer then counts
/// as told of every version in the update.
pub proof fn law_answered_update_counts_as_told(
    core: CoreView,
    network: Seq<char>,
    peer_id: u32,
    transaction_id: i64,
    versions: Seq<(u32, u32)>,
    topology_version: Option<u64>,
    now_ms: u64,
    response: SyncRouteInfoResponse,
    words: Seq<u32>,
    clock_ms: u64,
    i: int,
)
    requires
        response.error is None,
        0 <= i < versions.len(),
    ensures
        ({
            let sent = core.update_sent(network, peer_id, transaction_id, versions, topology_version, now_ms);
            let answer = RouteReply::Answered(response);
            let (after, result) = sent.response_handled(network, peer_id, transaction_id, answer, words, clock_ms);
            let session = after.routes.group(network, words).session(peer_id);
            &&& result == Ok::<bool, EdgeError>(true)
            &&& session.dst_session_id == Some(response.session_id)
            &&& session.told_version(versions[i].0, clock_ms) >= versions[i].1
            &&& after.response_handled(network, peer_id, transaction_id, answer, words, clock_ms) == (
                after,
                Err::<bool, EdgeError>(EdgeError::TransactionDisappeared),
            )
        }),
{
    let sent = core.update_sent(network, peer_id, transaction_id, versions, topology_version, now_ms);
    let acked = sent.routes.acked(
        network,
        peer_id,
        response.session_id,
        sent.initiates(network, peer_id),
        words,
        clock_ms,
    );
    let joined = acked.group(network, words).session(peer_id);
    route_laws::lemma_saved_versions(joined.peer_info_ver_map, versions, clock_ms, i);
}

/// A response that is late is refused, and its transaction is closed.
pub proof fn law_late_response_closes_its_transaction(
    core: CoreView,
    network: Seq<char>,
    peer_id: u32,
    packet: RpcPacketView,
    now_ms: u64,
)
    requires
        rpc::envelope_obstacle(packet, network, peer_id, core.server_peer_id, false) is None,
        ({
            let key = RpcKeyView { network, peer_id, transaction_id: packet.transaction_id, is_request: false };
            core.outstanding.contains_key(key) && now_ms > core.outstanding[key].deadline_ms
        }),
    ensures
        ({
            let (after, result) = core.response_received(network, peer_id, packet, now_ms);
            &&& result == Err::<Option<RpcPacketView>, EdgeError>(EdgeError::LateResponse)
            &&& after.response_received(network, peer_id, packet, now_ms).1 == Err::<
                Option<RpcPacketView>,
                EdgeError,
            >(EdgeError::UnknownTransaction)
        }),
{
}

/// Nothing of a peer that left is waited for any more.
pub proof fn law_nothing_waits_for_a_peer_that_left(
    core: CoreView,
    network: Seq<char>,
    peer_id: u32,
    words: Seq<u32>,
    key: RpcKeyView,
)
    requires
        fragments::of_peer(network, peer_id)(key),
    ensures
        !core.left(network, peer_id, words).pending.contains_key(key),
        !core.left(network, peer_id, words).outstanding.contains_key(key),
        !core.left(network, peer_id, words).initiators.contains_key(NetworkPeerView { network, peer_id }),
{
}

/// What has waited for too long is gone after cleaning, and nothing else is.
pub proof fn law_cleaning_drops_what_is_late(core: CoreView, now_ms: u64, key: RpcKeyView)
    ensures
        ({
            let after = core.rpc_cleaned(now_ms);
            &&& after.outstanding.contains_key(key) <==> core.outstanding.contains_key(key) && now_ms
                <= core.outstanding[key].deadline_ms
            &&& after.pending.contains_key(key) <==> core.pending.contains_key(key) && now_ms
                - core.pending[key].updated_at_ms < fragments::RPC_FRAGMENT_TTL_MS
            &&& after.routes == core.routes
            &&& after.center == core.center
        }),
{
}

} // verus!
