//! What holds of the services of the relay: which requests are served, how they are
//! answered, and what becomes of the relay's own requests.
use vstd::prelude::*;

use crate::collections;
use crate::error::EdgeError;
use crate::fragments;
use crate::fragments::RpcKeyView;
use crate::peer_center;
use crate::peer_center::SrcDstPeerPair;
use crate::proto::{RpcDescriptorView, RpcErrorView, RpcPacketView};
use crate::route_state::RouteGroupView;
use crate::rpc;
use crate::rpc::{CoreView, NetworkPeerView, OutcomeView, RouteReply, RpcCallView, RpcMethod, RpcReplyView};

verus! {

/// The texts in which services and protocols are named.
proof fn lemma_names()
    ensures
        "OspfRouteRpc"@ != "PeerCenterRpc"@,
        "OspfRouteRpc"@ != "peer_rpc"@,
        "PeerCenterRpc"@ != "peer_rpc"@,
        "peer_rpc."@ + "OspfRouteRpc"@ != "peer_rpc"@,
        "peer_rpc."@ + "OspfRouteRpc"@ != "OspfRouteRpc"@,
        "peer_rpc."@ + "PeerCenterRpc"@ != "PeerCenterRpc"@,
        "peer_rpc."@ + "OspfRouteRpc"@ != "peer_rpc."@ + "PeerCenterRpc"@,
{
    reveal_strlit("OspfRouteRpc");
    reveal_strlit("PeerCenterRpc");
    reveal_strlit("peer_rpc");
    reveal_strlit("peer_rpc.");
    assert("OspfRouteRpc"@.len() == 12);
    assert("PeerCenterRpc"@.len() == 13);
    assert("peer_rpc"@.len() == 8);
    assert("peer_rpc."@.len() == 9);
    assert(("peer_rpc."@ + "OspfRouteRpc"@).len() == 21);
    assert(("peer_rpc."@ + "PeerCenterRpc"@).len() == 22);
}

/// Both services are served under three names of their protocol: that of the package, that
/// of the package and the service, and that of the service; and under no other name. Each
/// method of a service has a number of its own; no other number is served, nor is any
/// other service.
pub proof fn law_services_are_served_under_three_names(descriptor: RpcDescriptorView)
    ensures
        ({
            let service = descriptor.service_name;
            let proto = descriptor.proto_name;
            let index = descriptor.method_index;
            let is_route = service == "OspfRouteRpc"@;
            let is_center = service == "PeerCenterRpc"@;
            let is_known = is_route || is_center;
            let is_named = proto == service || proto == "peer_rpc"@ || proto == "peer_rpc."@ + service;
            &&& is_route && is_named && index == 1 <==> rpc::method_of(descriptor) == RpcMethod::SyncRouteInfo
            &&& is_center && is_named && index == 1 <==> rpc::method_of(descriptor) == RpcMethod::ReportPeers
            &&& is_center && is_named && index == 2 <==> rpc::method_of(descriptor) == RpcMethod::GetGlobalPeerMap
            &&& !(is_known && is_named) <==> rpc::method_of(descriptor) == RpcMethod::UnknownService
            &&& is_known && is_named && !(index == 1 || (is_center && index == 2)) <==> rpc::method_of(descriptor)
                == RpcMethod::UnknownMethod
        }),
{
    lemma_names();
}

/// The domain does not decide which method a request names.
pub proof fn law_method_is_the_same_in_every_network(descriptor: RpcDescriptorView, domain_name: Seq<char>)
    ensures
        rpc::method_of(RpcDescriptorView { domain_name, ..descriptor }) == rpc::method_of(descriptor),
{
}

/// A packet is accepted from a peer exactly if it says that it comes from that peer, is for
/// the relay, goes in the direction that is expected, and names no other network than
/// that of the peer.
pub proof fn law_packet_is_accepted_from_its_sender(
    packet: RpcPacketView,
    network: Seq<char>,
    peer_id: u32,
    server_peer_id: u32,
    is_request: bool,
)
    ensures
        ({
            let obstacle = rpc::envelope_obstacle(packet, network, peer_id, server_peer_id, is_request);
            let is_addressed = packet.from_peer == peer_id && packet.to_peer == server_peer_id;
            let is_foreign = packet.descriptor is Some && packet.descriptor->0.domain_name != network;
            &&& obstacle is None <==> is_addressed && packet.is_request == is_request && !is_foreign
            &&& obstacle == Some(EdgeError::EnvelopeMismatch) <==> !is_addressed
            &&& obstacle == Some(EdgeError::UnexpectedDirection) <==> is_addressed && packet.is_request != is_request
            &&& obstacle == Some(EdgeError::CrossNetworkDomain) <==> is_addressed && packet.is_request == is_request
                && is_foreign
        }),
{
}

/// A whole packet that its sender may send is received as it is and at once, exactly if it
/// is not compressed and says what it is for; it leaves no trace.
pub proof fn law_whole_request_is_received(
    core: CoreView,
    network: Seq<char>,
    peer_id: u32,
    packet: RpcPacketView,
    now_ms: u64,
)
    requires
        rpc::envelope_obstacle(packet, network, peer_id, core.server_peer_id, true) is None,
        packet.total_pieces <= 1,
        packet.piece_idx == 0,
    ensures
        ({
            let (after, received) = core.request_received(network, peer_id, packet, now_ms);
            let is_plain = packet.compression_info is None || packet.compression_info->0.algo
                <= 1;
            &&& after == core
            &&& !is_plain ==> received == Err::<Option<RpcPacketView>, EdgeError>(EdgeError::CompressedRpc)
            &&& is_plain && packet.descriptor is None ==> received == Err::<Option<RpcPacketView>, EdgeError>(
                EdgeError::MissingRequestDescriptor,
            )
            &&& is_plain && packet.descriptor is Some ==> received == Ok::<Option<RpcPacketView>, EdgeError>(
                Some(packet),
            )
        }),
{
}

/// An update that the relay has sent can be answered until its time is over, and not later:
/// a whole response of the peer is received as it is, if it is not compressed and says that
/// it is for the route service. Nothing else is answered.
pub proof fn law_update_is_answered_in_time(
    core: CoreView,
    network: Seq<char>,
    peer_id: u32,
    transaction_id: i64,
    versions: Seq<(u32, u32)>,
    topology_version: Option<u64>,
    sent_ms: u64,
    packet: RpcPacketView,
    now_ms: u64,
)
    requires
        rpc::envelope_obstacle(packet, network, peer_id, core.server_peer_id, false) is None,
        packet.total_pieces <= 1,
        packet.piece_idx == 0,
        packet.transaction_id == transaction_id,
        sent_ms + 3_000 <= u64::MAX,
    ensures
        ({
            let sent = core.update_sent(network, peer_id, transaction_id, versions, topology_version, sent_ms);
            let (after, received) = sent.response_received(network, peer_id, packet, now_ms);
            let key = RpcKeyView { network, peer_id, transaction_id, is_request: false };
            let is_plain = packet.compression_info is None || packet.compression_info->0.algo
                <= 1;
            &&& sent.outstanding.contains_key(key)
            &&& now_ms - sent_ms > 3_000 <==> received == Err::<Option<RpcPacketView>, EdgeError>(
                EdgeError::LateResponse,
            )
            &&& now_ms - sent_ms > 3_000 ==> !after.outstanding.contains_key(key)
            &&& now_ms - sent_ms <= 3_000 ==> {
                &&& after == sent
                &&& !is_plain ==> received == Err::<Option<RpcPacketView>, EdgeError>(EdgeError::CompressedRpc)
                &&& is_plain && packet.descriptor is None ==> received == Err::<Option<RpcPacketView>, EdgeError>(
                    EdgeError::MissingResponseDescriptor,
                )
                &&& is_plain && packet.descriptor is Some && rpc::method_of(packet.descriptor->0)
                    != RpcMethod::SyncRouteInfo ==> received == Err::<Option<RpcPacketView>, EdgeError>(
                    EdgeError::ResponseDescriptorMismatch,
                )
                &&& is_plain && packet.descriptor is Some && rpc::method_of(packet.descriptor->0)
                    == RpcMethod::SyncRouteInfo ==> received == Ok::<Option<RpcPacketView>, EdgeError>(Some(packet))
            }
        }),
{
}

/// A response to nothing that the relay has sent to this peer is refused, and leaves no
/// trace.
pub proof fn law_unasked_response_is_refused(
    core: CoreView,
    network: Seq<char>,
    peer_id: u32,
    packet: RpcPacketView,
    now_ms: u64,
)
    requires
        !core.outstanding.contains_key(
            RpcKeyView { network, peer_id, transaction_id: packet.transaction_id, is_request: false },
        ),
        rpc::envelope_obstacle(packet, network, peer_id, core.server_peer_id, false) is None,
    ensures
        core.response_received(network, peer_id, packet, now_ms) == (
            core,
            Err::<Option<RpcPacketView>, EdgeError>(EdgeError::UnknownTransaction),
        ),
{
}

/// What the relay answers is addressed to the peer that has asked, names the same network
/// and method, and belongs to the same transaction and trace; the peer can take it as it
/// is, whole and not compressed.
pub proof fn law_answer_goes_back_to_the_asker(
    network: Seq<char>,
    server_peer_id: u32,
    peer_id: u32,
    request: RpcPacketView,
    body: Seq<u8>,
)
    requires
        rpc::envelope_obstacle(request, network, peer_id, server_peer_id, true) is None,
    ensures
        ({
            let answer = rpc::answer_to(server_peer_id, peer_id, request, body);
            &&& rpc::envelope_obstacle(answer, network, server_peer_id, peer_id, false) is None
            &&& answer.transaction_id == request.transaction_id
            &&& answer.trace_id == request.trace_id
            &&& answer.descriptor == request.descriptor
            &&& answer.body == body
            &&& !rpc::is_compressed(answer)
            &&& answer.compression_info is Some && answer.compression_info->0.accepted_algo == 1
            &&& fragments::is_whole(answer)
            &&& request.descriptor is Some && rpc::method_of(request.descriptor->0) == RpcMethod::SyncRouteInfo
                ==> rpc::response_obstacle(answer) is None
        }),
{
}

/// A route update is a request that another relay of the same network would take from this
/// one: it is addressed, names the network and the method, and is whole and not
/// compressed.
pub proof fn law_update_is_a_request_for_its_peer(
    server_peer_id: u32,
    network: Seq<char>,
    peer_id: u32,
    transaction_id: i64,
    body: Seq<u8>,
)
    ensures
        ({
            let packet = rpc::update_to(server_peer_id, network, peer_id, transaction_id, body);
            &&& rpc::envelope_obstacle(packet, network, server_peer_id, peer_id, true) is None
            &&& rpc::request_obstacle(packet) is None
            &&& packet.descriptor is Some && rpc::method_of(packet.descriptor->0) == RpcMethod::SyncRouteInfo
            &&& packet.descriptor->0.domain_name == network
            &&& fragments::is_whole(packet)
            &&& packet.transaction_id == transaction_id
            &&& packet.body == body
        }),
{
    lemma_names();
}

/// A route request is answered with what the route state says of it; the result tells
/// whether the routes changed, or else whether the session did. From then on the relay
/// speaks first in the synchronization with that peer exactly if the peer does not.
pub proof fn law_route_request_is_served(
    core: CoreView,
    network: Seq<char>,
    peer_id: u32,
    descriptor: RpcDescriptorView,
    call: RpcCallView,
    words: Seq<u32>,
    clock_ms: u64,
    other: NetworkPeerView,
)
    requires
        call is SyncRouteInfo,
        other != (NetworkPeerView { network, peer_id }),
    ensures
        ({
            let request = call->SyncRouteInfo_0;
            let (after, outcome) = core.request_handled(network, peer_id, descriptor, call, words, clock_ms);
            let (routes, synced) = core.routes.synced(network, peer_id, request, words, clock_ms);
            &&& after.routes == routes
            &&& after.initiates(network, peer_id) == !request.is_initiator
            &&& after.initiates(other.network, other.peer_id) == core.initiates(other.network, other.peer_id)
            &&& after == CoreView { routes: after.routes, initiators: after.initiators, ..core }
            &&& synced matches Err(error) ==> outcome == Err::<OutcomeView, EdgeError>(error)
            &&& synced matches Ok(answer) ==> (outcome matches Ok(served) && served.error is None && served.reply
                == RpcReplyView::SyncRouteInfo(answer.response) && (served.result == 2
                <==> answer.route_changed) && (served.result == 3
                <==> !answer.route_changed && answer.session_changed) && (served.result == 1
                <==> !answer.route_changed && !answer.session_changed))
        }),
{
}

/// A report is taken in by the peer center of the network, and what the center knows is told
/// to those who ask; neither touches anything else.
pub proof fn law_center_requests_are_served(
    core: CoreView,
    network: Seq<char>,
    peer_id: u32,
    descriptor: RpcDescriptorView,
    call: RpcCallView,
    words: Seq<u32>,
    clock_ms: u64,
)
    ensures
        ({
            let (after, outcome) = core.request_handled(network, peer_id, descriptor, call, words, clock_ms);
            &&& call matches RpcCallView::ReportPeers(report) ==> {
                let (center, reported) = peer_center::groups_reported(core.center, network, peer_id, report, clock_ms);
                &&& after == CoreView { center, ..core }
                &&& outcome is Ok <==> reported is Ok
                &&& outcome matches Err(error) ==> reported == Err::<(), EdgeError>(error)
                &&& outcome matches Ok(served) ==> served.reply is ReportPeers && served.error is None && served.result
                    == 1
            }
            &&& call matches RpcCallView::GetGlobalPeerMap(request) ==> {
                &&& after == CoreView { center: after.center, ..core }
                &&& forall|key: Seq<char>| #[trigger]
                    peer_center::group_of(after.center, key) == peer_center::group_of(core.center, key)
                &&& outcome matches Ok(served) && served.error is None && served.result == 1
                    && served.reply == RpcReplyView::GetGlobalPeerMap(
                    peer_center::global_map_of(peer_center::group_of(core.center, network), request.digest),
                )
            }
        }),
{
}

/// What one peer of a network has reported, any peer of that network that asks is told.
pub proof fn law_report_reaches_those_who_ask(
    core: CoreView,
    network: Seq<char>,
    peer_id: u32,
    report: RpcCallView,
    reported_ms: u64,
    asking: u32,
    ask: RpcCallView,
    asked_ms: u64,
    descriptor: RpcDescriptorView,
    words: Seq<u32>,
    dst: u32,
)
    requires
        report is ReportPeers,
        report->ReportPeers_0.my_peer_id == peer_id,
        report->ReportPeers_0.direct_peers.contains_key(dst),
        ask is GetGlobalPeerMap,
        ask->GetGlobalPeerMap_0.digest == 0,
    ensures
        ({
            let after = core.request_handled(network, peer_id, descriptor, report, words, reported_ms).0;
            let answer = after.request_handled(network, asking, descriptor, ask, words, asked_ms).1;
            answer matches Ok(served) && served.reply matches RpcReplyView::GetGlobalPeerMap(map)
                && map.global_peer_map.contains_key(peer_id) && map.global_peer_map[peer_id].contains_key(dst)
                && map.global_peer_map[peer_id][dst] == report->ReportPeers_0.direct_peers[dst]
        }),
{
    let after = core.request_handled(network, peer_id, descriptor, report, words, reported_ms).0;
    let links = peer_center::group_of(after.center, network).links;
    assert(links.contains_key(SrcDstPeerPair { src: peer_id, dst }));
}

/// A request that is not served changes nothing, and is answered with an error that names
/// what was asked for: the service if it is not known, else the method.
pub proof fn law_unserved_request_is_answered(
    core: CoreView,
    network: Seq<char>,
    peer_id: u32,
    descriptor: RpcDescriptorView,
    words: Seq<u32>,
    clock_ms: u64,
)
    ensures
        ({
            let (after, outcome) = core.request_handled(
                network,
                peer_id,
                descriptor,
                RpcCallView::Unserved,
                words,
                clock_ms,
            );
            &&& after == core
            &&& outcome matches Ok(served) && served.reply is Nothing && served.result == 1
            &&& rpc::method_of(descriptor) == RpcMethod::UnknownService ==> outcome->Ok_0.error == Some(
                RpcErrorView::InvalidService { service_name: descriptor.service_name },
            )
            &&& rpc::method_of(descriptor) == RpcMethod::UnknownMethod ==> outcome->Ok_0.error == Some(
                RpcErrorView::InvalidMethodIndex {
                    service_name: descriptor.service_name,
                    method_index: descriptor.method_index,
                },
            )
        }),
{
}

/// An answer that refuses an update, or reports an error, leaves the transaction open and
/// changes nothing; so does one to a transaction that is not open. Any other answer closes
/// the transaction and no other one.
pub proof fn law_answer_closes_its_transaction(
    core: CoreView,
    network: Seq<char>,
    peer_id: u32,
    transaction_id: i64,
    reply: RouteReply,
    words: Seq<u32>,
    clock_ms: u64,
    other: RpcKeyView,
)
    ensures
        ({
            let (after, outcome) = core.response_handled(network, peer_id, transaction_id, reply, words, clock_ms);
            let key = RpcKeyView { network, peer_id, transaction_id, is_request: false };
            let is_accepted = reply matches RouteReply::Answered(response) && response.error is None;
            &&& outcome is Ok <==> is_accepted && core.outstanding.contains_key(key)
            &&& outcome matches Ok(done) ==> done
            &&& outcome is Err ==> after == core
            &&& outcome is Ok ==> !after.outstanding.contains_key(key)
            &&& other != key ==> (after.outstanding.contains_key(other) <==> core.outstanding.contains_key(other))
            &&& other != key && core.outstanding.contains_key(other) ==> after.outstanding[other]
                == core.outstanding[other]
            &&& reply is Rejected ==> outcome == Err::<bool, EdgeError>(EdgeError::RouteRejected)
            &&& reply matches RouteReply::Answered(response) ==> (response.error matches Some(code) ==> outcome == Err::<
                bool,
                EdgeError,
            >(EdgeError::RouteSyncFailed { code }))
            &&& is_accepted && !core.outstanding.contains_key(key) ==> outcome == Err::<bool, EdgeError>(
                EdgeError::TransactionDisappeared,
            )
            &&& after.center == core.center
            &&& after.pending == core.pending
            &&& after.initiators == core.initiators
            &&& after.configured == core.configured
        }),
{
}

/// An accepted answer is remembered in the session of the peer: the session has the name
/// that the peer gave it, the relay has the part in it that it had, and the topology and
/// the versions that the update carried count as told from then on.
pub proof fn law_answer_is_remembered(
    core: CoreView,
    network: Seq<char>,
    peer_id: u32,
    transaction_id: i64,
    reply: RouteReply,
    words: Seq<u32>,
    clock_ms: u64,
)
    requires
        core.response_handled(network, peer_id, transaction_id, reply, words, clock_ms).1 is Ok,
    ensures
        ({
            let key = RpcKeyView { network, peer_id, transaction_id, is_request: false };
            let sent = core.outstanding[key];
            let response = reply->Answered_0;
            let after = core.response_handled(network, peer_id, transaction_id, reply, words, clock_ms).0;
            after.routes == core.routes.acked(
                network,
                peer_id,
                response.session_id,
                core.initiates(network, peer_id),
                words,
                clock_ms,
            ).committed(network, peer_id, sent.peer_info_versions, sent.topology_version, words, clock_ms)
        }),
{
}

/// The relay speaks first in the synchronization with a peer of which it knows nothing;
/// with one that was admitted it waits.
pub proof fn law_relay_waits_for_its_peers(
    core: CoreView,
    network: Seq<char>,
    peer_id: u32,
    key: Seq<u8>,
    words: Seq<u32>,
    other: NetworkPeerView,
)
    requires
        other != (NetworkPeerView { network, peer_id }),
    ensures
        !core.initiators.contains_key(NetworkPeerView { network, peer_id }) ==> core.initiates(network, peer_id),
        ({
            let (after, outcome) = core.added(network, peer_id, key, words);
            &&& outcome is Ok ==> !after.initiates(network, peer_id)
            &&& outcome is Err ==> after.initiates(network, peer_id) == core.initiates(network, peer_id)
            &&& after.initiates(other.network, other.peer_id) == core.initiates(other.network, other.peer_id)
            &&& core.left(network, peer_id, words).initiates(network, peer_id)
            &&& core.left(network, peer_id, words).initiates(other.network, other.peer_id) == core.initiates(
                other.network,
                other.peer_id,
            )
        }),
{
}

/// What the relay publishes in a network once it has admitted a peer there.
pub open spec fn is_known_as_itself(core: CoreView, group: RouteGroupView) -> bool {
    group.my_info.hostname == Some(core.hostname) && group.my_info.noise_static_pubkey == core.public_key
}

/// In every network that has admitted a peer, the relay is known under its name and its
/// key.
pub open spec fn relay_is_known(core: CoreView) -> bool {
    &&& core.public_key.len() == 32
    &&& forall|network: Seq<char>| #[trigger]
        core.configured.contains(network) ==> core.routes.groups.contains_key(network) && is_known_as_itself(
            core,
            core.routes.groups[network],
        )
}

/// A peer that is admitted to a network finds the relay there under its name and its key.
/// That stays so, whatever peers join, leave, send and answer.
pub proof fn law_relay_is_known(
    core: CoreView,
    network: Seq<char>,
    peer_id: u32,
    key: Seq<u8>,
    words: Seq<u32>,
    descriptor: RpcDescriptorView,
    call: RpcCallView,
    transaction_id: i64,
    reply: RouteReply,
    session_id: u64,
    force_full: bool,
    now_ms: u64,
    clock_ms: u64,
)
    requires
        relay_is_known(core),
    ensures
        relay_is_known(core.added(network, peer_id, key, words).0),
        core.added(network, peer_id, key, words).1 is Ok ==> core.added(network, peer_id, key, words).0.configured.contains(
            network,
        ),
        relay_is_known(core.left(network, peer_id, words)),
        relay_is_known(core.request_handled(network, peer_id, descriptor, call, words, clock_ms).0),
        relay_is_known(core.response_handled(network, peer_id, transaction_id, reply, words, clock_ms).0),
        relay_is_known(core.update_built(network, peer_id, session_id, force_full, now_ms, words, clock_ms).0),
{
    reveal_strlit("hostname");
    assert forall|other: Seq<char>| core.configured.contains(other) implies core.routes.groups.contains_key(other)
        && is_known_as_itself(core, core.routes.groups[other]) by {}
    if let RpcCallView::SyncRouteInfo(request) = call {
        let other: u32 = if peer_id == 0 {
            1
        } else {
            0
        };
        crate::route_laws::law_peer_publishes_itself_alone(
            core.routes.group(network, words),
            peer_id,
            request,
            core.routes.my_peer_id,
            clock_ms,
            other,
        );
    }
}

/// A peer that leaves a network takes its own transactions and pieces with it, and leaves
/// those of all other peers as they are.
pub proof fn law_departure_keeps_other_peers(
    core: CoreView,
    network: Seq<char>,
    peer_id: u32,
    words: Seq<u32>,
    key: RpcKeyView,
)
    ensures
        ({
            let after = core.left(network, peer_id, words);
            let is_own = key.network == network && key.peer_id == peer_id;
            &&& after.pending.contains_key(key) <==> core.pending.contains_key(key) && !is_own
            &&& after.outstanding.contains_key(key) <==> core.outstanding.contains_key(key) && !is_own
            &&& after.pending.contains_key(key) ==> after.pending[key] == core.pending[key]
            &&& after.outstanding.contains_key(key) ==> after.outstanding[key] == core.outstanding[key]
            &&& after.routes == core.routes.left(network, peer_id, words)
            &&& after.center == peer_center::groups_without_peer(core.center, network, peer_id)
            &&& after.configured == core.configured
        }),
{
}

/// A new update opens a transaction of its own, until its time is over, and remembers what
/// the peer is told with it; no other transaction changes.
pub proof fn law_update_opens_a_transaction(
    core: CoreView,
    network: Seq<char>,
    peer_id: u32,
    transaction_id: i64,
    versions: Seq<(u32, u32)>,
    topology_version: Option<u64>,
    now_ms: u64,
    other: RpcKeyView,
)
    requires
        now_ms + 3_000 <= u64::MAX,
    ensures
        ({
            let after = core.update_sent(network, peer_id, transaction_id, versions, topology_version, now_ms);
            let key = RpcKeyView { network, peer_id, transaction_id, is_request: false };
            &&& after.outstanding.contains_key(key)
            &&& after.outstanding[key].deadline_ms == now_ms + 3_000
            &&& after.outstanding[key].peer_info_versions == versions
            &&& after.outstanding[key].topology_version == topology_version
            &&& other != key ==> (after.outstanding.contains_key(other) <==> core.outstanding.contains_key(other))
            &&& other != key && core.outstanding.contains_key(other) ==> after.outstanding[other]
                == core.outstanding[other]
            &&& after == CoreView { outstanding: after.outstanding, ..core }
        }),
{
}

/// To build an update drops what has waited for too long, and changes nothing else but the
/// routes of the network.
pub proof fn law_building_an_update_keeps_the_rest(
    core: CoreView,
    network: Seq<char>,
    peer_id: u32,
    session_id: u64,
    force_full: bool,
    now_ms: u64,
    words: Seq<u32>,
    clock_ms: u64,
)
    ensures
        ({
            let (after, update) = core.update_built(network, peer_id, session_id, force_full, now_ms, words, clock_ms);
            &&& (after.routes, update) == core.routes.updated(
                network,
                peer_id,
                session_id,
                core.initiates(network, peer_id),
                force_full,
                words,
                clock_ms,
            )
            &&& forall|key: RpcKeyView| #[trigger]
                after.outstanding.contains_key(key) <==> core.outstanding.contains_key(key) && now_ms
                    <= core.outstanding[key].deadline_ms
            &&& forall|key: RpcKeyView| #[trigger]
                after.pending.contains_key(key) <==> core.pending.contains_key(key) && now_ms
                    - core.pending[key].updated_at_ms < 10_000
            &&& forall|key: RpcKeyView| #[trigger]
                after.outstanding.contains_key(key) ==> after.outstanding[key] == core.outstanding[key]
            &&& after.center == core.center
            &&& after.initiators == core.initiators
            &&& after.configured == core.configured
            &&& after.server_peer_id == core.server_peer_id
        }),
{
}

/// Cleaning drops transactions and pieces that have waited for too long, and links that were
/// not reported for more than three minutes; the routes stay as they are.
pub proof fn law_cleaning_drops_all_that_is_old(
    core: CoreView,
    now_ms: u64,
    clock_ms: u64,
    key: RpcKeyView,
    network: Seq<char>,
    pair: SrcDstPeerPair,
)
    ensures
        ({
            let after = core.all_cleaned(now_ms, clock_ms);
            let was = peer_center::group_of(core.center, network);
            let now = peer_center::group_of(after.center, network);
            &&& after.outstanding.contains_key(key) <==> core.outstanding.contains_key(key) && now_ms
                <= core.outstanding[key].deadline_ms
            &&& after.pending.contains_key(key) <==> core.pending.contains_key(key) && now_ms
                - core.pending[key].updated_at_ms < 10_000
            &&& now.links.contains_key(pair) <==> was.links.contains_key(pair) && clock_ms
                - was.links[pair].update_time_ms <= 180_000
            &&& now.links.contains_key(pair) ==> now.links[pair] == was.links[pair]
            &&& after.routes == core.routes
            &&& after.initiators == core.initiators
            &&& after.configured == core.configured
        }),
{
    let group = collections::value_or(core.center, network, peer_center::CenterGroupView::empty());
    let cleaned = group.cleaned(peer_center::ttl_millis(rpc::PEER_CENTER_TTL_SECONDS), clock_ms);
    assert(cleaned.links.contains_key(pair) ==> !cleaned.is_blank());
}

/// A transaction id is made of the lower 63 bits of what was drawn, so that it is never
/// negative, and two draws that differ there give different ids.
pub proof fn law_transaction_id_is_not_negative(word: Seq<u8>, other: Seq<u8>)
    ensures
        rpc::transaction_id_of(word) >= 0,
        rpc::transaction_id_of(word) == crate::bytes::u64_of_le(word) % 0x8000_0000_0000_0000,
        crate::bytes::u64_of_le(word) < 0x8000_0000_0000_0000 && crate::bytes::u64_of_le(other) < 0x8000_0000_0000_0000
            && crate::bytes::u64_of_le(word) != crate::bytes::u64_of_le(other) ==> rpc::transaction_id_of(word)
            != rpc::transaction_id_of(other),
{
}

/// A new relay is what it was made to be, and knows nobody.
pub proof fn law_new_relay_knows_nobody(public_key: Seq<u8>, hostname: Seq<char>, server_peer_id: u32)
    requires
        public_key.len() == 32,
    ensures
        ({
            let core = CoreView::initial(public_key, hostname, server_peer_id);
            &&& core.public_key == public_key
            &&& core.hostname == hostname
            &&& core.server_peer_id == server_peer_id
            &&& core.routes.my_peer_id == server_peer_id
            &&& relay_is_known(core)
            &&& forall|network: Seq<char>| !#[trigger] core.routes.groups.contains_key(network)
            &&& forall|network: Seq<char>| !#[trigger] core.center.contains_key(network)
            &&& forall|network: Seq<char>| !#[trigger] core.configured.contains(network)
            &&& forall|key: RpcKeyView| !#[trigger] core.pending.contains_key(key)
            &&& forall|key: RpcKeyView| !#[trigger] core.outstanding.contains_key(key)
            &&& forall|peer: NetworkPeerView| !#[trigger] core.initiators.contains_key(peer)
        }),
{
}

/// What is received of a packet that its sender may send is what the pieces make of it: the
/// whole request, if it is not compressed and says what it is for.
pub proof fn law_received_request_is_what_the_pieces_make(
    core: CoreView,
    network: Seq<char>,
    peer_id: u32,
    packet: RpcPacketView,
    now_ms: u64,
)
    requires
        rpc::envelope_obstacle(packet, network, peer_id, core.server_peer_id, true) is None,
    ensures
        ({
            let (after, received) = core.request_received(network, peer_id, packet, now_ms);
            let (pending, merged) = fragments::merged(core.pending, network, peer_id, packet, now_ms);
            &&& after == CoreView { pending, ..core }
            &&& merged is Err ==> received == merged
            &&& merged == Ok::<Option<RpcPacketView>, EdgeError>(None) ==> received == merged
            &&& merged matches Ok(Some(whole)) ==> {
                let is_plain = whole.compression_info is None || whole.compression_info->0.algo
                    <= 1;
                &&& !is_plain ==> received == Err::<Option<RpcPacketView>, EdgeError>(EdgeError::CompressedRpc)
                &&& is_plain && whole.descriptor is None ==> received == Err::<Option<RpcPacketView>, EdgeError>(
                    EdgeError::MissingRequestDescriptor,
                )
                &&& is_plain && whole.descriptor is Some ==> received == merged
            }
        }),
{
}

/// The same for a response that is waited for and in time.
pub proof fn law_received_response_is_what_the_pieces_make(
    core: CoreView,
    network: Seq<char>,
    peer_id: u32,
    packet: RpcPacketView,
    now_ms: u64,
)
    requires
        rpc::envelope_obstacle(packet, network, peer_id, core.server_peer_id, false) is None,
        ({
            let key = RpcKeyView { network, peer_id, transaction_id: packet.transaction_id, is_request: false };
            core.outstanding.contains_key(key) && now_ms <= core.outstanding[key].deadline_ms
        }),
    ensures
        ({
            let (after, received) = core.response_received(network, peer_id, packet, now_ms);
            let (pending, merged) = fragments::merged(core.pending, network, peer_id, packet, now_ms);
            &&& after == CoreView { pending, ..core }
            &&& merged is Err ==> received == merged
            &&& merged == Ok::<Option<RpcPacketView>, EdgeError>(None) ==> received == merged
            &&& merged matches Ok(Some(whole)) ==> {
                let is_plain = whole.compression_info is None || whole.compression_info->0.algo
                    <= 1;
                let is_route = whole.descriptor is Some && rpc::method_of(whole.descriptor->0)
                    == RpcMethod::SyncRouteInfo;
                &&& !is_plain ==> received == Err::<Option<RpcPacketView>, EdgeError>(EdgeError::CompressedRpc)
                &&& is_plain && !is_route ==> received is Err
                &&& is_plain && is_route ==> received == merged
            }
        }),
{
}

/// A peer is admitted to a network exactly if the routes admit it. The first one makes the
/// relay publish its name and its key there; later ones change nothing of that. Nothing else
/// of the relay changes.
pub proof fn law_first_peer_makes_the_relay_known(
    core: CoreView,
    network: Seq<char>,
    peer_id: u32,
    key: Seq<u8>,
    words: Seq<u32>,
)
    requires
        core.public_key.len() == 32,
    ensures
        ({
            let (after, outcome) = core.added(network, peer_id, key, words);
            let (routes, admitted) = core.routes.added(network, peer_id, key, words);
            let before = routes.groups[network];
            let group = after.routes.groups[network];
            let is_first = !core.configured.contains(network);
            &&& outcome == admitted
            &&& outcome is Err ==> after == CoreView { routes, ..core }
            &&& outcome is Ok ==> {
                &&& after.configured.contains(network)
                &&& !is_first ==> after.routes == routes
                &&& is_first ==> is_known_as_itself(core, group)
                &&& is_first && before.my_info_version < u32::MAX - 1 ==> group.my_info_version
                    == before.my_info_version + 2 && group.my_info.version == group.my_info_version
                &&& is_first ==> group == RouteGroupView {
                    my_info: group.my_info,
                    my_info_version: group.my_info_version,
                    ..before
                }
                &&& after.center == core.center
                &&& after.pending == core.pending
                &&& after.outstanding == core.outstanding
                &&& after.hostname == core.hostname
                &&& after.public_key == core.public_key
                &&& after.server_peer_id == core.server_peer_id
            }
        }),
{
    reveal_strlit("hostname");
}

} // verus!
