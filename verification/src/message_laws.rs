//! What holds of messages as values: two that are seen as the same say the same in every
//! field, and a copy says what the original says.
use vstd::prelude::*;

use crate::collections;
use crate::proto::{
    ConnInfo, GetGlobalPeerMapResponse, PeerConnInfo, PeerFeatureFlag, ReportPeersRequest, RouteConnBitmap,
    RoutePeerInfo, RpcDescriptor, RpcError, RpcPacket, SyncRouteInfoRequest,
};
use crate::route_state::RouteUpdate;
use crate::rpc::{NetworkPeer, RequestOutcome, RpcCall, RpcReply};

verus! {

/// What a peer publishes of itself is seen in every field.
pub proof fn law_information_is_seen_whole(a: RoutePeerInfo, b: RoutePeerInfo)
    requires
        a@ == b@,
    ensures
        a.peer_id == b.peer_id,
        a.inst_id == b.inst_id,
        a.cost == b.cost,
        a.ipv4_addr == b.ipv4_addr,
        a.hostname is Some <==> b.hostname is Some,
        a.hostname is Some ==> a.hostname->0@ == b.hostname->0@,
        a.last_update == b.last_update,
        a.version == b.version,
        a.easytier_version@ == b.easytier_version@,
        a.feature_flag is Some <==> b.feature_flag is Some,
        a.feature_flag is Some ==> a.feature_flag->0@ == b.feature_flag->0@,
        a.peer_route_id == b.peer_route_id,
        a.network_length == b.network_length,
        a.noise_static_pubkey@ == b.noise_static_pubkey@,
        a.rest@ == b.rest@,
        a@.peer_id == a.peer_id,
        a@.inst_id == a.inst_id,
        a@.version == a.version,
        a@.noise_static_pubkey == a.noise_static_pubkey@,
{
}

pub proof fn law_features_are_seen_whole(a: PeerFeatureFlag, b: PeerFeatureFlag)
    requires
        a@ == b@,
    ensures
        a.is_public_server == b.is_public_server,
        a.avoid_relay_data == b.avoid_relay_data,
        a.kcp_input == b.kcp_input,
        a.no_relay_kcp == b.no_relay_kcp,
        a.support_conn_list_sync == b.support_conn_list_sync,
        a.disable_p2p == b.disable_p2p,
        a.rest@ == b.rest@,
        a@.support_conn_list_sync == a.support_conn_list_sync,
{
}

/// A topology is seen in both of its forms.
pub proof fn law_topology_is_seen_whole(a: ConnInfo, b: ConnInfo)
    requires
        a@ == b@,
    ensures
        a is ConnBitmap <==> b is ConnBitmap,
        a is ConnBitmap ==> a->ConnBitmap_0.peer_ids@ == b->ConnBitmap_0.peer_ids@ && a->ConnBitmap_0.bitmap@
            == b->ConnBitmap_0.bitmap@,
        a is ConnPeerList ==> a->ConnPeerList_0.peer_conn_infos@.len() == b->ConnPeerList_0.peer_conn_infos@.len(),
        a is ConnPeerList ==> forall|i: int|
            0 <= i < a->ConnPeerList_0.peer_conn_infos@.len() ==> (#[trigger] a->ConnPeerList_0.peer_conn_infos@[i])@
                == b->ConnPeerList_0.peer_conn_infos@[i]@,
{
    if a is ConnPeerList {
        let x = a->ConnPeerList_0.peer_conn_infos@;
        let y = b->ConnPeerList_0.peer_conn_infos@;
        assert(collections::list_view(x) == collections::list_view(y));
        assert(collections::list_view(x).len() == collections::list_view(y).len());
        assert forall|i: int| 0 <= i < x.len() implies (#[trigger] x[i])@ == y[i]@ by {
            assert(collections::list_view(x)[i] == collections::list_view(y)[i]);
        }
    }
}

pub proof fn law_connections_are_seen_whole(a: PeerConnInfo, b: PeerConnInfo, c: RouteConnBitmap, d: RouteConnBitmap)
    ensures
        a@ == b@ ==> a.peer_id == b.peer_id && a.connected_peer_ids@ == b.connected_peer_ids@,
        c@ == d@ ==> c.peer_ids@ == d.peer_ids@ && c.bitmap@ == d.bitmap@,
        a@.peer_id == a.peer_id,
        a@.connected_peer_ids == a.connected_peer_ids@,
        c@.peer_ids == c.peer_ids@,
        c@.bitmap == c.bitmap@,
{
}

/// A request for synchronization is seen in every field.
pub proof fn law_route_request_is_seen_whole(a: SyncRouteInfoRequest, b: SyncRouteInfoRequest)
    requires
        a@ == b@,
    ensures
        a.my_peer_id == b.my_peer_id,
        a.my_session_id == b.my_session_id,
        a.is_initiator == b.is_initiator,
        a.peer_infos is Some <==> b.peer_infos is Some,
        a.peer_infos is Some ==> a.peer_infos->0@.len() == b.peer_infos->0@.len(),
        a.peer_infos is Some ==> forall|i: int|
            0 <= i < a.peer_infos->0@.len() ==> (#[trigger] a.peer_infos->0@[i])@ == b.peer_infos->0@[i]@,
        a.conn_info is Some <==> b.conn_info is Some,
        a.conn_info is Some ==> a.conn_info->0@ == b.conn_info->0@,
        a.foreign_network_infos is Some <==> b.foreign_network_infos is Some,
        a.foreign_network_infos is Some ==> a.foreign_network_infos->0@ == b.foreign_network_infos->0@,
        a@.my_peer_id == a.my_peer_id,
        a@.my_session_id == a.my_session_id,
        a@.is_initiator == a.is_initiator,
{
    if a.peer_infos is Some {
        let x = a.peer_infos->0@;
        let y = b.peer_infos->0@;
        assert(collections::list_view(x) == collections::list_view(y));
        assert(collections::list_view(x).len() == collections::list_view(y).len());
        assert forall|i: int| 0 <= i < x.len() implies (#[trigger] x[i])@ == y[i]@ by {
            assert(collections::list_view(x)[i] == collections::list_view(y)[i]);
        }
    }
}

/// An update is seen with what goes out and with what it makes the peer know.
pub proof fn law_update_is_seen_whole(update: RouteUpdate)
    ensures
        update@.request == update.request@,
        update@.peer_info_versions == update.peer_info_versions@,
        update@.topology_version == update.topology_version,
{
}

/// A report and a map of links are seen with all their links.
pub proof fn law_links_are_seen_whole(report: ReportPeersRequest, map: GetGlobalPeerMapResponse)
    ensures
        report@.my_peer_id == report.my_peer_id,
        report.peer_infos is Some ==> report@.direct_peers == report.peer_infos->0.direct_peers@,
        report.peer_infos is None ==> report@.direct_peers.dom() =~= Set::empty(),
        map@.digest == map.digest,
        map@.global_peer_map == map.global_peer_map@,
{
}

/// An RPC packet is seen in every field.
pub proof fn law_packet_is_seen_whole(packet: RpcPacket)
    ensures
        packet@.from_peer == packet.from_peer,
        packet@.to_peer == packet.to_peer,
        packet@.transaction_id == packet.transaction_id,
        packet@.descriptor is Some <==> packet.descriptor is Some,
        packet.descriptor is Some ==> packet@.descriptor->0 == packet.descriptor->0@,
        packet@.body == packet.body@,
        packet@.is_request == packet.is_request,
        packet@.total_pieces == packet.total_pieces,
        packet@.piece_idx == packet.piece_idx,
        packet@.trace_id == packet.trace_id,
        packet@.compression_info == packet.compression_info,
{
}

pub proof fn law_descriptor_is_seen_whole(descriptor: RpcDescriptor, peer: NetworkPeer)
    ensures
        descriptor@.domain_name == descriptor.domain_name@,
        descriptor@.proto_name == descriptor.proto_name@,
        descriptor@.service_name == descriptor.service_name@,
        descriptor@.method_index == descriptor.method_index,
        peer@.network == peer.network@,
        peer@.peer_id == peer.peer_id,
{
}

/// What a request says, and what it is answered, is seen as it is.
pub proof fn law_call_is_seen_whole(call: RpcCall, outcome: RequestOutcome, error: RpcError)
    ensures
        call matches RpcCall::SyncRouteInfo(request) ==> call@ is SyncRouteInfo && call@->SyncRouteInfo_0 == request@,
        call matches RpcCall::ReportPeers(request) ==> call@ is ReportPeers && call@->ReportPeers_0 == request@,
        call matches RpcCall::GetGlobalPeerMap(request) ==> call@ is GetGlobalPeerMap && call@->GetGlobalPeerMap_0
            == request,
        call is Unserved ==> call@ is Unserved,
        outcome@.result == outcome.result,
        outcome@.error is Some <==> outcome.error is Some,
        outcome.error is Some ==> outcome@.error->0 == outcome.error->0@,
        outcome.reply matches RpcReply::SyncRouteInfo(response) ==> outcome@.reply is SyncRouteInfo
            && outcome@.reply->SyncRouteInfo_0 == response,
        outcome.reply matches RpcReply::GetGlobalPeerMap(response) ==> outcome@.reply is GetGlobalPeerMap
            && outcome@.reply->GetGlobalPeerMap_0 == response@,
        outcome.reply is ReportPeers <==> outcome@.reply is ReportPeers,
        outcome.reply is Nothing <==> outcome@.reply is Nothing,
        error is InvalidService <==> error@ is InvalidService,
{
}

} // verus!
