//! The RPC services of the relay: route synchronization and the peer center.
//!
//! Messages cross this module as plain values. A request comes in as a packet, whose
//! body the caller decodes once the packet is whole and accepted; the reply goes out
//! the same way. `now_ms` is the time by which pieces and transactions age, and
//! `clock_ms` the time that the route state and the peer center are stamped with.
use vstd::prelude::*;
use vstd::string::StringExecFns;

use crate::bytes;
use crate::collections;
use crate::collections::{Duplicate, MapKey, VecMap};
use crate::crypto;
use crate::error::EdgeError;
use crate::fragments;
use crate::fragments::{MergedPacket, Pending, PendingRpcs, PendingView, RpcKey, RpcKeyView};
use crate::peer_center;
use crate::peer_center::{Groups, PeerCenter};
use crate::proto::{
    GetGlobalPeerMapRequest, GetGlobalPeerMapResponse, GlobalPeerMapView, ReportPeersRequest, ReportPeersRequestView,
    RpcCompressionInfo, RpcDescriptor, RpcDescriptorView, RpcError, RpcErrorView, RpcPacket, RpcPacketView, RpcRequest,
    RpcResponse, SyncRouteInfoRequest, SyncRouteInfoRequestView, SyncRouteInfoResponse,
};
use crate::route_state;
use crate::route_state::{GroupSeed, RouteState, RouteStateView, RouteUpdateView};
use crate::text;

verus! {

pub const ROUTE_RPC_TIMEOUT_MS: u64 = 3_000;

pub const PEER_CENTER_TTL_SECONDS: u64 = 180;

pub const RESULT_HANDLED: u8 = 1;

pub const RESULT_ROUTE: u8 = 2;

pub const RESULT_ROUTE_SESSION: u8 = 3;

/// How often a transaction id is drawn before the search is given up.
pub const TRANSACTION_ID_TRIES: u32 = 16;

/// The number that stands for an uncompressed body.
pub const COMPRESSION_NONE: i32 = 1;

/// A peer of a network.
#[derive(Debug)]
pub struct NetworkPeer {
    pub network: String,
    pub peer_id: u32,
}

#[verifier::ext_equal]
pub struct NetworkPeerView {
    pub network: Seq<char>,
    pub peer_id: u32,
}

impl View for NetworkPeer {
    type V = NetworkPeerView;

    open spec fn view(&self) -> NetworkPeerView {
        NetworkPeerView { network: self.network@, peer_id: self.peer_id }
    }
}

impl Duplicate for NetworkPeer {
    fn duplicate(&self) -> (r: Self) {
        NetworkPeer { network: self.network.clone(), peer_id: self.peer_id }
    }
}

impl MapKey for NetworkPeer {
    fn same(&self, other: &Self) -> (r: bool) {
        self.peer_id == other.peer_id && self.network == other.network
    }
}

struct OutstandingRoute {
    deadline_ms: u64,
    peer_info_versions: Vec<(u32, u32)>,
    topology_version: Option<u64>,
}

/// An update that was sent, until when its answer is waited for, and what the peer
/// knows once it has answered.
#[verifier::ext_equal]
pub struct OutstandingView {
    pub deadline_ms: u64,
    pub peer_info_versions: Seq<(u32, u32)>,
    pub topology_version: Option<u64>,
}

impl View for OutstandingRoute {
    type V = OutstandingView;

    closed spec fn view(&self) -> OutstandingView {
        OutstandingView {
            deadline_ms: self.deadline_ms,
            peer_info_versions: self.peer_info_versions@,
            topology_version: self.topology_version,
        }
    }
}

/// The RPC state of a relay.
pub struct WasmRpcCore {
    routes: RouteState,
    peer_center: PeerCenter,
    configured_groups: VecMap<String, bool>,
    peer_initiator: VecMap<NetworkPeer, bool>,
    pending: PendingRpcs,
    outstanding_routes: VecMap<RpcKey, OutstandingRoute>,
    public_key: [u8; 32],
    hostname: String,
    server_peer_id: u32,
}

#[verifier::ext_equal]
pub struct CoreView {
    pub routes: RouteStateView,
    pub center: Groups,
    pub configured: Set<Seq<char>>,
    pub initiators: Map<NetworkPeerView, bool>,
    pub pending: Pending,
    pub outstanding: Map<RpcKeyView, OutstandingView>,
    pub public_key: Seq<u8>,
    pub hostname: Seq<char>,
    pub server_peer_id: u32,
}

impl View for WasmRpcCore {
    type V = CoreView;

    closed spec fn view(&self) -> CoreView {
        CoreView {
            routes: self.routes@,
            center: self.peer_center@,
            configured: self.configured_groups@.dom(),
            initiators: self.peer_initiator@,
            pending: self.pending@,
            outstanding: self.outstanding_routes@,
            public_key: self.public_key@,
            hostname: self.hostname@,
            server_peer_id: self.server_peer_id,
        }
    }
}

/// A descriptor names a service, under one of the three names that its protocol goes
/// by.
pub open spec fn names_service(descriptor: RpcDescriptorView, service: Seq<char>) -> bool {
    descriptor.service_name == service && (descriptor.proto_name == "peer_rpc."@ + service || descriptor.proto_name
        == "peer_rpc"@ || descriptor.proto_name == service)
}

/// The methods that are served.
#[derive(Debug, Clone, Copy, PartialEq, Eq, Structural)]
pub enum RpcMethod {
    SyncRouteInfo,
    ReportPeers,
    GetGlobalPeerMap,
    UnknownMethod,
    UnknownService,
}

/// The method that a descriptor names.
pub open spec fn method_of(descriptor: RpcDescriptorView) -> RpcMethod {
    if names_service(descriptor, "OspfRouteRpc"@) {
        if descriptor.method_index == 1 {
            RpcMethod::SyncRouteInfo
        } else {
            RpcMethod::UnknownMethod
        }
    } else if names_service(descriptor, "PeerCenterRpc"@) {
        if descriptor.method_index == 1 {
            RpcMethod::ReportPeers
        } else if descriptor.method_index == 2 {
            RpcMethod::GetGlobalPeerMap
        } else {
            RpcMethod::UnknownMethod
        }
    } else {
        RpcMethod::UnknownService
    }
}

/// A decoded request.
pub enum RpcCall {
    SyncRouteInfo(SyncRouteInfoRequest),
    ReportPeers(ReportPeersRequest),
    GetGlobalPeerMap(GetGlobalPeerMapRequest),
    Unserved,
}

#[verifier::ext_equal]
pub enum RpcCallView {
    SyncRouteInfo(SyncRouteInfoRequestView),
    ReportPeers(ReportPeersRequestView),
    GetGlobalPeerMap(GetGlobalPeerMapRequest),
    Unserved,
}

impl View for RpcCall {
    type V = RpcCallView;

    open spec fn view(&self) -> RpcCallView {
        match self {
            RpcCall::SyncRouteInfo(request) => RpcCallView::SyncRouteInfo(request@),
            RpcCall::ReportPeers(request) => RpcCallView::ReportPeers(request@),
            RpcCall::GetGlobalPeerMap(request) => RpcCallView::GetGlobalPeerMap(*request),
            RpcCall::Unserved => RpcCallView::Unserved,
        }
    }
}

/// Whether a request was decoded as its method asks for.
pub open spec fn call_fits(call: RpcCallView, method: RpcMethod) -> bool {
    match method {
        RpcMethod::SyncRouteInfo => call is SyncRouteInfo,
        RpcMethod::ReportPeers => call is ReportPeers,
        RpcMethod::GetGlobalPeerMap => call is GetGlobalPeerMap,
        RpcMethod::UnknownMethod => call is Unserved,
        RpcMethod::UnknownService => call is Unserved,
    }
}

/// What a request is answered with, before it is encoded.
pub enum RpcReply {
    SyncRouteInfo(SyncRouteInfoResponse),
    ReportPeers,
    GetGlobalPeerMap(GetGlobalPeerMapResponse),
    Nothing,
}

#[verifier::ext_equal]
pub enum RpcReplyView {
    SyncRouteInfo(SyncRouteInfoResponse),
    ReportPeers,
    GetGlobalPeerMap(GlobalPeerMapView),
    Nothing,
}

impl View for RpcReply {
    type V = RpcReplyView;

    open spec fn view(&self) -> RpcReplyView {
        match self {
            RpcReply::SyncRouteInfo(response) => RpcReplyView::SyncRouteInfo(*response),
            RpcReply::ReportPeers => RpcReplyView::ReportPeers,
            RpcReply::GetGlobalPeerMap(response) => RpcReplyView::GetGlobalPeerMap(response@),
            RpcReply::Nothing => RpcReplyView::Nothing,
        }
    }
}

/// What became of a request: what the caller has to do, the reply, and why the
/// request was not served, if it was not.
pub struct RequestOutcome {
    pub result: u8,
    pub reply: RpcReply,
    pub error: Option<RpcError>,
}

#[verifier::ext_equal]
pub struct OutcomeView {
    pub result: u8,
    pub reply: RpcReplyView,
    pub error: Option<RpcErrorView>,
}

impl View for RequestOutcome {
    type V = OutcomeView;

    open spec fn view(&self) -> OutcomeView {
        OutcomeView { result: self.result, reply: self.reply@, error: collections::option_view(self.error) }
    }
}

pub open spec fn outcome_view(r: Result<RequestOutcome, EdgeError>) -> Result<OutcomeView, EdgeError> {
    match r {
        Ok(outcome) => Ok(outcome@),
        Err(error) => Err(error),
    }
}

/// The answer to a route update: refused as a whole, or answered.
#[derive(Debug, Clone, Copy, PartialEq, Eq, Structural)]
pub enum RouteReply {
    Rejected,
    Answered(SyncRouteInfoResponse),
}

/// A route update before it is encoded, and the transaction that it opens.
pub struct RouteRequest {
    pub transaction_id: i64,
    pub request: SyncRouteInfoRequest,
}

/// Why a packet is not accepted from a peer, if it is not.
pub open spec fn envelope_obstacle(
    packet: RpcPacketView,
    network: Seq<char>,
    peer_id: u32,
    server_peer_id: u32,
    is_request: bool,
) -> Option<EdgeError> {
    if packet.from_peer != peer_id || packet.to_peer != server_peer_id {
        Some(EdgeError::EnvelopeMismatch)
    } else if packet.is_request != is_request {
        Some(EdgeError::UnexpectedDirection)
    } else if packet.descriptor matches Some(descriptor) && descriptor.domain_name != network {
        Some(EdgeError::CrossNetworkDomain)
    } else {
        None
    }
}

/// Whether the body of a packet is compressed.
pub open spec fn is_compressed(packet: RpcPacketView) -> bool {
    packet.compression_info matches Some(info) && info.algo > COMPRESSION_NONE
}

/// Why a whole request is refused, if it is.
pub open spec fn request_obstacle(packet: RpcPacketView) -> Option<EdgeError> {
    if is_compressed(packet) {
        Some(EdgeError::CompressedRpc)
    } else if packet.descriptor is None {
        Some(EdgeError::MissingRequestDescriptor)
    } else {
        None
    }
}

/// Why a whole response is refused, if it is.
pub open spec fn response_obstacle(packet: RpcPacketView) -> Option<EdgeError> {
    if is_compressed(packet) {
        Some(EdgeError::CompressedRpc)
    } else {
        match packet.descriptor {
            None => Some(EdgeError::MissingResponseDescriptor),
            Some(descriptor) => if method_of(descriptor) != RpcMethod::SyncRouteInfo {
                Some(EdgeError::ResponseDescriptorMismatch)
            } else {
                None
            },
        }
    }
}

/// The whole packet, if it is whole and not refused.
pub open spec fn screened(merged: Result<Option<RpcPacketView>, EdgeError>, is_request: bool) -> Result<
    Option<RpcPacketView>,
    EdgeError,
> {
    match merged {
        Ok(Some(packet)) => match (if is_request {
            request_obstacle(packet)
        } else {
            response_obstacle(packet)
        }) {
            Some(error) => Err(error),
            None => Ok(Some(packet)),
        },
        Ok(None) => Ok(None),
        Err(error) => Err(error),
    }
}

pub open spec fn received_view(r: Result<Option<RpcPacket>, EdgeError>) -> Result<Option<RpcPacketView>, EdgeError> {
    match r {
        Ok(Some(packet)) => Ok(Some(packet@)),
        Ok(None) => Ok(None),
        Err(error) => Err(error),
    }
}

impl CoreView {
    /// Every network has finitely many members and links, and what is buffered is sound.
    pub open spec fn is_valid(self) -> bool {
        &&& route_state::is_finite(self.routes)
        &&& peer_center::is_finite(self.center)
        &&& fragments::is_sound(self.pending)
    }

    /// A relay without peers.
    pub open spec fn initial(public_key: Seq<u8>, hostname: Seq<char>, server_peer_id: u32) -> CoreView {
        CoreView {
            routes: RouteStateView { groups: Map::empty(), my_peer_id: server_peer_id },
            center: Map::empty(),
            configured: Set::empty(),
            initiators: Map::empty(),
            pending: Map::empty(),
            outstanding: Map::empty(),
            public_key,
            hostname,
            server_peer_id,
        }
    }

    /// Once a peer was to be admitted to a network. The first peer of a network has
    /// the relay publish its name and its key there.
    pub open spec fn added(self, network: Seq<char>, peer_id: u32, key: Seq<u8>, words: Seq<u32>) -> (
        CoreView,
        Result<(), EdgeError>,
    ) {
        let (routes, outcome) = self.routes.added(network, peer_id, key, words);
        let named = routes.with_field(network, "hostname"@, self.hostname, words).0;
        let configured = named.with_noise_key(network, self.public_key, words).0;
        match outcome {
            Err(error) => (CoreView { routes, ..self }, Err(error)),
            Ok(()) => (
                CoreView {
                    routes: if self.configured.contains(network) {
                        routes
                    } else {
                        configured
                    },
                    configured: self.configured.insert(network),
                    initiators: self.initiators.insert(NetworkPeerView { network, peer_id }, false),
                    ..self
                },
                Ok(()),
            ),
        }
    }

    /// Without a peer of a network.
    pub open spec fn left(self, network: Seq<char>, peer_id: u32, words: Seq<u32>) -> CoreView {
        CoreView {
            routes: self.routes.left(network, peer_id, words),
            center: peer_center::groups_without_peer(self.center, network, peer_id),
            initiators: self.initiators.remove(NetworkPeerView { network, peer_id }),
            pending: collections::kept(
                self.pending,
                |key: RpcKeyView, value: PendingView| !fragments::of_peer(network, peer_id)(key),
            ),
            outstanding: collections::kept(
                self.outstanding,
                |key: RpcKeyView, value: OutstandingView| !fragments::of_peer(network, peer_id)(key),
            ),
            ..self
        }
    }

    /// Once a packet with a request has come in, and the request if it is whole and
    /// accepted.
    pub open spec fn request_received(self, network: Seq<char>, peer_id: u32, packet: RpcPacketView, now_ms: u64) -> (
        CoreView,
        Result<Option<RpcPacketView>, EdgeError>,
    ) {
        match envelope_obstacle(packet, network, peer_id, self.server_peer_id, true) {
            Some(error) => (self, Err(error)),
            None => {
                let (pending, merged) = fragments::merged(self.pending, network, peer_id, packet, now_ms);
                (
                    CoreView { pending, ..self },
                    screened(merged, true),
                )
            },
        }
    }

    /// Once a packet with a response has come in, and the response if it is whole,
    /// in time and accepted.
    pub open spec fn response_received(self, network: Seq<char>, peer_id: u32, packet: RpcPacketView, now_ms: u64) -> (
        CoreView,
        Result<Option<RpcPacketView>, EdgeError>,
    ) {
        let key = RpcKeyView { network, peer_id, transaction_id: packet.transaction_id, is_request: false };
        match envelope_obstacle(packet, network, peer_id, self.server_peer_id, false) {
            Some(error) => (self, Err(error)),
            None => if !self.outstanding.contains_key(key) {
                (self, Err(EdgeError::UnknownTransaction))
            } else if now_ms > self.outstanding[key].deadline_ms {
                (
                    CoreView { outstanding: self.outstanding.remove(key), ..self },
                    Err(EdgeError::LateResponse),
                )
            } else {
                let (pending, merged) = fragments::merged(self.pending, network, peer_id, packet, now_ms);
                (
                    CoreView { pending, ..self },
                    screened(merged, false),
                )
            },
        }
    }

    /// Once a request has been served, and what became of it.
    pub open spec fn request_handled(
        self,
        network: Seq<char>,
        peer_id: u32,
        descriptor: RpcDescriptorView,
        call: RpcCallView,
        words: Seq<u32>,
        clock_ms: u64,
    ) -> (CoreView, Result<OutcomeView, EdgeError>) {
        match call {
            RpcCallView::SyncRouteInfo(request) => {
                let (routes, synced) = self.routes.synced(network, peer_id, request, words, clock_ms);
                (
                    CoreView {
                        routes,
                        initiators: self.initiators.insert(
                            NetworkPeerView { network, peer_id },
                            !request.is_initiator,
                        ),
                        ..self
                    },
                    match synced {
                        Err(error) => Err(error),
                        Ok(outcome) => Ok(
                            OutcomeView {
                                result: if outcome.route_changed {
                                    RESULT_ROUTE
                                } else if outcome.session_changed {
                                    RESULT_ROUTE_SESSION
                                } else {
                                    RESULT_HANDLED
                                },
                                reply: RpcReplyView::SyncRouteInfo(outcome.response),
                                error: None,
                            },
                        ),
                    },
                )
            },
            RpcCallView::ReportPeers(request) => {
                let (center, reported) = peer_center::groups_reported(
                    self.center,
                    network,
                    peer_id,
                    request,
                    clock_ms,
                );
                (
                    CoreView { center, ..self },
                    match reported {
                        Err(error) => Err(error),
                        Ok(()) => Ok(
                            OutcomeView { result: RESULT_HANDLED, reply: RpcReplyView::ReportPeers, error: None },
                        ),
                    },
                )
            },
            RpcCallView::GetGlobalPeerMap(request) => {
                let group = peer_center::group_of(self.center, network);
                (
                    CoreView { center: self.center.insert(network, group), ..self },
                    Ok(
                        OutcomeView {
                            result: RESULT_HANDLED,
                            reply: RpcReplyView::GetGlobalPeerMap(
                                peer_center::global_map_of(group, request.digest),
                            ),
                            error: None,
                        },
                    ),
                )
            },
            RpcCallView::Unserved => (
                self,
                Ok(
                    OutcomeView {
                        result: RESULT_HANDLED,
                        reply: RpcReplyView::Nothing,
                        error: Some(
                            if method_of(descriptor) == RpcMethod::UnknownService {
                                RpcErrorView::InvalidService { service_name: descriptor.service_name }
                            } else {
                                RpcErrorView::InvalidMethodIndex {
                                    service_name: descriptor.service_name,
                                    method_index: descriptor.method_index,
                                }
                            },
                        ),
                    },
                ),
            ),
        }
    }

    /// Whether the relay speaks first in the synchronization with a peer.
    pub open spec fn initiates(self, network: Seq<char>, peer_id: u32) -> bool {
        collections::value_or(self.initiators, NetworkPeerView { network, peer_id }, true)
    }

    /// Once the answer to a route update has been taken in.
    pub open spec fn response_handled(
        self,
        network: Seq<char>,
        peer_id: u32,
        transaction_id: i64,
        reply: RouteReply,
        words: Seq<u32>,
        clock_ms: u64,
    ) -> (CoreView, Result<bool, EdgeError>) {
        let key = RpcKeyView { network, peer_id, transaction_id, is_request: false };
        let sent = self.outstanding[key];
        match reply {
            RouteReply::Rejected => (self, Err(EdgeError::RouteRejected)),
            RouteReply::Answered(response) => match response.error {
                Some(code) => (self, Err(EdgeError::RouteSyncFailed { code })),
                None => if !self.outstanding.contains_key(key) {
                    (self, Err(EdgeError::TransactionDisappeared))
                } else {
                    (
                        CoreView {
                            outstanding: self.outstanding.remove(key),
                            routes: self.routes.acked(
                                network,
                                peer_id,
                                response.session_id,
                                self.initiates(network, peer_id),
                                words,
                                clock_ms,
                            ).committed(
                                network,
                                peer_id,
                                sent.peer_info_versions,
                                sent.topology_version,
                                words,
                                clock_ms,
                            ),
                            ..self
                        },
                        Ok(true),
                    )
                },
            },
        }
    }

    /// Without what has waited for too long.
    pub open spec fn rpc_cleaned(self, now_ms: u64) -> CoreView {
        CoreView {
            pending: collections::kept(self.pending, fragments::fresh(now_ms)),
            outstanding: collections::kept(self.outstanding, in_time(now_ms)),
            ..self
        }
    }

    /// Without all that has waited for too long, or was not reported for too long.
    pub open spec fn all_cleaned(self, now_ms: u64, clock_ms: u64) -> CoreView {
        CoreView {
            center: peer_center::cleaned_groups(
                self.center,
                peer_center::ttl_millis(PEER_CENTER_TTL_SECONDS),
                clock_ms,
            ),
            ..self.rpc_cleaned(now_ms)
        }
    }

    /// Once an update for a peer has been built, and the update.
    pub open spec fn update_built(
        self,
        network: Seq<char>,
        peer_id: u32,
        session_id: u64,
        force_full: bool,
        now_ms: u64,
        words: Seq<u32>,
        clock_ms: u64,
    ) -> (CoreView, Result<RouteUpdateView, EdgeError>) {
        let clean = self.rpc_cleaned(now_ms);
        let (routes, update) = clean.routes.updated(
            network,
            peer_id,
            session_id,
            clean.initiates(network, peer_id),
            force_full,
            words,
            clock_ms,
        );
        (CoreView { routes, ..clean }, update)
    }

    /// Whether a transaction id can be given to an update for a peer.
    pub open spec fn is_free_id(self, network: Seq<char>, peer_id: u32, id: i64) -> bool {
        id != 0 && !self.outstanding.contains_key(
            RpcKeyView { network, peer_id, transaction_id: id, is_request: false },
        )
    }

    /// What a draw means for the search of a transaction id, after `tries` draws in
    /// vain: an id, one more draw, or the end of the search.
    pub open spec fn id_stepped(self, network: Seq<char>, peer_id: u32, tries: int, drawn: Draw) -> Result<
        Option<i64>,
        EdgeError,
    > {
        match drawn {
            Ok(word) => {
                let id = transaction_id_of(word);
                if self.is_free_id(network, peer_id, id) {
                    Ok(Some(id))
                } else if tries + 1 < TRANSACTION_ID_TRIES {
                    Ok(None)
                } else {
                    Err(EdgeError::TransactionIdExhausted)
                }
            },
            Err(error) => Err(error),
        }
    }

    /// How far the search of a transaction id has come after some draws; nothing is
    /// drawn any more once it has ended.
    pub open spec fn id_searched(self, network: Seq<char>, peer_id: u32, draws: Seq<Draw>) -> Result<
        Option<i64>,
        EdgeError,
    >
        decreases draws.len(),
    {
        if draws.len() == 0 {
            Ok(None)
        } else {
            match self.id_searched(network, peer_id, draws.drop_last()) {
                Ok(None) => self.id_stepped(network, peer_id, draws.len() - 1, draws.last()),
                ended => ended,
            }
        }
    }

    /// Whether some draws end the search of a transaction id with this result, and not
    /// before the last of them.
    pub open spec fn id_found(self, network: Seq<char>, peer_id: u32, draws: Seq<Draw>, r: Result<i64, EdgeError>) -> bool {
        &&& are_draws(draws)
        &&& 0 < draws.len() <= TRANSACTION_ID_TRIES
        &&& self.id_searched(network, peer_id, draws.drop_last()) == Ok::<Option<i64>, EdgeError>(None)
        &&& self.id_searched(network, peer_id, draws) == match r {
            Ok(id) => Ok(Some(id)),
            Err(error) => Err(error),
        }
    }

    /// Once an update has been sent in a transaction.
    pub open spec fn update_sent(
        self,
        network: Seq<char>,
        peer_id: u32,
        transaction_id: i64,
        versions: Seq<(u32, u32)>,
        topology_version: Option<u64>,
        now_ms: u64,
    ) -> CoreView {
        CoreView {
            outstanding: self.outstanding.insert(
                RpcKeyView { network, peer_id, transaction_id, is_request: false },
                OutstandingView {
                    deadline_ms: crate::session::capped_sum(now_ms, ROUTE_RPC_TIMEOUT_MS),
                    peer_info_versions: versions,
                    topology_version,
                },
            ),
            ..self
        }
    }
}

/// The packet that answers a request of a peer.
pub open spec fn answer_to(server_peer_id: u32, peer_id: u32, request: RpcPacketView, body: Seq<u8>) -> RpcPacketView {
    RpcPacketView {
        from_peer: server_peer_id,
        to_peer: peer_id,
        body,
        is_request: false,
        total_pieces: 1,
        piece_idx: 0,
        compression_info: Some(RpcCompressionInfo { algo: COMPRESSION_NONE, accepted_algo: COMPRESSION_NONE }),
        ..request
    }
}

/// The packet that carries a route update to a peer.
pub open spec fn update_to(
    server_peer_id: u32,
    network: Seq<char>,
    peer_id: u32,
    transaction_id: i64,
    body: Seq<u8>,
) -> RpcPacketView {
    RpcPacketView {
        from_peer: server_peer_id,
        to_peer: peer_id,
        transaction_id,
        descriptor: Some(
            RpcDescriptorView {
                domain_name: network,
                proto_name: "OspfRouteRpc"@,
                service_name: "OspfRouteRpc"@,
                method_index: 1,
            },
        ),
        body,
        is_request: true,
        total_pieces: 1,
        piece_idx: 0,
        trace_id: 0,
        compression_info: Some(RpcCompressionInfo { algo: COMPRESSION_NONE, accepted_algo: COMPRESSION_NONE }),
    }
}

/// The transactions whose answer is still waited for.
pub open spec fn in_time(now_ms: u64) -> spec_fn(RpcKeyView, OutstandingView) -> bool {
    |key: RpcKeyView, value: OutstandingView| now_ms <= value.deadline_ms
}

/// The outcome of a draw of random bytes.
pub type Draw = Result<Seq<u8>, EdgeError>;

/// What was drawn.
pub open spec fn draw_view(drawn: Result<[u8; 8], EdgeError>) -> Draw {
    match drawn {
        Ok(word) => Ok(word@),
        Err(error) => Err(error),
    }
}

/// Each draw gives eight bytes, or the error of the random source.
pub open spec fn are_draws(draws: Seq<Draw>) -> bool {
    forall|i: int|
        0 <= i < draws.len() ==> match #[trigger] draws[i] {
            Ok(word) => word.len() == 8,
            Err(error) => error is Random,
        }
}

/// The transaction id that eight random bytes stand for: their lower 63 bits.
pub open spec fn transaction_id_of(word: Seq<u8>) -> i64 {
    (bytes::u64_of_le(word) % 0x8000_0000_0000_0000) as i64
}

pub fn is_service(descriptor: &RpcDescriptor, expected: &str) -> (r: bool)
    ensures
        r == names_service(descriptor@, expected@),
{
    if !text::same_text(descriptor.service_name.as_str(), expected) {
        return false;
    }
    let mut qualified = "peer_rpc.".to_string();
    qualified.append(expected);
    text::same_text(descriptor.proto_name.as_str(), qualified.as_str()) || text::same_text(
        descriptor.proto_name.as_str(),
        "peer_rpc",
    ) || text::same_text(descriptor.proto_name.as_str(), expected)
}

/// The method that a descriptor names, and so the message that the request holds.
pub fn request_method(descriptor: &RpcDescriptor) -> (r: RpcMethod)
    ensures
        r == method_of(descriptor@),
{
    if is_service(descriptor, "OspfRouteRpc") {
        if descriptor.method_index == 1 {
            RpcMethod::SyncRouteInfo
        } else {
            RpcMethod::UnknownMethod
        }
    } else if is_service(descriptor, "PeerCenterRpc") {
        if descriptor.method_index == 1 {
            RpcMethod::ReportPeers
        } else if descriptor.method_index == 2 {
            RpcMethod::GetGlobalPeerMap
        } else {
            RpcMethod::UnknownMethod
        }
    } else {
        RpcMethod::UnknownService
    }
}

pub fn no_compression() -> (r: RpcCompressionInfo)
    ensures
        r == (RpcCompressionInfo { algo: COMPRESSION_NONE, accepted_algo: COMPRESSION_NONE }),
{
    RpcCompressionInfo { algo: COMPRESSION_NONE, accepted_algo: COMPRESSION_NONE }
}

fn invalid_method_error(descriptor: &RpcDescriptor) -> (r: RpcError)
    ensures
        r@ == (RpcErrorView::InvalidMethodIndex {
            service_name: descriptor.service_name@,
            method_index: descriptor.method_index,
        }),
{
    RpcError::InvalidMethodIndex {
        service_name: descriptor.service_name.clone(),
        method_index: descriptor.method_index,
    }
}

/// The response around an encoded reply.
pub fn rpc_response(response: Vec<u8>, error: Option<RpcError>) -> (r: RpcResponse)
    ensures
        r == (RpcResponse { response, error, runtime_us: 0 }),
{
    RpcResponse { response, error, runtime_us: 0 }
}

/// The request around an encoded route update.
pub fn route_request(payload: Vec<u8>) -> (r: RpcRequest)
    ensures
        r == (RpcRequest { request: payload, timeout_ms: 3_000 }),
{
    RpcRequest { request: payload, timeout_ms: 3_000 }
}

/// What the caller has to do, followed by an encoded packet.
pub fn result_with_packet(result: u8, encoded: &[u8]) -> (r: Vec<u8>)
    ensures
        r@ == seq![result] + encoded@,
{
    let mut output: Vec<u8> = Vec::new();
    output.push(result);
    bytes::put_bytes(&mut output, encoded);
    assert(output@ =~= seq![result] + encoded@);
    output
}

fn network_peer(network: &str, peer_id: u32) -> (r: NetworkPeer)
    ensures
        r@ == (NetworkPeerView { network: network@, peer_id }),
{
    NetworkPeer { network: network.to_string(), peer_id }
}

fn validate_compression(packet: &RpcPacket) -> (r: Result<(), EdgeError>)
    ensures
        match r {
            Ok(_) => !is_compressed(packet@),
            Err(error) => is_compressed(packet@) && error == EdgeError::CompressedRpc,
        },
{
    if let Some(compression) = &packet.compression_info {
        if compression.algo > COMPRESSION_NONE {
            return Err(EdgeError::CompressedRpc);
        }
    }
    Ok(())
}

impl WasmRpcCore {
    /// A relay with a given key, name and peer id.
    pub fn new(public_key: &[u8], hostname: &str, server_peer_id: u32) -> (r: Result<WasmRpcCore, EdgeError>)
        ensures
            match r {
                Ok(core) => public_key@.len() == 32 && server_peer_id != 0 && core@ == CoreView::initial(
                    public_key@,
                    hostname@,
                    server_peer_id,
                ) && core@.is_valid(),
                Err(error) => if public_key@.len() != 32 {
                    error == EdgeError::NoiseKeyLength
                } else {
                    server_peer_id == 0 && error == EdgeError::ZeroServerPeerId
                },
            },
    {
        let key = match bytes::to_key(public_key) {
            Some(key) => key,
            None => {
                return Err(EdgeError::NoiseKeyLength);
            },
        };
        if server_peer_id == 0 {
            return Err(EdgeError::ZeroServerPeerId);
        }
        let core = WasmRpcCore {
            routes: RouteState::new(server_peer_id),
            peer_center: PeerCenter::new(),
            configured_groups: VecMap::new(),
            peer_initiator: VecMap::new(),
            pending: PendingRpcs::new(),
            outstanding_routes: VecMap::new(),
            public_key: key,
            hostname: hostname.to_string(),
            server_peer_id,
        };
        proof {
            route_state::lemma_states_are_finite();
            peer_center::lemma_centers_are_finite();
            assert(core@.configured =~= Set::empty());
        }
        Ok(core)
    }

    /// Admits a peer to a network, under the key that it authenticated with.
    pub fn add_peer(&mut self, network: &str, peer_id: u32, remote_public_key: &[u8], seed: &GroupSeed) -> (r: Result<
        (),
        EdgeError,
    >)
        ensures
            (final(self)@, r) == old(self)@.added(network@, peer_id, remote_public_key@, seed.words@),
            final(self)@.is_valid(),
    {
        proof {
            route_state::lemma_states_are_finite();
            peer_center::lemma_centers_are_finite();
            use_type_invariant(&self.pending);
            self.pending.lemma_sound();
        }
        match self.routes.add_peer(network, peer_id, remote_public_key, seed) {
            Ok(()) => {},
            Err(error) => {
                return Err(error);
            },
        }
        let name = network.to_string();
        let is_configured = self.configured_groups.contains_key(&name);
        self.configured_groups.insert(name, true);
        if !is_configured {
            match self.routes.set_my_info_field(network, "hostname", self.hostname.as_str(), seed) {
                Ok(()) => {},
                Err(error) => {
                    return Err(error);
                },
            }
            match self.routes.set_my_noise_public_key(network, &self.public_key, seed) {
                Ok(()) => {},
                Err(error) => {
                    return Err(error);
                },
            }
        }
        self.peer_initiator.insert(network_peer(network, peer_id), false);
        assert(self@.configured =~= old(self)@.configured.insert(network@));
        Ok(())
    }

    /// Forgets a peer of a network.
    pub fn remove_peer(&mut self, network: &str, peer_id: u32, seed: &GroupSeed)
        ensures
            final(self)@ == old(self)@.left(network@, peer_id, seed.words@),
            final(self)@.is_valid(),
    {
        proof {
            route_state::lemma_states_are_finite();
            peer_center::lemma_centers_are_finite();
            use_type_invariant(&self.pending);
            self.pending.lemma_sound();
        }
        self.routes.remove_peer(network, peer_id, seed);
        self.peer_center.remove_peer(network, peer_id);
        self.peer_initiator.remove(&network_peer(network, peer_id));
        self.pending.remove_peer(network, peer_id);
        let is_kept = |key: &RpcKey, route: &OutstandingRoute| -> (r: bool)
            ensures
                r == !fragments::of_peer(network@, peer_id)(key@),
        {
            key.peer_id != peer_id || !text::same_text(key.network.as_str(), network)
        };
        self.outstanding_routes.retain(
            is_kept,
            Ghost(|key: RpcKeyView, value: OutstandingView| !fragments::of_peer(network@, peer_id)(key)),
        );
    }

    fn validate_envelope(&self, packet: &RpcPacket, network: &str, peer_id: u32, is_request: bool) -> (r: Result<
        (),
        EdgeError,
    >)
        ensures
            match envelope_obstacle(packet@, network@, peer_id, self@.server_peer_id, is_request) {
                Some(obstacle) => r == Err::<(), EdgeError>(obstacle),
                None => r is Ok,
            },
    {
        if packet.from_peer != peer_id || packet.to_peer != self.server_peer_id {
            return Err(EdgeError::EnvelopeMismatch);
        }
        if packet.is_request != is_request {
            return Err(EdgeError::UnexpectedDirection);
        }
        if let Some(descriptor) = &packet.descriptor {
            if !text::same_text(descriptor.domain_name.as_str(), network) {
                return Err(EdgeError::CrossNetworkDomain);
            }
        }
        Ok(())
    }

    /// Takes in a packet with a request, or with a piece of one. It gives back a
    /// request that is whole and may be decoded.
    pub fn receive_request(&mut self, network: &str, authenticated_peer_id: u32, packet: RpcPacket, now_ms: u64) -> (r:
        Result<Option<RpcPacket>, EdgeError>)
        ensures
            (final(self)@, received_view(r)) == old(self)@.request_received(
                network@,
                authenticated_peer_id,
                packet@,
                now_ms,
            ),
            r matches Ok(Some(whole)) ==> whole.transaction_id == packet.transaction_id && whole.is_request
                == packet.is_request,
            final(self)@.is_valid(),
    {
        proof {
            route_state::lemma_states_are_finite();
            peer_center::lemma_centers_are_finite();
            use_type_invariant(&self.pending);
            self.pending.lemma_sound();
        }
        match self.validate_envelope(&packet, network, authenticated_peer_id, true) {
            Ok(()) => {},
            Err(error) => {
                return Err(error);
            },
        }
        let packet = match self.pending.merge_packet(network, authenticated_peer_id, packet, now_ms) {
            Ok(MergedPacket::Pending) => {
                return Ok(None);
            },
            Ok(MergedPacket::Complete(packet)) => packet,
            Err(error) => {
                return Err(error);
            },
        };
        match validate_compression(&packet) {
            Ok(()) => {},
            Err(error) => {
                return Err(error);
            },
        }
        if packet.descriptor.is_none() {
            return Err(EdgeError::MissingRequestDescriptor);
        }
        Ok(Some(packet))
    }

    /// Serves a decoded request.
    pub fn handle_request(
        &mut self,
        network: &str,
        authenticated_peer_id: u32,
        descriptor: &RpcDescriptor,
        call: &RpcCall,
        seed: &GroupSeed,
        clock_ms: u64,
    ) -> (r: Result<RequestOutcome, EdgeError>)
        requires
            call_fits(call@, method_of(descriptor@)),
        ensures
            (final(self)@, outcome_view(r)) == old(self)@.request_handled(
                network@,
                authenticated_peer_id,
                descriptor@,
                call@,
                seed.words@,
                clock_ms,
            ),
            final(self)@.is_valid(),
    {
        proof {
            route_state::lemma_states_are_finite();
            peer_center::lemma_centers_are_finite();
            use_type_invariant(&self.pending);
            self.pending.lemma_sound();
        }
        match call {
            RpcCall::SyncRouteInfo(sync) => {
                self.peer_initiator.insert(
                    network_peer(network, authenticated_peer_id),
                    !sync.is_initiator,
                );
                match self.routes.handle_sync_route_info_request(
                    network,
                    authenticated_peer_id,
                    sync,
                    seed,
                    clock_ms,
                ) {
                    Ok(outcome) => {
                        let result: u8 = if outcome.route_changed {
                            RESULT_ROUTE
                        } else if outcome.session_changed {
                            RESULT_ROUTE_SESSION
                        } else {
                            RESULT_HANDLED
                        };
                        Ok(RequestOutcome { result, reply: RpcReply::SyncRouteInfo(outcome.response), error: None })
                    },
                    Err(error) => Err(error),
                }
            },
            RpcCall::ReportPeers(report) => match self.peer_center.report_peers(
                network,
                authenticated_peer_id,
                report,
                clock_ms,
            ) {
                Ok(()) => Ok(RequestOutcome { result: RESULT_HANDLED, reply: RpcReply::ReportPeers, error: None }),
                Err(error) => Err(error),
            },
            RpcCall::GetGlobalPeerMap(request) => {
                let response = self.peer_center.get_global_peer_map(network, *request);
                Ok(
                    RequestOutcome {
                        result: RESULT_HANDLED,
                        reply: RpcReply::GetGlobalPeerMap(response),
                        error: None,
                    },
                )
            },
            RpcCall::Unserved => {
                let error = match request_method(descriptor) {
                    RpcMethod::UnknownService => RpcError::InvalidService {
                        service_name: descriptor.service_name.clone(),
                    },
                    _ => invalid_method_error(descriptor),
                };
                Ok(RequestOutcome { result: RESULT_HANDLED, reply: RpcReply::Nothing, error: Some(error) })
            },
        }
    }

    /// The packet that answers a request, around an encoded response.
    pub fn response_packet(&self, authenticated_peer_id: u32, request: RpcPacket, body: Vec<u8>) -> (r: RpcPacket)
        ensures
            r@ == answer_to(self@.server_peer_id, authenticated_peer_id, request@, body@),
            r@ == (RpcPacketView {
                from_peer: self@.server_peer_id,
                to_peer: authenticated_peer_id,
                transaction_id: request.transaction_id,
                descriptor: request@.descriptor,
                body: body@,
                is_request: false,
                total_pieces: 1,
                piece_idx: 0,
                trace_id: request.trace_id,
                compression_info: Some(
                    RpcCompressionInfo { algo: COMPRESSION_NONE, accepted_algo: COMPRESSION_NONE },
                ),
            }),
    {
        RpcPacket {
            from_peer: self.server_peer_id,
            to_peer: authenticated_peer_id,
            transaction_id: request.transaction_id,
            descriptor: request.descriptor,
            body,
            is_request: false,
            total_pieces: 1,
            piece_idx: 0,
            trace_id: request.trace_id,
            compression_info: Some(no_compression()),
        }
    }

    /// Takes in a packet with a response, or with a piece of one. It gives back a
    /// response that is whole, in time, and may be decoded.
    pub fn receive_response(&mut self, network: &str, authenticated_peer_id: u32, packet: RpcPacket, now_ms: u64) -> (r:
        Result<Option<RpcPacket>, EdgeError>)
        ensures
            (final(self)@, received_view(r)) == old(self)@.response_received(
                network@,
                authenticated_peer_id,
                packet@,
                now_ms,
            ),
            r matches Ok(Some(whole)) ==> whole.transaction_id == packet.transaction_id && whole.is_request
                == packet.is_request,
            final(self)@.is_valid(),
    {
        proof {
            route_state::lemma_states_are_finite();
            peer_center::lemma_centers_are_finite();
            use_type_invariant(&self.pending);
            self.pending.lemma_sound();
        }
        match self.validate_envelope(&packet, network, authenticated_peer_id, false) {
            Ok(()) => {},
            Err(error) => {
                return Err(error);
            },
        }
        let key = fragments::rpc_key(network, authenticated_peer_id, packet.transaction_id, false);
        let deadline: u64 = match self.outstanding_routes.get(&key) {
            Some(route) => route.deadline_ms,
            None => {
                return Err(EdgeError::UnknownTransaction);
            },
        };
        if now_ms > deadline {
            self.outstanding_routes.remove(&key);
            return Err(EdgeError::LateResponse);
        }
        let packet = match self.pending.merge_packet(network, authenticated_peer_id, packet, now_ms) {
            Ok(MergedPacket::Pending) => {
                return Ok(None);
            },
            Ok(MergedPacket::Complete(packet)) => packet,
            Err(error) => {
                return Err(error);
            },
        };
        match validate_compression(&packet) {
            Ok(()) => {},
            Err(error) => {
                return Err(error);
            },
        }
        match &packet.descriptor {
            Some(descriptor) => match request_method(descriptor) {
                RpcMethod::SyncRouteInfo => {},
                _ => {
                    return Err(EdgeError::ResponseDescriptorMismatch);
                },
            },
            None => {
                return Err(EdgeError::MissingResponseDescriptor);
            },
        }
        Ok(Some(packet))
    }

    /// Takes in the answer to a route update: the peer now knows what it was sent.
    pub fn handle_response(
        &mut self,
        network: &str,
        authenticated_peer_id: u32,
        transaction_id: i64,
        reply: RouteReply,
        seed: &GroupSeed,
        clock_ms: u64,
    ) -> (r: Result<bool, EdgeError>)
        ensures
            (final(self)@, r) == old(self)@.response_handled(
                network@,
                authenticated_peer_id,
                transaction_id,
                reply,
                seed.words@,
                clock_ms,
            ),
            final(self)@.is_valid(),
    {
        proof {
            route_state::lemma_states_are_finite();
            peer_center::lemma_centers_are_finite();
            use_type_invariant(&self.pending);
            self.pending.lemma_sound();
        }
        let sync = match reply {
            RouteReply::Rejected => {
                return Err(EdgeError::RouteRejected);
            },
            RouteReply::Answered(sync) => sync,
        };
        if let Some(code) = sync.error {
            return Err(EdgeError::RouteSyncFailed { code });
        }
        let key = fragments::rpc_key(network, authenticated_peer_id, transaction_id, false);
        let outstanding = match self.outstanding_routes.remove(&key) {
            Some(outstanding) => outstanding,
            None => {
                assert(self@ =~= old(self)@) by {
                    assert(old(self)@.outstanding.remove(key@) =~= old(self)@.outstanding);
                }
                return Err(EdgeError::TransactionDisappeared);
            },
        };
        let we_are_initiator = match self.peer_initiator.get(&network_peer(network, authenticated_peer_id)) {
            Some(we_are_initiator) => *we_are_initiator,
            None => true,
        };
        self.routes.on_route_session_ack(
            network,
            authenticated_peer_id,
            sync.session_id,
            we_are_initiator,
            seed,
            clock_ms,
        );
        self.routes.commit_route_update(
            network,
            authenticated_peer_id,
            &outstanding.peer_info_versions,
            outstanding.topology_version,
            seed,
            clock_ms,
        );
        Ok(true)
    }

    /// The transaction id that random bytes stand for, if it is free.
    pub fn candidate_transaction_id(&self, network: &str, peer_id: u32, word: &[u8; 8]) -> (r: Option<i64>)
        ensures
            ({
                let id = transaction_id_of(word@);
                r == if self@.is_free_id(network@, peer_id, id) {
                    Some(id)
                } else {
                    None
                }
            }),
    {
        let all: &[u8] = word;
        let number: u64 = bytes::get_u64_le(all, 0);
        assert(all@.subrange(0, 8) =~= word@);
        let transaction_id: i64 = (number % 0x8000_0000_0000_0000) as i64;
        let key = fragments::rpc_key(network, peer_id, transaction_id, false);
        if transaction_id != 0 && !self.outstanding_routes.contains_key(&key) {
            Some(transaction_id)
        } else {
            None
        }
    }

    /// What a draw of random bytes means for the search of a transaction id, after
    /// `tries` draws in vain: an id, one more draw, or the end of the search.
    pub fn transaction_step(&self, network: &str, peer_id: u32, tries: u32, drawn: Result<[u8; 8], EdgeError>) -> (r:
        Result<Option<i64>, EdgeError>)
        ensures
            r == self@.id_stepped(network@, peer_id, tries as int, draw_view(drawn)),
    {
        match drawn {
            Ok(word) => match self.candidate_transaction_id(network, peer_id, &word) {
                Some(transaction_id) => Ok(Some(transaction_id)),
                None => {
                    if tries < TRANSACTION_ID_TRIES - 1 {
                        Ok(None)
                    } else {
                        Err(EdgeError::TransactionIdExhausted)
                    }
                },
            },
            Err(error) => Err(error),
        }
    }

    /// A transaction id that is free. It draws random bytes until `transaction_step`
    /// ends the search.
    fn next_transaction_id(&self, network: &str, peer_id: u32) -> (r: Result<i64, EdgeError>)
        ensures
            exists|draws: Seq<Draw>| #[trigger] self@.id_found(network@, peer_id, draws, r),
            match r {
                Ok(id) => id > 0,
                Err(error) => error is Random || error == EdgeError::TransactionIdExhausted,
            },
    {
        let mut tries: u32 = 0;
        let ghost mut draws: Seq<Draw> = Seq::empty();
        loop
            invariant
                tries < TRANSACTION_ID_TRIES,
                draws.len() == tries,
                are_draws(draws),
                self@.id_searched(network@, peer_id, draws) == Ok::<Option<i64>, EdgeError>(None),
            decreases TRANSACTION_ID_TRIES - tries,
        {
            let drawn = crypto::random_bytes::<8>();
            let ghost before = draws;
            proof {
                draws = draws.push(draw_view(drawn));
                assert(draws.drop_last() =~= before);
            }
            match self.transaction_step(network, peer_id, tries, drawn) {
                Ok(Some(transaction_id)) => {
                    let r = Ok(transaction_id);
                    assert(self@.id_found(network@, peer_id, draws, r));
                    return r;
                },
                Ok(None) => {},
                Err(error) => {
                    let r = Err(error);
                    assert(self@.id_found(network@, peer_id, draws, r));
                    return r;
                },
            }
            tries += 1;
        }
    }

    /// Notes that an update has been sent in a transaction.
    pub fn record_route_update(
        &mut self,
        network: &str,
        peer_id: u32,
        transaction_id: i64,
        peer_info_versions: Vec<(u32, u32)>,
        topology_version: Option<u64>,
        now_ms: u64,
    )
        ensures
            final(self)@ == old(self)@.update_sent(
                network@,
                peer_id,
                transaction_id,
                peer_info_versions@,
                topology_version,
                now_ms,
            ),
            final(self)@.is_valid(),
    {
        proof {
            route_state::lemma_states_are_finite();
            peer_center::lemma_centers_are_finite();
            use_type_invariant(&self.pending);
            self.pending.lemma_sound();
        }
        self.outstanding_routes.insert(
            fragments::rpc_key(network, peer_id, transaction_id, false),
            OutstandingRoute {
                deadline_ms: now_ms.saturating_add(ROUTE_RPC_TIMEOUT_MS),
                peer_info_versions,
                topology_version,
            },
        );
    }

    /// A route update for a peer, in a transaction of its own.
    pub fn build_route_update(
        &mut self,
        network: &str,
        peer_id: u32,
        server_session_id: u64,
        force_full: bool,
        now_ms: u64,
        seed: &GroupSeed,
        clock_ms: u64,
    ) -> (r: Result<RouteRequest, EdgeError>)
        ensures
            ({
                let (built, update) = old(self)@.update_built(
                    network@,
                    peer_id,
                    server_session_id,
                    force_full,
                    now_ms,
                    seed.words@,
                    clock_ms,
                );
                match (update, r) {
                    (Err(expected), Err(error)) => error == expected && final(self)@ == built,
                    (Ok(update), Ok(request)) => {
                        let key = RpcKeyView {
                            network: network@,
                            peer_id,
                            transaction_id: request.transaction_id,
                            is_request: false,
                        };
                        &&& exists|draws: Seq<Draw>| #[trigger]
                            built.id_found(network@, peer_id, draws, Ok(request.transaction_id))
                        &&& request.transaction_id > 0
                        &&& !built.outstanding.contains_key(key)
                        &&& request.request@ == update.request
                        &&& final(self)@ == built.update_sent(
                            network@,
                            peer_id,
                            request.transaction_id,
                            update.peer_info_versions,
                            update.topology_version,
                            now_ms,
                        )
                    },
                    (Ok(_), Err(error)) => {
                        &&& exists|draws: Seq<Draw>| #[trigger]
                            built.id_found(network@, peer_id, draws, Err(error))
                        &&& error is Random || error == EdgeError::TransactionIdExhausted
                        &&& final(self)@ == built
                    },
                    (Err(_), Ok(_)) => false,
                }
            }),
            final(self)@.is_valid(),
    {
        proof {
            route_state::lemma_states_are_finite();
            peer_center::lemma_centers_are_finite();
            use_type_invariant(&self.pending);
            self.pending.lemma_sound();
        }
        self.clean_rpc_state(now_ms);
        let we_are_initiator = match self.peer_initiator.get(&network_peer(network, peer_id)) {
            Some(we_are_initiator) => *we_are_initiator,
            None => true,
        };
        let update = match self.routes.build_sync_route_info_request(
            network,
            peer_id,
            server_session_id,
            we_are_initiator,
            force_full,
            seed,
            clock_ms,
        ) {
            Ok(update) => update,
            Err(error) => {
                return Err(error);
            },
        };
        let ghost built = old(self)@.update_built(
            network@,
            peer_id,
            server_session_id,
            force_full,
            now_ms,
            seed.words@,
            clock_ms,
        ).0;
        assert(self@ == built);
        let transaction_id: i64 = match self.next_transaction_id(network, peer_id) {
            Ok(transaction_id) => transaction_id,
            Err(error) => {
                assert(exists|draws: Seq<Draw>| #[trigger] built.id_found(network@, peer_id, draws, Err(error)));
                return Err(error);
            },
        };
        self.record_route_update(
            network,
            peer_id,
            transaction_id,
            update.peer_info_versions,
            update.topology_version,
            now_ms,
        );
        Ok(RouteRequest { transaction_id, request: update.request })
    }

    /// The packet that carries a route update, around an encoded request.
    pub fn route_packet(&self, network: &str, peer_id: u32, transaction_id: i64, body: Vec<u8>) -> (r: RpcPacket)
        ensures
            r@ == update_to(self@.server_peer_id, network@, peer_id, transaction_id, body@),
            r@ == (RpcPacketView {
                from_peer: self@.server_peer_id,
                to_peer: peer_id,
                transaction_id,
                descriptor: Some(
                    RpcDescriptorView {
                        domain_name: network@,
                        proto_name: "OspfRouteRpc"@,
                        service_name: "OspfRouteRpc"@,
                        method_index: 1,
                    },
                ),
                body: body@,
                is_request: true,
                total_pieces: 1,
                piece_idx: 0,
                trace_id: 0,
                compression_info: Some(
                    RpcCompressionInfo { algo: COMPRESSION_NONE, accepted_algo: COMPRESSION_NONE },
                ),
            }),
    {
        RpcPacket {
            from_peer: self.server_peer_id,
            to_peer: peer_id,
            transaction_id,
            descriptor: Some(
                RpcDescriptor {
                    domain_name: network.to_string(),
                    proto_name: "OspfRouteRpc".to_string(),
                    service_name: "OspfRouteRpc".to_string(),
                    method_index: 1,
                },
            ),
            body,
            is_request: true,
            total_pieces: 1,
            piece_idx: 0,
            trace_id: 0,
            compression_info: Some(no_compression()),
        }
    }

    fn clean_rpc_state(&mut self, now_ms: u64)
        ensures
            final(self)@ == old(self)@.rpc_cleaned(now_ms),
            fragments::is_sound(final(self)@.pending),
    {
        self.pending.clean_pending(now_ms);
        let is_kept = |key: &RpcKey, route: &OutstandingRoute| -> (r: bool)
            ensures
                r == in_time(now_ms)(key@, route@),
        {
            now_ms <= route.deadline_ms
        };
        self.outstanding_routes.retain(is_kept, Ghost(in_time(now_ms)));
    }

    /// Drops all that has waited for too long.
    pub fn clean_expired(&mut self, now_ms: u64, clock_ms: u64)
        ensures
            final(self)@ == old(self)@.all_cleaned(now_ms, clock_ms),
            final(self)@ == (CoreView {
                center: peer_center::cleaned_groups(
                    old(self)@.center,
                    peer_center::ttl_millis(PEER_CENTER_TTL_SECONDS),
                    clock_ms,
                ),
                ..old(self)@.rpc_cleaned(now_ms)
            }),
            final(self)@.is_valid(),
    {
        proof {
            route_state::lemma_states_are_finite();
            peer_center::lemma_centers_are_finite();
            use_type_invariant(&self.pending);
            self.pending.lemma_sound();
        }
        self.clean_rpc_state(now_ms);
        self.peer_center.clean_outdated(PEER_CENTER_TTL_SECONDS, clock_ms);
    }
}

} // verus!
