//! The messages of the EasyTier protocol, as plain values.
//!
//! A `rest` field holds the encoded fields of a message that the relay passes on
//! without reading them; the message's encoding is that of the named fields
//! followed by `rest`.
use vstd::prelude::*;

use crate::bytes;
use crate::collections;
use crate::collections::{Duplicate, VecMap};

verus! {

#[derive(Debug, Clone, Copy, PartialEq, Eq, Structural)]
pub struct Timestamp {
    pub seconds: i64,
    pub nanos: i32,
}

#[derive(Debug, Clone, Copy, PartialEq, Eq, Structural)]
pub struct Uuid {
    pub part1: u32,
    pub part2: u32,
    pub part3: u32,
    pub part4: u32,
}

#[derive(Debug, Clone, Copy, PartialEq, Eq, Structural)]
pub struct Ipv4Addr {
    pub addr: u32,
}

#[derive(Debug)]
pub struct PeerFeatureFlag {
    pub is_public_server: bool,
    pub avoid_relay_data: bool,
    pub kcp_input: bool,
    pub no_relay_kcp: bool,
    pub support_conn_list_sync: bool,
    pub disable_p2p: bool,
    pub rest: Vec<u8>,
}

#[verifier::ext_equal]
pub struct PeerFeatureFlagView {
    pub is_public_server: bool,
    pub avoid_relay_data: bool,
    pub kcp_input: bool,
    pub no_relay_kcp: bool,
    pub support_conn_list_sync: bool,
    pub disable_p2p: bool,
    pub rest: Seq<u8>,
}

impl View for PeerFeatureFlag {
    type V = PeerFeatureFlagView;

    open spec fn view(&self) -> PeerFeatureFlagView {
        PeerFeatureFlagView {
            is_public_server: self.is_public_server,
            avoid_relay_data: self.avoid_relay_data,
            kcp_input: self.kcp_input,
            no_relay_kcp: self.no_relay_kcp,
            support_conn_list_sync: self.support_conn_list_sync,
            disable_p2p: self.disable_p2p,
            rest: self.rest@,
        }
    }
}

impl Duplicate for PeerFeatureFlag {
    fn duplicate(&self) -> (r: Self) {
        PeerFeatureFlag {
            is_public_server: self.is_public_server,
            avoid_relay_data: self.avoid_relay_data,
            kcp_input: self.kcp_input,
            no_relay_kcp: self.no_relay_kcp,
            support_conn_list_sync: self.support_conn_list_sync,
            disable_p2p: self.disable_p2p,
            rest: bytes::copy_bytes(&self.rest),
        }
    }
}

/// What a peer publishes of itself.
#[derive(Debug)]
pub struct RoutePeerInfo {
    pub peer_id: u32,
    pub inst_id: Option<Uuid>,
    pub cost: u32,
    pub ipv4_addr: Option<Ipv4Addr>,
    pub hostname: Option<String>,
    pub last_update: Option<Timestamp>,
    pub version: u32,
    pub easytier_version: String,
    pub feature_flag: Option<PeerFeatureFlag>,
    pub peer_route_id: u64,
    pub network_length: u32,
    pub noise_static_pubkey: Vec<u8>,
    pub rest: Vec<u8>,
}

#[verifier::ext_equal]
pub struct RoutePeerInfoView {
    pub peer_id: u32,
    pub inst_id: Option<Uuid>,
    pub cost: u32,
    pub ipv4_addr: Option<Ipv4Addr>,
    pub hostname: Option<Seq<char>>,
    pub last_update: Option<Timestamp>,
    pub version: u32,
    pub easytier_version: Seq<char>,
    pub feature_flag: Option<PeerFeatureFlagView>,
    pub peer_route_id: u64,
    pub network_length: u32,
    pub noise_static_pubkey: Seq<u8>,
    pub rest: Seq<u8>,
}

impl View for RoutePeerInfo {
    type V = RoutePeerInfoView;

    open spec fn view(&self) -> RoutePeerInfoView {
        RoutePeerInfoView {
            peer_id: self.peer_id,
            inst_id: self.inst_id,
            cost: self.cost,
            ipv4_addr: self.ipv4_addr,
            hostname: collections::option_view(self.hostname),
            last_update: self.last_update,
            version: self.version,
            easytier_version: self.easytier_version@,
            feature_flag: collections::option_view(self.feature_flag),
            peer_route_id: self.peer_route_id,
            network_length: self.network_length,
            noise_static_pubkey: self.noise_static_pubkey@,
            rest: self.rest@,
        }
    }
}

impl Duplicate for RoutePeerInfo {
    fn duplicate(&self) -> (r: Self) {
        RoutePeerInfo {
            peer_id: self.peer_id,
            inst_id: self.inst_id,
            cost: self.cost,
            ipv4_addr: self.ipv4_addr,
            hostname: collections::duplicate_option(&self.hostname),
            last_update: self.last_update,
            version: self.version,
            easytier_version: self.easytier_version.clone(),
            feature_flag: collections::duplicate_option(&self.feature_flag),
            peer_route_id: self.peer_route_id,
            network_length: self.network_length,
            noise_static_pubkey: bytes::copy_bytes(&self.noise_static_pubkey),
            rest: bytes::copy_bytes(&self.rest),
        }
    }
}

/// A peer and the version of its connections.
#[derive(Debug, Clone, Copy, PartialEq, Eq, Structural)]
pub struct PeerIdVersion {
    pub peer_id: u32,
    pub version: u32,
}

/// Who is connected with whom, as a matrix of bits: bit `row * n + column`,
/// counted from the least significant bit of the first byte.
#[derive(Debug)]
pub struct RouteConnBitmap {
    pub peer_ids: Vec<PeerIdVersion>,
    pub bitmap: Vec<u8>,
}

#[verifier::ext_equal]
pub struct RouteConnBitmapView {
    pub peer_ids: Seq<PeerIdVersion>,
    pub bitmap: Seq<u8>,
}

impl View for RouteConnBitmap {
    type V = RouteConnBitmapView;

    open spec fn view(&self) -> RouteConnBitmapView {
        RouteConnBitmapView { peer_ids: self.peer_ids@, bitmap: self.bitmap@ }
    }
}

impl Duplicate for RouteConnBitmap {
    fn duplicate(&self) -> (r: Self) {
        let peer_ids = self.peer_ids.clone();
        assert(peer_ids@ =~= self.peer_ids@);
        RouteConnBitmap { peer_ids, bitmap: bytes::copy_bytes(&self.bitmap) }
    }
}

/// The connections of one peer.
#[derive(Debug)]
pub struct PeerConnInfo {
    pub peer_id: Option<PeerIdVersion>,
    pub connected_peer_ids: Vec<u32>,
}

#[verifier::ext_equal]
pub struct PeerConnInfoView {
    pub peer_id: Option<PeerIdVersion>,
    pub connected_peer_ids: Seq<u32>,
}

impl View for PeerConnInfo {
    type V = PeerConnInfoView;

    open spec fn view(&self) -> PeerConnInfoView {
        PeerConnInfoView { peer_id: self.peer_id, connected_peer_ids: self.connected_peer_ids@ }
    }
}

impl Duplicate for PeerConnInfo {
    fn duplicate(&self) -> (r: Self) {
        let connected_peer_ids = self.connected_peer_ids.clone();
        assert(connected_peer_ids@ =~= self.connected_peer_ids@);
        PeerConnInfo { peer_id: self.peer_id, connected_peer_ids }
    }
}

/// Who is connected with whom, as one list per peer.
#[derive(Debug)]
pub struct RouteConnPeerList {
    pub peer_conn_infos: Vec<PeerConnInfo>,
}

impl View for RouteConnPeerList {
    type V = Seq<PeerConnInfoView>;

    open spec fn view(&self) -> Seq<PeerConnInfoView> {
        collections::list_view(self.peer_conn_infos@)
    }
}

impl Duplicate for RouteConnPeerList {
    fn duplicate(&self) -> (r: Self) {
        RouteConnPeerList { peer_conn_infos: collections::duplicate_list(&self.peer_conn_infos) }
    }
}

/// The topology, in one of its two forms.
#[derive(Debug)]
pub enum ConnInfo {
    ConnBitmap(RouteConnBitmap),
    ConnPeerList(RouteConnPeerList),
}

#[verifier::ext_equal]
pub enum ConnInfoView {
    ConnBitmap(RouteConnBitmapView),
    ConnPeerList(Seq<PeerConnInfoView>),
}

impl View for ConnInfo {
    type V = ConnInfoView;

    open spec fn view(&self) -> ConnInfoView {
        match self {
            ConnInfo::ConnBitmap(bitmap) => ConnInfoView::ConnBitmap(bitmap@),
            ConnInfo::ConnPeerList(list) => ConnInfoView::ConnPeerList(list@),
        }
    }
}

/// `foreign_network_infos` is carried in its encoded form.
#[derive(Debug)]
pub struct SyncRouteInfoRequest {
    pub my_peer_id: u32,
    pub my_session_id: u64,
    pub is_initiator: bool,
    pub peer_infos: Option<Vec<RoutePeerInfo>>,
    pub conn_info: Option<ConnInfo>,
    pub foreign_network_infos: Option<Vec<u8>>,
}

#[verifier::ext_equal]
pub struct SyncRouteInfoRequestView {
    pub my_peer_id: u32,
    pub my_session_id: u64,
    pub is_initiator: bool,
    pub peer_infos: Option<Seq<RoutePeerInfoView>>,
    pub conn_info: Option<ConnInfoView>,
    pub foreign_network_infos: Option<Seq<u8>>,
}

impl View for SyncRouteInfoRequest {
    type V = SyncRouteInfoRequestView;

    open spec fn view(&self) -> SyncRouteInfoRequestView {
        SyncRouteInfoRequestView {
            my_peer_id: self.my_peer_id,
            my_session_id: self.my_session_id,
            is_initiator: self.is_initiator,
            peer_infos: match self.peer_infos {
                Some(infos) => Some(collections::list_view(infos@)),
                None => None,
            },
            conn_info: collections::option_view(self.conn_info),
            foreign_network_infos: collections::option_view(self.foreign_network_infos),
        }
    }
}

#[derive(Debug, Clone, Copy, PartialEq, Eq, Structural)]
pub struct SyncRouteInfoResponse {
    pub is_initiator: bool,
    pub session_id: u64,
    pub error: Option<i32>,
}

/// A link between two peers.
#[derive(Debug, Clone, Copy, PartialEq, Eq, Structural)]
pub struct DirectConnectedPeerInfo {
    pub latency_ms: i32,
}

impl View for DirectConnectedPeerInfo {
    type V = DirectConnectedPeerInfo;

    open spec fn view(&self) -> DirectConnectedPeerInfo {
        *self
    }
}

/// The links of one peer, by the peer at the other end.
pub struct PeerInfoForGlobalMap {
    pub direct_peers: VecMap<u32, DirectConnectedPeerInfo>,
}

impl View for PeerInfoForGlobalMap {
    type V = Map<u32, DirectConnectedPeerInfo>;

    open spec fn view(&self) -> Map<u32, DirectConnectedPeerInfo> {
        self.direct_peers@
    }
}

pub struct ReportPeersRequest {
    pub my_peer_id: u32,
    pub peer_infos: Option<PeerInfoForGlobalMap>,
}

#[verifier::ext_equal]
pub struct ReportPeersRequestView {
    pub my_peer_id: u32,
    pub direct_peers: Map<u32, DirectConnectedPeerInfo>,
}

impl View for ReportPeersRequest {
    type V = ReportPeersRequestView;

    open spec fn view(&self) -> ReportPeersRequestView {
        ReportPeersRequestView {
            my_peer_id: self.my_peer_id,
            direct_peers: match self.peer_infos {
                Some(infos) => infos@,
                None => Map::empty(),
            },
        }
    }
}

#[derive(Debug, Clone, Copy, PartialEq, Eq, Structural)]
pub struct GetGlobalPeerMapRequest {
    pub digest: u64,
}

pub struct GetGlobalPeerMapResponse {
    pub global_peer_map: VecMap<u32, PeerInfoForGlobalMap>,
    pub digest: Option<u64>,
}

#[verifier::ext_equal]
pub struct GlobalPeerMapView {
    pub global_peer_map: Map<u32, Map<u32, DirectConnectedPeerInfo>>,
    pub digest: Option<u64>,
}

impl View for GetGlobalPeerMapResponse {
    type V = GlobalPeerMapView;

    open spec fn view(&self) -> GlobalPeerMapView {
        GlobalPeerMapView { global_peer_map: self.global_peer_map@, digest: self.digest }
    }
}

/// The service and the method that an RPC packet is for.
#[derive(Debug)]
pub struct RpcDescriptor {
    pub domain_name: String,
    pub proto_name: String,
    pub service_name: String,
    pub method_index: u32,
}

#[verifier::ext_equal]
pub struct RpcDescriptorView {
    pub domain_name: Seq<char>,
    pub proto_name: Seq<char>,
    pub service_name: Seq<char>,
    pub method_index: u32,
}

impl View for RpcDescriptor {
    type V = RpcDescriptorView;

    open spec fn view(&self) -> RpcDescriptorView {
        RpcDescriptorView {
            domain_name: self.domain_name@,
            proto_name: self.proto_name@,
            service_name: self.service_name@,
            method_index: self.method_index,
        }
    }
}

#[derive(Debug, Clone, Copy, PartialEq, Eq, Structural)]
pub struct RpcCompressionInfo {
    pub algo: i32,
    pub accepted_algo: i32,
}

#[derive(Debug)]
pub struct RpcPacket {
    pub from_peer: u32,
    pub to_peer: u32,
    pub transaction_id: i64,
    pub descriptor: Option<RpcDescriptor>,
    pub body: Vec<u8>,
    pub is_request: bool,
    pub total_pieces: u32,
    pub piece_idx: u32,
    pub trace_id: i32,
    pub compression_info: Option<RpcCompressionInfo>,
}

#[verifier::ext_equal]
pub struct RpcPacketView {
    pub from_peer: u32,
    pub to_peer: u32,
    pub transaction_id: i64,
    pub descriptor: Option<RpcDescriptorView>,
    pub body: Seq<u8>,
    pub is_request: bool,
    pub total_pieces: u32,
    pub piece_idx: u32,
    pub trace_id: i32,
    pub compression_info: Option<RpcCompressionInfo>,
}

impl View for RpcPacket {
    type V = RpcPacketView;

    open spec fn view(&self) -> RpcPacketView {
        RpcPacketView {
            from_peer: self.from_peer,
            to_peer: self.to_peer,
            transaction_id: self.transaction_id,
            descriptor: collections::option_view(self.descriptor),
            body: self.body@,
            is_request: self.is_request,
            total_pieces: self.total_pieces,
            piece_idx: self.piece_idx,
            trace_id: self.trace_id,
            compression_info: self.compression_info,
        }
    }
}

#[derive(Debug)]
pub struct RpcRequest {
    pub request: Vec<u8>,
    pub timeout_ms: i32,
}

/// Why an RPC was not served.
#[derive(Debug)]
pub enum RpcError {
    InvalidMethodIndex { service_name: String, method_index: u32 },
    InvalidService { service_name: String },
}

#[verifier::ext_equal]
pub enum RpcErrorView {
    InvalidMethodIndex { service_name: Seq<char>, method_index: u32 },
    InvalidService { service_name: Seq<char> },
}

impl View for RpcError {
    type V = RpcErrorView;

    open spec fn view(&self) -> RpcErrorView {
        match self {
            RpcError::InvalidMethodIndex { service_name, method_index } => RpcErrorView::InvalidMethodIndex {
                service_name: service_name@,
                method_index: *method_index,
            },
            RpcError::InvalidService { service_name } => RpcErrorView::InvalidService { service_name: service_name@ },
        }
    }
}

#[derive(Debug)]
pub struct RpcResponse {
    pub response: Vec<u8>,
    pub error: Option<RpcError>,
    pub runtime_us: u64,
}

/// The first message of the handshake.
#[derive(Debug)]
pub struct PeerConnNoiseMsg1 {
    pub version: u32,
    pub a_network_name: String,
    pub a_session_generation: Option<u32>,
    pub a_conn_id: Option<Uuid>,
    pub client_encryption_algorithm: String,
}

/// What becomes of the session that two peers share.
#[derive(Debug, Clone, Copy, PartialEq, Eq, Structural)]
pub enum SessionAction {
    Join,
    Sync,
    Create,
}

/// The second message of the handshake.
#[derive(Debug)]
pub struct PeerConnNoiseMsg2 {
    pub b_network_name: String,
    pub role_hint: u32,
    pub action: SessionAction,
    pub b_session_generation: u32,
    pub root_key_32: Option<Vec<u8>>,
    pub initial_epoch: u32,
    pub b_conn_id: Option<Uuid>,
    pub a_conn_id_echo: Option<Uuid>,
    pub secret_proof_32: Option<Vec<u8>>,
    pub server_encryption_algorithm: String,
}

/// The third message of the handshake.
#[derive(Debug)]
pub struct PeerConnNoiseMsg3 {
    pub a_conn_id_echo: Option<Uuid>,
    pub b_conn_id_echo: Option<Uuid>,
    pub secret_proof_32: Option<Vec<u8>>,
}

} // verus!
