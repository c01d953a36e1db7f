use easytier_edge::collections::VecMap;
use easytier_edge::error::EdgeError;
use easytier_edge::proto::{
    ConnInfo, DirectConnectedPeerInfo, GetGlobalPeerMapRequest, PeerInfoForGlobalMap, ReportPeersRequest,
    RoutePeerInfo, RpcCompressionInfo, RpcDescriptor, RpcError, RpcPacket, SyncRouteInfoRequest,
    SyncRouteInfoResponse, Uuid,
};
use easytier_edge::route_state::GroupSeed;
use easytier_edge::rpc::{
    is_service, no_compression, request_method, result_with_packet, route_request, rpc_response, RequestOutcome,
    RouteReply, RpcCall, RpcMethod, RpcReply, RESULT_HANDLED, RESULT_ROUTE, RESULT_ROUTE_SESSION,
    TRANSACTION_ID_TRIES,
};
use easytier_edge::WasmRpcCore;

const SERVER: u32 = 10_000_001;
const SEED: GroupSeed = GroupSeed { words: [1, 2, 3, 4, 5, 6] };

fn relay() -> WasmRpcCore {
    WasmRpcCore::new(&[5; 32], "relay", SERVER).unwrap()
}

fn descriptor(proto: &str, service: &str, method_index: u32) -> RpcDescriptor {
    RpcDescriptor {
        domain_name: "office".to_string(),
        proto_name: proto.to_string(),
        service_name: service.to_string(),
        method_index,
    }
}

fn route() -> RpcDescriptor {
    descriptor("OspfRouteRpc", "OspfRouteRpc", 1)
}

fn packet(from: u32, transaction_id: i64, is_request: bool) -> RpcPacket {
    RpcPacket {
        from_peer: from,
        to_peer: SERVER,
        transaction_id,
        descriptor: Some(route()),
        body: vec![1, 2, 3],
        is_request,
        total_pieces: 1,
        piece_idx: 0,
        trace_id: 12,
        compression_info: None,
    }
}

fn sync(from: u32, session: u64, version: u32, key: u8) -> RpcCall {
    RpcCall::SyncRouteInfo(SyncRouteInfoRequest {
        my_peer_id: from,
        my_session_id: session,
        is_initiator: true,
        peer_infos: Some(vec![RoutePeerInfo {
            peer_id: from,
            inst_id: Some(Uuid { part1: from, part2: 0, part3: 0, part4: 0 }),
            cost: 0,
            ipv4_addr: None,
            hostname: None,
            last_update: None,
            version,
            easytier_version: String::new(),
            feature_flag: None,
            peer_route_id: 0,
            network_length: 24,
            noise_static_pubkey: vec![key; 32],
            rest: vec![],
        }]),
        conn_info: None,
        foreign_network_infos: None,
    })
}

fn answered(session_id: u64) -> RouteReply {
    RouteReply::Answered(SyncRouteInfoResponse { is_initiator: false, session_id, error: None })
}

fn serve(rpc: &mut WasmRpcCore, network: &str, peer: u32, name: &RpcDescriptor, call: &RpcCall) -> RequestOutcome {
    match rpc.handle_request(network, peer, name, call, &SEED, 1_000) {
        Ok(outcome) => outcome,
        Err(error) => panic!("{}", error.message()),
    }
}

#[test]
fn relay_needs_a_key_and_an_id() {
    assert_eq!(WasmRpcCore::new(&[5; 31], "relay", 1).err(), Some(EdgeError::NoiseKeyLength));
    assert_eq!(WasmRpcCore::new(&[5; 32], "relay", 0).err(), Some(EdgeError::ZeroServerPeerId));
    assert_eq!(WasmRpcCore::new(&[5; 31], "relay", 0).err(), Some(EdgeError::NoiseKeyLength));
}

#[test]
fn services_go_by_three_names() {
    for proto in ["OspfRouteRpc", "peer_rpc", "peer_rpc.OspfRouteRpc"] {
        assert!(is_service(&descriptor(proto, "OspfRouteRpc", 9), "OspfRouteRpc"));
    }
    assert!(!is_service(&descriptor("peer_rpc.", "OspfRouteRpc", 1), "OspfRouteRpc"));
    assert!(!is_service(&descriptor("peer_rpc", "PeerCenterRpc", 1), "OspfRouteRpc"));
    assert_eq!(request_method(&descriptor("peer_rpc", "OspfRouteRpc", 1)), RpcMethod::SyncRouteInfo);
    assert_eq!(request_method(&descriptor("peer_rpc", "OspfRouteRpc", 2)), RpcMethod::UnknownMethod);
    assert_eq!(request_method(&descriptor("peer_rpc", "PeerCenterRpc", 1)), RpcMethod::ReportPeers);
    assert_eq!(request_method(&descriptor("peer_rpc", "PeerCenterRpc", 2)), RpcMethod::GetGlobalPeerMap);
    assert_eq!(request_method(&descriptor("peer_rpc", "PeerCenterRpc", 0)), RpcMethod::UnknownMethod);
    assert_eq!(request_method(&descriptor("peer_rpc", "Other", 1)), RpcMethod::UnknownService);
}

#[test]
fn messages_are_put_together() {
    assert_eq!(no_compression(), RpcCompressionInfo { algo: 1, accepted_algo: 1 });
    let response = rpc_response(vec![1], None);
    assert_eq!((response.response, response.runtime_us), (vec![1], 0));
    let request = route_request(vec![2]);
    assert_eq!((request.request, request.timeout_ms), (vec![2], 3_000));
    assert_eq!(result_with_packet(RESULT_ROUTE, &[7, 8]), vec![2, 7, 8]);
}

#[test]
fn envelopes_are_checked() {
    let mut rpc = relay();
    let refused = |rpc: &mut WasmRpcCore, packet: RpcPacket| rpc.receive_request("office", 7, packet, 0).unwrap_err();
    assert_eq!(refused(&mut rpc, packet(8, 1, true)), EdgeError::EnvelopeMismatch);
    let mut stray = packet(7, 1, true);
    stray.to_peer = 8;
    assert_eq!(refused(&mut rpc, stray), EdgeError::EnvelopeMismatch);
    assert_eq!(refused(&mut rpc, packet(7, 1, false)), EdgeError::UnexpectedDirection);
    let mut foreign = packet(7, 1, true);
    foreign.descriptor = Some(RpcDescriptor { domain_name: "home".to_string(), ..route() });
    assert_eq!(refused(&mut rpc, foreign), EdgeError::CrossNetworkDomain);
    let mut nameless = packet(7, 1, true);
    nameless.descriptor = None;
    assert_eq!(refused(&mut rpc, nameless), EdgeError::MissingRequestDescriptor);
    let mut compressed = packet(7, 1, true);
    compressed.compression_info = Some(RpcCompressionInfo { algo: 2, accepted_algo: 2 });
    assert_eq!(refused(&mut rpc, compressed), EdgeError::CompressedRpc);
    let mut plain = packet(7, 1, true);
    plain.compression_info = Some(RpcCompressionInfo { algo: 1, accepted_algo: 2 });
    assert_eq!(rpc.receive_request("office", 7, plain, 0).unwrap().unwrap().body, vec![1, 2, 3]);
}

#[test]
fn request_in_pieces_waits() {
    let mut rpc = relay();
    let mut first = packet(7, 1, true);
    first.total_pieces = 2;
    let mut second = packet(7, 1, true);
    second.total_pieces = 2;
    second.piece_idx = 1;
    second.descriptor = None;
    assert!(rpc.receive_request("office", 7, second, 0).unwrap().is_none());
    let whole = rpc.receive_request("office", 7, first, 0).unwrap().unwrap();
    assert_eq!(whole.body, vec![1, 2, 3, 1, 2, 3]);
    assert_eq!((whole.transaction_id, whole.is_request), (1, true));
    let answer = rpc.response_packet(7, whole, vec![9]);
    assert_eq!((answer.from_peer, answer.to_peer, answer.transaction_id), (SERVER, 7, 1));
    assert_eq!(answer.descriptor.unwrap().service_name, "OspfRouteRpc");
    assert_eq!((answer.body, answer.is_request, answer.trace_id), (vec![9], false, 12));
    assert_eq!((answer.total_pieces, answer.piece_idx), (1, 0));
    assert_eq!(answer.compression_info, Some(no_compression()));
}

#[test]
fn route_requests_say_what_changed() {
    let mut rpc = relay();
    rpc.add_peer("office", 7, &[1; 32], &SEED).unwrap();
    assert_eq!(serve(&mut rpc, "office", 7, &route(), &sync(7, 5, 1, 1)).result, RESULT_ROUTE);
    assert_eq!(serve(&mut rpc, "office", 7, &route(), &sync(7, 5, 1, 1)).result, RESULT_HANDLED);
    let outcome = serve(&mut rpc, "office", 7, &route(), &sync(7, 6, 1, 1));
    assert_eq!(outcome.result, RESULT_ROUTE_SESSION);
    assert!(outcome.error.is_none());
    match outcome.reply {
        RpcReply::SyncRouteInfo(reply) => assert_eq!(
            reply,
            SyncRouteInfoResponse { is_initiator: false, session_id: 1, error: None }
        ),
        _ => panic!("no reply"),
    }
    assert_eq!(
        rpc.handle_request("office", 7, &route(), &sync(7, 6, 2, 9), &SEED, 0).err(),
        Some(EdgeError::RouteKeyMismatch)
    );
}

#[test]
fn peer_center_is_served() {
    let mut rpc = relay();
    let mut direct_peers = VecMap::new();
    direct_peers.insert(8, DirectConnectedPeerInfo { latency_ms: 3 });
    let report = RpcCall::ReportPeers(ReportPeersRequest {
        my_peer_id: 7,
        peer_infos: Some(PeerInfoForGlobalMap { direct_peers }),
    });
    let name = descriptor("peer_rpc", "PeerCenterRpc", 1);
    let outcome = serve(&mut rpc, "office", 7, &name, &report);
    assert_eq!(outcome.result, RESULT_HANDLED);
    assert!(matches!(outcome.reply, RpcReply::ReportPeers));
    assert_eq!(
        rpc.handle_request("office", 8, &name, &report, &SEED, 0).err(),
        Some(EdgeError::ReportPeerMismatch)
    );
    let ask = RpcCall::GetGlobalPeerMap(GetGlobalPeerMapRequest { digest: 0 });
    let name = descriptor("peer_rpc", "PeerCenterRpc", 2);
    let links = |rpc: &mut WasmRpcCore, network: &str| match serve(rpc, network, 9, &name, &ask).reply {
        RpcReply::GetGlobalPeerMap(map) => map.global_peer_map.len(),
        _ => panic!("no map"),
    };
    assert_eq!(links(&mut rpc, "office"), 1);
    assert_eq!(links(&mut rpc, "home"), 0);
    rpc.clean_expired(0, 181_000);
    assert_eq!(links(&mut rpc, "office"), 1);
    rpc.clean_expired(0, 181_001);
    assert_eq!(links(&mut rpc, "office"), 0);
}

#[test]
fn unknown_calls_are_answered_with_an_error() {
    let mut rpc = relay();
    let name = descriptor("peer_rpc", "OspfRouteRpc", 4);
    let outcome = serve(&mut rpc, "office", 7, &name, &RpcCall::Unserved);
    assert_eq!(outcome.result, RESULT_HANDLED);
    assert!(matches!(outcome.reply, RpcReply::Nothing));
    match outcome.error {
        Some(RpcError::InvalidMethodIndex { service_name, method_index }) => {
            assert_eq!((service_name.as_str(), method_index), ("OspfRouteRpc", 4));
        }
        other => panic!("{other:?}"),
    }
    let name = descriptor("peer_rpc", "Other", 4);
    match serve(&mut rpc, "office", 7, &name, &RpcCall::Unserved).error {
        Some(RpcError::InvalidService { service_name }) => assert_eq!(service_name, "Other"),
        other => panic!("{other:?}"),
    }
}

#[test]
fn first_peer_makes_the_relay_known() {
    let mut rpc = relay();
    rpc.add_peer("office", 7, &[1; 32], &SEED).unwrap();
    rpc.add_peer("office", 8, &[2; 32], &SEED).unwrap();
    assert_eq!(
        rpc.add_peer("office", 8, &[3; 32], &SEED),
        Err(EdgeError::PeerKeyConflict)
    );
    let built = rpc.build_route_update("office", 7, 77, true, 0, &SEED, 0).unwrap();
    let infos = built.request.peer_infos.unwrap();
    assert_eq!(infos.len(), 1);
    assert_eq!(infos[0].hostname.as_deref(), Some("relay"));
    assert_eq!(infos[0].noise_static_pubkey, vec![5; 32]);
    assert_eq!(infos[0].version, 3);
    assert!(!built.request.is_initiator);
    assert!(built.transaction_id > 0);
    match built.request.conn_info {
        Some(ConnInfo::ConnBitmap(bitmap)) => assert_eq!(bitmap.peer_ids.len(), 3),
        other => panic!("{other:?}"),
    }
}

#[test]
fn relay_initiates_for_strangers() {
    let mut rpc = relay();
    assert!(rpc.build_route_update("office", 7, 1, true, 0, &SEED, 0).unwrap().request.is_initiator);
    rpc.add_peer("office", 7, &[1; 32], &SEED).unwrap();
    let RpcCall::SyncRouteInfo(mut request) = sync(7, 5, 1, 1) else { unreachable!() };
    request.is_initiator = false;
    serve(&mut rpc, "office", 7, &route(), &RpcCall::SyncRouteInfo(request));
    assert!(rpc.build_route_update("office", 7, 1, true, 0, &SEED, 0).unwrap().request.is_initiator);
}

#[test]
fn route_update_is_a_request_packet() {
    let rpc = relay();
    let sent = rpc.route_packet("office", 7, 44, vec![1]);
    assert_eq!((sent.from_peer, sent.to_peer, sent.transaction_id), (SERVER, 7, 44));
    assert_eq!((sent.total_pieces, sent.piece_idx, sent.trace_id), (1, 0, 0));
    assert!(sent.is_request);
    let name = sent.descriptor.unwrap();
    assert_eq!(name.domain_name, "office");
    assert_eq!((name.proto_name.as_str(), name.method_index), ("OspfRouteRpc", 1));
    assert_eq!(sent.compression_info, Some(no_compression()));
}

#[test]
fn answered_update_is_not_repeated() {
    let mut rpc = relay();
    rpc.add_peer("office", 7, &[1; 32], &SEED).unwrap();
    let built = rpc.build_route_update("office", 7, 77, false, 0, &SEED, 0).unwrap();
    let id = built.transaction_id;
    assert!(rpc.receive_response("office", 7, packet(7, id, false), 3_000).unwrap().is_some());
    assert_eq!(rpc.handle_response("office", 7, id, answered(9), &SEED, 10), Ok(true));
    let quiet = rpc.build_route_update("office", 7, 77, false, 4_000, &SEED, 20).unwrap();
    assert!(quiet.request.peer_infos.is_none() && quiet.request.conn_info.is_none());
    assert_eq!(
        rpc.receive_response("office", 7, packet(7, id, false), 3_000).unwrap_err(),
        EdgeError::UnknownTransaction
    );
    assert_eq!(
        rpc.handle_response("office", 7, id, answered(9), &SEED, 10),
        Err(EdgeError::TransactionDisappeared)
    );
}

#[test]
fn refused_update_stays_open() {
    let mut rpc = relay();
    let id = rpc.build_route_update("office", 7, 77, false, 0, &SEED, 0).unwrap().transaction_id;
    assert_eq!(
        rpc.handle_response("office", 7, id, RouteReply::Rejected, &SEED, 0),
        Err(EdgeError::RouteRejected)
    );
    let failed = RouteReply::Answered(SyncRouteInfoResponse { is_initiator: false, session_id: 1, error: Some(2) });
    assert_eq!(
        rpc.handle_response("office", 7, id, failed, &SEED, 0),
        Err(EdgeError::RouteSyncFailed { code: 2 })
    );
    assert_eq!(rpc.handle_response("office", 7, id, answered(1), &SEED, 0), Ok(true));
}

#[test]
fn late_response_is_refused() {
    let mut rpc = relay();
    let id = rpc.build_route_update("office", 7, 77, false, 1_000, &SEED, 0).unwrap().transaction_id;
    assert_eq!(
        rpc.receive_response("office", 7, packet(7, id, false), 4_001).unwrap_err(),
        EdgeError::LateResponse
    );
    assert_eq!(
        rpc.receive_response("office", 7, packet(7, id, false), 4_000).unwrap_err(),
        EdgeError::UnknownTransaction
    );
    let id = rpc.build_route_update("office", 7, 77, false, 1_000, &SEED, 0).unwrap().transaction_id;
    rpc.clean_expired(4_000, 0);
    assert!(rpc.receive_response("office", 7, packet(7, id, false), 4_000).is_ok());
    rpc.clean_expired(4_001, 0);
    assert_eq!(
        rpc.receive_response("office", 7, packet(7, id, false), 4_000).unwrap_err(),
        EdgeError::UnknownTransaction
    );
}

#[test]
fn response_must_be_of_the_route_service() {
    let mut rpc = relay();
    rpc.record_route_update("office", 7, 44, vec![], None, 0);
    let mut other = packet(7, 44, false);
    other.descriptor = Some(descriptor("peer_rpc", "PeerCenterRpc", 1));
    assert_eq!(
        rpc.receive_response("office", 7, other, 0).unwrap_err(),
        EdgeError::ResponseDescriptorMismatch
    );
    let mut nameless = packet(7, 44, false);
    nameless.descriptor = None;
    assert_eq!(
        rpc.receive_response("office", 7, nameless, 0).unwrap_err(),
        EdgeError::MissingResponseDescriptor
    );
    assert_eq!(
        rpc.receive_response("office", 8, packet(8, 44, false), 0).unwrap_err(),
        EdgeError::UnknownTransaction
    );
    assert!(rpc.receive_response("office", 7, packet(7, 44, false), 0).unwrap().is_some());
}

#[test]
fn transaction_ids_are_positive_and_free() {
    let mut rpc = relay();
    assert_eq!(rpc.candidate_transaction_id("office", 7, &[44, 0, 0, 0, 0, 0, 0, 0x80]), Some(44));
    assert_eq!(rpc.candidate_transaction_id("office", 7, &[0, 0, 0, 0, 0, 0, 0, 0x80]), None);
    assert_eq!(rpc.candidate_transaction_id("office", 7, &[0xff; 8]), Some(i64::MAX));
    rpc.record_route_update("office", 7, 44, vec![], None, 0);
    assert_eq!(rpc.candidate_transaction_id("office", 7, &[44, 0, 0, 0, 0, 0, 0, 0]), None);
    assert_eq!(rpc.candidate_transaction_id("office", 8, &[44, 0, 0, 0, 0, 0, 0, 0]), Some(44));
}

#[test]
fn nothing_waits_for_a_peer_that_left() {
    let mut rpc = relay();
    rpc.add_peer("office", 7, &[1; 32], &SEED).unwrap();
    let id = rpc.build_route_update("office", 7, 77, false, 0, &SEED, 0).unwrap().transaction_id;
    rpc.remove_peer("office", 7, &SEED);
    assert_eq!(
        rpc.receive_response("office", 7, packet(7, id, false), 0).unwrap_err(),
        EdgeError::UnknownTransaction
    );
    assert_eq!(rpc.add_peer("office", 7, &[9; 32], &SEED), Ok(()));
}

#[test]
fn networks_are_kept_apart() {
    let mut rpc = relay();
    rpc.add_peer("office", 7, &[1; 32], &SEED).unwrap();
    rpc.add_peer("home", 7, &[2; 32], &SEED).unwrap();
    serve(&mut rpc, "office", 7, &route(), &sync(7, 5, 1, 1));
    let id = rpc.build_route_update("office", 8, 77, true, 0, &SEED, 0).unwrap();
    assert_eq!(id.request.peer_infos.unwrap().len(), 2);
    let home = rpc.build_route_update("home", 8, 77, true, 0, &SEED, 0).unwrap();
    assert_eq!(home.request.peer_infos.unwrap().len(), 1);
    rpc.remove_peer("home", 7, &SEED);
    let office = rpc.build_route_update("office", 8, 77, true, 0, &SEED, 0).unwrap();
    assert_eq!(office.request.peer_infos.unwrap().len(), 2);
}

#[test]
fn transaction_id_is_searched_sixteen_times() {
    let mut rpc = relay();
    let word = [44, 0, 0, 0, 0, 0, 0, 0];
    assert_eq!(TRANSACTION_ID_TRIES, 16);
    assert_eq!(rpc.transaction_step("office", 7, 15, Ok(word)), Ok(Some(44)));
    rpc.record_route_update("office", 7, 44, vec![], None, 0);
    assert_eq!(rpc.transaction_step("office", 7, 0, Ok(word)), Ok(None));
    assert_eq!(rpc.transaction_step("office", 7, 14, Ok(word)), Ok(None));
    assert_eq!(rpc.transaction_step("office", 7, 15, Ok(word)), Err(EdgeError::TransactionIdExhausted));
    assert_eq!(rpc.transaction_step("office", 7, 0, Ok([0; 8])), Ok(None));
    assert_eq!(rpc.transaction_step("office", 8, 0, Ok(word)), Ok(Some(44)));
    let failed = Err(EdgeError::Random(getrandom::Error::UNSUPPORTED));
    assert_eq!(
        rpc.transaction_step("office", 7, 0, failed),
        Err(EdgeError::Random(getrandom::Error::UNSUPPORTED))
    );
}

#[test]
fn response_in_pieces_keeps_its_transaction() {
    let mut rpc = relay();
    rpc.add_peer("office", 7, &[1; 32], &SEED).unwrap();
    rpc.record_route_update("office", 7, 44, vec![], None, 0);
    rpc.record_route_update("office", 7, 45, vec![], None, 0);
    for (id, index) in [(44, 1), (45, 0), (45, 1), (44, 0)] {
        let mut piece = packet(7, id, false);
        piece.total_pieces = 2;
        piece.piece_idx = index;
        let received = rpc.receive_response("office", 7, piece, 0).unwrap();
        match (id, index) {
            (45, 1) | (44, 0) => assert_eq!(received.unwrap().transaction_id, id),
            _ => assert!(received.is_none()),
        }
    }
}
