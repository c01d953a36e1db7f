use easytier_edge::error::EdgeError;
use easytier_edge::proto::{
    ConnInfo, Ipv4Addr, PeerFeatureFlag, PeerIdVersion, RoutePeerInfo, SyncRouteInfoRequest, SyncRouteInfoResponse,
    Timestamp, Uuid,
};
use easytier_edge::route_state::{GroupSeed, RouteState, RouteSyncOutcome, RouteUpdate};

const SEED: GroupSeed = GroupSeed { words: [1, 2, 3, 4, 5, 6] };

const SERVER: u32 = 100;

fn instance(n: u32) -> Uuid {
    Uuid { part1: n, part2: 0, part3: 0, part4: 0 }
}

fn info(peer_id: u32, version: u32, key: u8) -> RoutePeerInfo {
    RoutePeerInfo {
        peer_id,
        inst_id: Some(instance(peer_id)),
        cost: 1,
        ipv4_addr: None,
        hostname: Some(format!("peer{peer_id}")),
        last_update: None,
        version,
        easytier_version: "2.6.4".to_string(),
        feature_flag: None,
        peer_route_id: 9,
        network_length: 24,
        noise_static_pubkey: vec![key; 32],
        rest: vec![1, 2],
    }
}

fn lists() -> Option<PeerFeatureFlag> {
    Some(PeerFeatureFlag {
        is_public_server: false,
        avoid_relay_data: false,
        kcp_input: false,
        no_relay_kcp: false,
        support_conn_list_sync: true,
        disable_p2p: false,
        rest: vec![],
    })
}

fn request(from: u32, session: u64, infos: Vec<RoutePeerInfo>) -> SyncRouteInfoRequest {
    SyncRouteInfoRequest {
        my_peer_id: from,
        my_session_id: session,
        is_initiator: true,
        peer_infos: Some(infos),
        conn_info: None,
        foreign_network_infos: None,
    }
}

fn publish(state: &mut RouteState, peer: u32, key: u8, flag: Option<PeerFeatureFlag>) -> RouteSyncOutcome {
    state.add_peer("office", peer, &[key; 32], &SEED).unwrap();
    let mut published = info(peer, 3, key);
    published.feature_flag = flag;
    state
        .handle_sync_route_info_request("office", peer, &request(peer, 50, vec![published]), &SEED, 5_000)
        .unwrap()
}

fn update(state: &mut RouteState, peer: u32, force: bool, clock: u64) -> RouteUpdate {
    state.build_sync_route_info_request("office", peer, 77, true, force, &SEED, clock).unwrap()
}

fn told(update: &RouteUpdate) -> Vec<u32> {
    match &update.request.peer_infos {
        Some(infos) => infos.iter().map(|info| info.peer_id).collect(),
        None => vec![],
    }
}

#[test]
fn random_words_make_identities() {
    assert_eq!(RouteState::random_u64(1, 2), 0x1_0000_0002);
    assert_eq!(RouteState::random_u64(u32::MAX, u32::MAX), u64::MAX);
    assert_eq!(
        RouteState::random_uuid(1, 2, 3, 4),
        Uuid { part1: 1, part2: 2, part3: 3, part4: 4 }
    );
}

#[test]
fn relay_publishes_itself() {
    let mut state = RouteState::new(SERVER);
    let built = update(&mut state, 7, false, 1_000);
    assert_eq!(built.request.my_peer_id, SERVER);
    assert_eq!(built.request.my_session_id, 77);
    assert!(built.request.is_initiator);
    assert!(built.request.foreign_network_infos.is_none());
    assert_eq!(built.peer_info_versions, vec![(SERVER, 1)]);
    assert_eq!(built.topology_version, Some(1));
    let mine = &built.request.peer_infos.as_ref().unwrap()[0];
    assert_eq!(mine.peer_id, SERVER);
    assert_eq!(mine.inst_id, Some(Uuid { part1: 1, part2: 2, part3: 3, part4: 4 }));
    assert_eq!(mine.peer_route_id, 0x5_0000_0006);
    assert_eq!(mine.hostname.as_deref(), Some("edge"));
    assert_eq!(mine.easytier_version, "2.6.4-8428a89d-edge");
    assert_eq!((mine.version, mine.network_length, mine.cost), (1, 24, 0));
    let flag = mine.feature_flag.as_ref().unwrap();
    assert!(flag.is_public_server && flag.support_conn_list_sync && flag.disable_p2p);
    assert!(!flag.avoid_relay_data && !flag.kcp_input && !flag.no_relay_kcp);
}

#[test]
fn group_seed_counts_once() {
    let mut state = RouteState::new(SERVER);
    state.ensure_group("office", &SEED);
    state.ensure_group("office", &GroupSeed { words: [9; 6] });
    let built = update(&mut state, 7, true, 0);
    assert_eq!(built.request.peer_infos.unwrap()[0].peer_route_id, 0x5_0000_0006);
}

#[test]
fn bound_key_is_kept() {
    let mut state = RouteState::new(SERVER);
    assert_eq!(state.add_peer("office", 7, &[1; 31], &SEED), Err(EdgeError::PeerKeyLength));
    assert_eq!(state.add_peer("office", 7, &[1; 32], &SEED), Ok(()));
    assert_eq!(state.add_peer("office", 7, &[1; 32], &SEED), Ok(()));
    assert_eq!(state.add_peer("office", 7, &[2; 32], &SEED), Err(EdgeError::PeerKeyConflict));
    assert_eq!(state.add_peer("home", 7, &[2; 32], &SEED), Ok(()));
    state.remove_peer("office", 7, &SEED);
    assert_eq!(state.add_peer("office", 7, &[2; 32], &SEED), Ok(()));
}

#[test]
fn fields_are_set_by_name() {
    let mut state = RouteState::new(SERVER);
    assert_eq!(state.set_my_info_field("office", "hostname", "relay", &SEED), Ok(()));
    assert_eq!(state.set_my_info_field("office", "network_length", "16", &SEED), Ok(()));
    assert_eq!(state.set_my_info_field("office", "ipv4_addr", "+167772161", &SEED), Ok(()));
    assert_eq!(
        state.set_my_info_field("office", "network_length", "x", &SEED),
        Err(EdgeError::InvalidNetworkLength)
    );
    assert_eq!(
        state.set_my_info_field("office", "ipv4_addr", "4294967296", &SEED),
        Err(EdgeError::InvalidIpv4Addr)
    );
    assert_eq!(
        state.set_my_info_field("office", "ipv4_addr", "", &SEED),
        Err(EdgeError::InvalidIpv4Addr)
    );
    assert_eq!(
        state.set_my_info_field("office", "cost", "1", &SEED),
        Err(EdgeError::UnknownField)
    );
    assert_eq!(
        state.set_my_noise_public_key("office", &[1; 33], &SEED),
        Err(EdgeError::NoiseKeyLength)
    );
    assert_eq!(state.set_my_noise_public_key("office", &[8; 32], &SEED), Ok(()));
    let built = update(&mut state, 7, false, 0);
    let mine = &built.request.peer_infos.as_ref().unwrap()[0];
    assert_eq!(mine.hostname.as_deref(), Some("relay"));
    assert_eq!(mine.network_length, 16);
    assert_eq!(mine.ipv4_addr, Some(Ipv4Addr { addr: 0x0a00_0001 }));
    assert_eq!(mine.noise_static_pubkey, vec![8; 32]);
    assert_eq!(mine.version, 5);
}

#[test]
fn peer_publishes_under_its_key() {
    let mut state = RouteState::new(SERVER);
    assert_eq!(
        state.handle_sync_route_info_request("office", 7, &request(8, 1, vec![]), &SEED, 0),
        Err(EdgeError::RoutePeerMismatch)
    );
    assert_eq!(
        state.handle_sync_route_info_request("office", 7, &request(7, 1, vec![info(7, 1, 1)]), &SEED, 0),
        Err(EdgeError::RoutePeerUnauthenticated)
    );
    state.add_peer("office", 7, &[1; 32], &SEED).unwrap();
    assert_eq!(
        state.handle_sync_route_info_request("office", 7, &request(7, 1, vec![info(7, 1, 2)]), &SEED, 0),
        Err(EdgeError::RouteKeyMismatch)
    );
    let outcome = state
        .handle_sync_route_info_request("office", 7, &request(7, 2, vec![info(9, 1, 2), info(7, 1, 1)]), &SEED, 0)
        .unwrap();
    assert_eq!(
        outcome,
        RouteSyncOutcome {
            response: SyncRouteInfoResponse { is_initiator: false, session_id: 1, error: None },
            route_changed: true,
            session_changed: true,
        }
    );
}

#[test]
fn older_versions_are_ignored() {
    let mut state = RouteState::new(SERVER);
    assert!(publish(&mut state, 7, 1, None).route_changed);
    let again = state
        .handle_sync_route_info_request("office", 7, &request(7, 50, vec![info(7, 3, 1)]), &SEED, 6_000)
        .unwrap();
    assert!(!again.route_changed && !again.session_changed);
    let mut older = info(7, 2, 1);
    older.hostname = None;
    let again = state
        .handle_sync_route_info_request("office", 7, &request(7, 50, vec![older]), &SEED, 6_000)
        .unwrap();
    assert!(!again.route_changed);
    let mut restarted = info(7, 1, 1);
    restarted.inst_id = Some(instance(70));
    let again = state
        .handle_sync_route_info_request("office", 7, &request(7, 51, vec![restarted]), &SEED, 8_999)
        .unwrap();
    assert!(again.route_changed && again.session_changed);
    publish(&mut state, 8, 2, None);
    let built = update(&mut state, 8, true, 9_000);
    let seven = &built.request.peer_infos.as_ref().unwrap()[0];
    assert_eq!(seven.peer_id, 7);
    assert_eq!(seven.version, 1);
    assert_eq!(seven.last_update, Some(Timestamp { seconds: 8, nanos: 0 }));
    assert_eq!(seven.rest, vec![1, 2]);
}

#[test]
fn topology_is_a_star_of_bits() {
    let mut state = RouteState::new(SERVER);
    publish(&mut state, 7, 1, None);
    publish(&mut state, 8, 2, None);
    let built = update(&mut state, 7, false, 6_000);
    assert_eq!(told(&built), vec![8, SERVER]);
    let bitmap = match built.request.conn_info {
        Some(ConnInfo::ConnBitmap(bitmap)) => bitmap,
        other => panic!("{other:?}"),
    };
    assert_eq!(
        bitmap.peer_ids,
        vec![
            PeerIdVersion { peer_id: 7, version: 5 },
            PeerIdVersion { peer_id: 8, version: 3 },
            PeerIdVersion { peer_id: SERVER, version: 5 },
        ]
    );
    // Rows 101, 011 and 111, lowest bit first.
    assert_eq!(bitmap.bitmap, vec![0b1111_0101, 0b0000_0001]);
    assert_eq!(built.topology_version, Some(5));
}

#[test]
fn topology_is_a_list_for_those_who_read_it() {
    let mut state = RouteState::new(SERVER);
    publish(&mut state, 7, 1, lists());
    publish(&mut state, 8, 2, None);
    let built = update(&mut state, 7, false, 6_000);
    let list = match built.request.conn_info {
        Some(ConnInfo::ConnPeerList(list)) => list.peer_conn_infos,
        other => panic!("{other:?}"),
    };
    assert_eq!(list.len(), 3);
    assert_eq!(list[0].peer_id, Some(PeerIdVersion { peer_id: 7, version: 5 }));
    assert_eq!(list[0].connected_peer_ids, vec![SERVER]);
    assert_eq!(list[1].connected_peer_ids, vec![SERVER]);
    assert_eq!(list[2].connected_peer_ids, vec![7, 8]);
}

#[test]
fn acknowledged_update_is_not_repeated() {
    let mut state = RouteState::new(SERVER);
    publish(&mut state, 7, 1, None);
    publish(&mut state, 8, 2, None);
    let built = update(&mut state, 7, true, 6_000);
    state.commit_route_update("office", 7, &built.peer_info_versions, built.topology_version, &SEED, 7_000);
    let quiet = update(&mut state, 7, false, 66_999);
    assert!(quiet.request.peer_infos.is_none() && quiet.request.conn_info.is_none());
    assert_eq!(quiet.topology_version, None);
    let refreshed = update(&mut state, 7, false, 67_000);
    assert_eq!(told(&refreshed), vec![8, SERVER]);
    assert!(refreshed.request.conn_info.is_some());
    let forced = update(&mut state, 7, true, 8_000);
    assert_eq!(told(&forced), vec![8, SERVER]);
    assert!(forced.request.conn_info.is_none());
    state.commit_route_update("office", 7, &forced.peer_info_versions, forced.topology_version, &SEED, 9_000);
    let quiet = update(&mut state, 7, false, 66_999);
    assert!(quiet.request.peer_infos.is_none() && quiet.request.conn_info.is_none());
    let topology = update(&mut state, 7, false, 67_000);
    assert!(topology.request.peer_infos.is_none() && topology.request.conn_info.is_some());
}

#[test]
fn newer_version_is_told_alone() {
    let mut state = RouteState::new(SERVER);
    publish(&mut state, 7, 1, None);
    publish(&mut state, 8, 2, None);
    let built = update(&mut state, 7, true, 6_000);
    state.commit_route_update("office", 7, &built.peer_info_versions, built.topology_version, &SEED, 6_000);
    let newer = state
        .handle_sync_route_info_request("office", 8, &request(8, 50, vec![info(8, 4, 2)]), &SEED, 6_500)
        .unwrap();
    assert!(newer.route_changed);
    let next = update(&mut state, 7, false, 7_000);
    assert_eq!(next.peer_info_versions, vec![(8, 4)]);
    assert!(next.request.conn_info.is_none());
    state.commit_route_update("office", 7, &[(8, 4), (8, 2)], None, &SEED, 7_000);
    assert!(update(&mut state, 7, false, 7_000).request.peer_infos.is_none());
}

#[test]
fn new_session_starts_over() {
    let mut state = RouteState::new(SERVER);
    publish(&mut state, 7, 1, None);
    let built = update(&mut state, 7, true, 6_000);
    state.on_route_session_ack("office", 7, 50, true, &SEED, 6_000);
    state.commit_route_update("office", 7, &built.peer_info_versions, built.topology_version, &SEED, 6_000);
    assert!(update(&mut state, 7, false, 6_000).request.peer_infos.is_none());
    state.on_route_session_ack("office", 7, 51, true, &SEED, 6_000);
    let again = update(&mut state, 7, false, 6_000);
    assert_eq!(told(&again), vec![SERVER]);
    assert!(again.request.conn_info.is_some());
}

#[test]
fn answer_names_the_session_of_the_last_update() {
    let mut state = RouteState::new(SERVER);
    publish(&mut state, 7, 1, None);
    update(&mut state, 7, false, 6_000);
    let outcome = state
        .handle_sync_route_info_request("office", 7, &request(7, 50, vec![]), &SEED, 6_000)
        .unwrap();
    assert_eq!(outcome.response.session_id, 77);
    assert!(!outcome.route_changed && !outcome.session_changed);
}

#[test]
fn removed_peer_is_not_told() {
    let mut state = RouteState::new(SERVER);
    publish(&mut state, 7, 1, None);
    publish(&mut state, 8, 2, None);
    let built = update(&mut state, 7, true, 6_000);
    state.commit_route_update("office", 7, &built.peer_info_versions, built.topology_version, &SEED, 6_000);
    state.remove_peer("office", 8, &SEED);
    let after = update(&mut state, 7, false, 7_000);
    assert!(after.request.peer_infos.is_none());
    match after.request.conn_info {
        Some(ConnInfo::ConnBitmap(bitmap)) => {
            assert_eq!(bitmap.peer_ids.len(), 2);
            assert_eq!(bitmap.bitmap, vec![0b1111]);
        }
        other => panic!("{other:?}"),
    }
}

#[test]
fn networks_do_not_see_each_other() {
    let mut state = RouteState::new(SERVER);
    publish(&mut state, 7, 1, None);
    let home = state
        .build_sync_route_info_request("home", 8, 1, true, true, &SEED, 0)
        .unwrap();
    assert_eq!(told(&home), vec![SERVER]);
    assert_eq!(home.topology_version, Some(1));
}

#[test]
fn members_are_the_authenticated_peers() {
    let mut state = RouteState::new(SERVER);
    publish(&mut state, 7, 1, lists());
    state.add_peer("office", 8, &[2; 32], &SEED).unwrap();
    state.add_peer("office", 9, &[3; 32], &SEED).unwrap();
    assert_eq!(state.add_peer("office", 6, &[3; 31], &SEED), Err(EdgeError::PeerKeyLength));
    state.remove_peer("office", 9, &SEED);
    let built = update(&mut state, 7, true, 6_000);
    let list = match built.request.conn_info {
        Some(ConnInfo::ConnPeerList(list)) => list.peer_conn_infos,
        other => panic!("{other:?}"),
    };
    let members: Vec<u32> = list.iter().map(|info| info.peer_id.unwrap().peer_id).collect();
    assert_eq!(members, vec![7, 8, SERVER]);
}
