use std::collections::hash_map::DefaultHasher;
use std::hash::{Hash, Hasher};

use easytier_edge::collections::VecMap;
use easytier_edge::error::EdgeError;
use easytier_edge::peer_center::PeerCenter;
use easytier_edge::proto::{
    DirectConnectedPeerInfo, GetGlobalPeerMapRequest, GetGlobalPeerMapResponse, PeerInfoForGlobalMap,
    ReportPeersRequest,
};

#[derive(Hash)]
struct Pair {
    src: u32,
    dst: u32,
}

#[derive(Hash)]
struct Latency {
    latency_ms: i32,
}

fn digest(links: &[(u32, u32, i32)]) -> u64 {
    let mut hasher = DefaultHasher::new();
    for (src, dst, latency_ms) in links {
        Pair { src: *src, dst: *dst }.hash(&mut hasher);
        Latency { latency_ms: *latency_ms }.hash(&mut hasher);
    }
    hasher.finish()
}

fn report(peer: u32, links: &[(u32, i32)]) -> ReportPeersRequest {
    let mut direct_peers = VecMap::new();
    for (dst, latency_ms) in links {
        direct_peers.insert(*dst, DirectConnectedPeerInfo { latency_ms: *latency_ms });
    }
    ReportPeersRequest { my_peer_id: peer, peer_infos: Some(PeerInfoForGlobalMap { direct_peers }) }
}

fn map(center: &mut PeerCenter, network: &str, known: u64) -> GetGlobalPeerMapResponse {
    center.get_global_peer_map(network, GetGlobalPeerMapRequest { digest: known })
}

fn latency(response: &GetGlobalPeerMapResponse, src: u32, dst: u32) -> Option<i32> {
    Some(response.global_peer_map.get(&src)?.direct_peers.get(&dst)?.latency_ms)
}

#[test]
fn reported_links_are_told() {
    let mut center = PeerCenter::new();
    assert_eq!(center.report_peers("office", 9, &report(9, &[(4, -1), (3, 20)]), 0), Ok(()));
    assert_eq!(center.report_peers("office", 4, &report(4, &[(9, 11)]), 0), Ok(()));
    let told = map(&mut center, "office", 0);
    assert_eq!(told.digest, Some(digest(&[(4, 9, 11), (9, 3, 20), (9, 4, -1)])));
    assert_eq!(told.global_peer_map.len(), 2);
    assert_eq!(latency(&told, 9, 4), Some(-1));
    assert_eq!(latency(&told, 9, 3), Some(20));
    assert_eq!(latency(&told, 4, 9), Some(11));
    assert_eq!(latency(&told, 4, 3), None);
}

#[test]
fn known_digest_is_answered_briefly() {
    let mut center = PeerCenter::new();
    center.report_peers("office", 9, &report(9, &[(4, 5)]), 0).unwrap();
    let known = digest(&[(9, 4, 5)]);
    let told = map(&mut center, "office", known);
    assert_eq!(told.digest, None);
    assert!(told.global_peer_map.is_empty());
    assert_eq!(map(&mut center, "office", known ^ 1).digest, Some(known));
}

#[test]
fn unknown_network_has_digest_zero() {
    let mut center = PeerCenter::new();
    let told = map(&mut center, "office", 0);
    assert_eq!(told.digest, Some(0));
    assert!(told.global_peer_map.is_empty());
}

#[test]
fn report_in_another_name_is_refused() {
    let mut center = PeerCenter::new();
    assert_eq!(
        center.report_peers("office", 8, &report(9, &[(4, 5)]), 0),
        Err(EdgeError::ReportPeerMismatch)
    );
    assert_eq!(map(&mut center, "office", 0).digest, Some(0));
}

#[test]
fn digest_ignores_order_and_time() {
    let mut center = PeerCenter::new();
    center.report_peers("a", 9, &report(9, &[(4, 5), (1, 6)]), 10).unwrap();
    center.report_peers("b", 9, &report(9, &[(1, 6)]), 20).unwrap();
    center.report_peers("b", 9, &report(9, &[(4, 5)]), 30).unwrap();
    assert_eq!(map(&mut center, "a", 0).digest, map(&mut center, "b", 0).digest);
}

#[test]
fn empty_report_hashes_nothing() {
    let mut center = PeerCenter::new();
    let silent = ReportPeersRequest { my_peer_id: 9, peer_infos: None };
    center.report_peers("office", 9, &silent, 0).unwrap();
    assert_eq!(map(&mut center, "office", 0).digest, Some(digest(&[])));
    let group = center.group_mut("office");
    assert_eq!(PeerCenter::calc_digest_internal(group), digest(&[]));
}

#[test]
fn removed_peer_loses_its_links() {
    let mut center = PeerCenter::new();
    center.report_peers("office", 9, &report(9, &[(4, 5), (3, 6)]), 0).unwrap();
    center.report_peers("office", 4, &report(4, &[(9, 5), (3, 7)]), 0).unwrap();
    center.report_peers("home", 4, &report(4, &[(9, 5)]), 0).unwrap();
    center.remove_peer("office", 4);
    let told = map(&mut center, "office", 0);
    assert_eq!(told.digest, Some(digest(&[(9, 3, 6)])));
    assert_eq!(told.global_peer_map.len(), 1);
    assert_eq!(map(&mut center, "home", 0).digest, Some(digest(&[(4, 9, 5)])));
    center.remove_peer("office", 9);
    assert_eq!(map(&mut center, "office", 0).digest, Some(0));
}

#[test]
fn outdated_links_are_dropped() {
    let mut center = PeerCenter::new();
    center.report_peers("office", 9, &report(9, &[(4, 5)]), 1_000).unwrap();
    center.report_peers("office", 9, &report(9, &[(3, 5)]), 2_000).unwrap();
    center.clean_outdated(10, 10_999);
    assert_eq!(map(&mut center, "office", 0).digest, Some(digest(&[(9, 3, 5), (9, 4, 5)])));
    center.clean_outdated(10, 11_000);
    assert_eq!(map(&mut center, "office", 0).digest, Some(digest(&[(9, 3, 5), (9, 4, 5)])));
    center.clean_outdated(10, 11_001);
    assert_eq!(map(&mut center, "office", 0).digest, Some(digest(&[(9, 3, 5)])));
    center.clean_outdated(10, 12_000);
    assert_eq!(map(&mut center, "office", 0).digest, Some(digest(&[(9, 3, 5)])));
    center.clean_outdated(10, 12_001);
    assert_eq!(map(&mut center, "office", 0).digest, Some(0));
    center.report_peers("office", 9, &report(9, &[(3, 5)]), 5).unwrap();
    center.clean_outdated(u64::MAX, u64::MAX - 1);
    assert_eq!(map(&mut center, "office", 0).digest, Some(digest(&[(9, 3, 5)])));
}
