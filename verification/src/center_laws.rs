//! What holds of the peer center as a whole.
use vstd::prelude::*;

use crate::error::EdgeError;
use crate::peer_center;
use crate::peer_center::{CenterGroupView, Groups, Links, PeerCenterInfoEntry, SrcDstPeerPair};
use crate::proto::{DirectConnectedPeerInfo, ReportPeersRequestView};

verus! {

/// A report counts for every link in it, whether the link was known before or not: the
/// link has the latency and the time of the report. All other links stay as they were,
/// and so do the reports of other peers.
pub proof fn law_report_renews_its_links(
    group: CenterGroupView,
    src: u32,
    direct_peers: Map<u32, DirectConnectedPeerInfo>,
    clock_ms: u64,
    pair: SrcDstPeerPair,
    peer_id: u32,
)
    ensures
        ({
            let after = group.reported(src, direct_peers, clock_ms);
            let is_reported = pair.src == src && direct_peers.contains_key(pair.dst);
            &&& is_reported ==> after.links.contains_key(pair)
            &&& is_reported ==> after.links[pair].update_time_ms == clock_ms
            &&& is_reported ==> after.links[pair].info.latency_ms == direct_peers[pair.dst].latency_ms
            &&& !is_reported ==> (after.links.contains_key(pair) <==> group.links.contains_key(pair))
            &&& !is_reported && group.links.contains_key(pair) ==> after.links[pair] == group.links[pair]
            &&& after.report_times.contains_key(src) && after.report_times[src] == clock_ms
            &&& peer_id != src ==> (after.report_times.contains_key(peer_id) <==> group.report_times.contains_key(
                peer_id,
            ))
            &&& peer_id != src && group.report_times.contains_key(peer_id) ==> after.report_times[peer_id]
                == group.report_times[peer_id]
        }),
{
}

/// A link that was reported at most the time to live ago survives cleaning, however old
/// its first report is, and is told with the latency of its last report.
pub proof fn law_renewed_link_survives(
    group: CenterGroupView,
    src: u32,
    direct_peers: Map<u32, DirectConnectedPeerInfo>,
    reported_ms: u64,
    ttl_sec: u64,
    cleaned_ms: u64,
    dst: u32,
)
    requires
        direct_peers.contains_key(dst),
        cleaned_ms - reported_ms <= ttl_sec * 1000,
    ensures
        ({
            let reported = group.reported(src, direct_peers, reported_ms);
            let after = reported.cleaned(peer_center::ttl_millis(ttl_sec), cleaned_ms);
            let told = peer_center::global_map_of(after, 0).global_peer_map;
            &&& after.links.contains_key(SrcDstPeerPair { src, dst })
            &&& told.contains_key(src) && told[src].contains_key(dst)
            &&& told[src][dst] == direct_peers[dst]
            &&& after.report_times.contains_key(src)
        }),
{
    let pair = SrcDstPeerPair { src, dst };
    let reported = group.reported(src, direct_peers, reported_ms);
    let after = reported.cleaned(peer_center::ttl_millis(ttl_sec), cleaned_ms);
    assert(reported.links.contains_key(pair));
    assert(after.links.contains_key(pair));
}

/// A link that no report has renewed for more than the time to live is gone after
/// cleaning, and no peer is told of it; so is the memory of a report.
pub proof fn law_old_link_is_forgotten(
    group: CenterGroupView,
    ttl_sec: u64,
    clock_ms: u64,
    pair: SrcDstPeerPair,
    peer_id: u32,
)
    ensures
        ({
            let after = group.cleaned(peer_center::ttl_millis(ttl_sec), clock_ms);
            let told = peer_center::global_map_of(after, 0).global_peer_map;
            &&& after.links.contains_key(pair) <==> group.links.contains_key(pair) && clock_ms
                - group.links[pair].update_time_ms <= ttl_sec * 1000
            &&& after.links.contains_key(pair) ==> after.links[pair] == group.links[pair]
            &&& !after.links.contains_key(pair) ==> !(told.contains_key(pair.src) && told[pair.src].contains_key(
                pair.dst,
            ))
            &&& after.report_times.contains_key(peer_id) <==> group.report_times.contains_key(peer_id) && clock_ms
                - group.report_times[peer_id] <= ttl_sec * 1000
            &&& after.report_times.contains_key(peer_id) ==> after.report_times[peer_id]
                == group.report_times[peer_id]
        }),
{
}

/// Cleaning drops a network exactly if nothing is left of it: neither a link nor a report
/// that is recent enough. Every other network stays, cleaned.
pub proof fn law_cleaning_keeps_networks_in_use(groups: Groups, ttl_sec: u64, clock_ms: u64, key: Seq<char>)
    ensures
        ({
            let after = peer_center::cleaned_groups(groups, peer_center::ttl_millis(ttl_sec), clock_ms);
            let has_link = exists|pair: SrcDstPeerPair| #[trigger]
                groups[key].links.contains_key(pair) && clock_ms - groups[key].links[pair].update_time_ms
                    <= ttl_sec * 1000;
            let has_report = exists|peer_id: u32| #[trigger]
                groups[key].report_times.contains_key(peer_id) && clock_ms - groups[key].report_times[peer_id]
                    <= ttl_sec * 1000;
            &&& after.contains_key(key) <==> groups.contains_key(key) && (has_link || has_report)
            &&& after.contains_key(key) ==> after[key] == groups[key].cleaned(
                peer_center::ttl_millis(ttl_sec),
                clock_ms,
            )
        }),
{
    let ttl = peer_center::ttl_millis(ttl_sec);
    let group = groups[key];
    let cleaned = group.cleaned(ttl, clock_ms);
    if groups.contains_key(key) {
        if exists|pair: SrcDstPeerPair| #[trigger]
            group.links.contains_key(pair) && clock_ms - group.links[pair].update_time_ms <= ttl_sec * 1000 {
            let pair = choose|pair: SrcDstPeerPair| #[trigger]
                group.links.contains_key(pair) && clock_ms - group.links[pair].update_time_ms <= ttl_sec * 1000;
            assert(cleaned.links.contains_key(pair));
        } else {
            assert(cleaned.links =~= Map::<SrcDstPeerPair, PeerCenterInfoEntry>::empty());
        }
        if exists|peer_id: u32| #[trigger]
            group.report_times.contains_key(peer_id) && clock_ms - group.report_times[peer_id] <= ttl_sec * 1000 {
            let peer_id = choose|peer_id: u32| #[trigger]
                group.report_times.contains_key(peer_id) && clock_ms - group.report_times[peer_id] <= ttl_sec * 1000;
            assert(cleaned.report_times.contains_key(peer_id));
        } else {
            assert(cleaned.report_times =~= Map::<u32, u64>::empty());
        }
    }
}

/// What is told of a network is exactly its links: a link is told if and only if it is
/// there, with its latency, and no peer is named that has none.
pub proof fn law_map_tells_exactly_the_links(group: CenterGroupView, known_digest: u64, src: u32, dst: u32)
    requires
        known_digest == 0 || known_digest != group.digest,
    ensures
        ({
            let told = peer_center::global_map_of(group, known_digest);
            let pair = SrcDstPeerPair { src, dst };
            &&& told.digest == Some(group.digest)
            &&& told.global_peer_map.contains_key(src) && told.global_peer_map[src].contains_key(dst)
                <==> group.links.contains_key(pair)
            &&& group.links.contains_key(pair) ==> told.global_peer_map[src][dst] == group.links[pair].info
            &&& told.global_peer_map.contains_key(src) ==> exists|end: u32| #[trigger]
                told.global_peer_map[src].contains_key(end)
        }),
{
    let told = peer_center::global_map_of(group, known_digest);
    if told.global_peer_map.contains_key(src) {
        let end = choose|end: u32| #[trigger] group.links.contains_key(SrcDstPeerPair { src, dst: end });
        assert(told.global_peer_map[src].contains_key(end));
    }
}

/// A peer that names the digest of the links is told nothing, and one that names any other
/// digest, or none, is told all and the digest; asking again with that digest, it is told
/// nothing, unless the digest is zero.
pub proof fn law_known_links_are_not_told_again(group: CenterGroupView, known_digest: u64)
    ensures
        ({
            let told = peer_center::global_map_of(group, known_digest);
            &&& known_digest != 0 && known_digest == group.digest <==> told.digest is None
            &&& told.digest is None ==> told.global_peer_map.dom() =~= Set::empty()
            &&& told.digest is Some && told.digest->0 != 0 ==> peer_center::global_map_of(
                group,
                told.digest->0,
            ).digest is None
        }),
{
}

/// A peer that leaves takes its own links with it, in both directions, and no others; a
/// network of which nothing is left is dropped.
pub proof fn law_departure_takes_own_links_alone(groups: Groups, key: Seq<char>, peer_id: u32, pair: SrcDstPeerPair)
    requires
        groups.contains_key(key),
    ensures
        ({
            let after = peer_center::groups_without_peer(groups, key, peer_id);
            let ends_there = pair.src == peer_id || pair.dst == peer_id;
            let left = peer_center::group_of(after, key);
            &&& left.links.contains_key(pair) <==> groups[key].links.contains_key(pair) && !ends_there
            &&& left.links.contains_key(pair) ==> left.links[pair] == groups[key].links[pair]
            &&& forall|other: u32| #[trigger]
                left.report_times.contains_key(other) <==> groups[key].report_times.contains_key(other) && other
                    != peer_id
            &&& forall|other: u32| #[trigger]
                left.report_times.contains_key(other) ==> left.report_times[other] == groups[key].report_times[other]
            &&& left.links.contains_key(pair) || left.report_times.contains_key(pair.src) ==> after.contains_key(key)
            &&& after.contains_key(key) ==> {
                ||| exists|some: SrcDstPeerPair| #[trigger] left.links.contains_key(some)
                ||| exists|some: u32| #[trigger] left.report_times.contains_key(some)
            }
        }),
{
    let after = peer_center::groups_without_peer(groups, key, peer_id);
    let rest = groups[key].without_peer(peer_id);
    if after.contains_key(key) {
        if rest.links != Map::<SrcDstPeerPair, PeerCenterInfoEntry>::empty() {
            assert(exists|some: SrcDstPeerPair| #[trigger] rest.links.contains_key(some)) by {
                if forall|some: SrcDstPeerPair| !#[trigger] rest.links.contains_key(some) {
                    assert(rest.links =~= Map::<SrcDstPeerPair, PeerCenterInfoEntry>::empty());
                }
            }
        } else {
            assert(exists|some: u32| #[trigger] rest.report_times.contains_key(some)) by {
                if forall|some: u32| !#[trigger] rest.report_times.contains_key(some) {
                    assert(rest.report_times =~= Map::<u32, u64>::empty());
                }
            }
        }
    }
}

/// A peer reports in its own name alone; a report in another name changes nothing. A report
/// that is taken in changes its own network alone.
pub proof fn law_report_is_in_own_name(
    groups: Groups,
    key: Seq<char>,
    authenticated_peer_id: u32,
    request: ReportPeersRequestView,
    clock_ms: u64,
)
    ensures
        ({
            let (after, outcome) = peer_center::groups_reported(
                groups,
                key,
                authenticated_peer_id,
                request,
                clock_ms,
            );
            &&& outcome is Ok <==> request.my_peer_id == authenticated_peer_id
            &&& outcome is Err ==> outcome == Err::<(), EdgeError>(EdgeError::ReportPeerMismatch) && after == groups
            &&& outcome is Ok ==> after.contains_key(key)
            &&& outcome is Ok ==> forall|pair: SrcDstPeerPair|
                pair.src != authenticated_peer_id ==> (#[trigger] after[key].links.contains_key(pair)
                    <==> peer_center::group_of(groups, key).links.contains_key(pair))
            &&& outcome is Ok ==> forall|dst: u32| #[trigger]
                request.direct_peers.contains_key(dst) ==> after[key].links[SrcDstPeerPair {
                    src: authenticated_peer_id,
                    dst,
                }] == PeerCenterInfoEntry { info: request.direct_peers[dst], update_time_ms: clock_ms }
        }),
{
}

/// The digest of the links is that of their list in order of source and destination, in
/// which each link is written with its source, its destination and its latency.
pub proof fn law_digest_covers_every_link(links: Links, pairs: Seq<SrcDstPeerPair>, i: int)
    requires
        0 <= i < pairs.len(),
    ensures
        ({
            let writes = peer_center::digest_writes(pairs, links);
            &&& writes.len() == 3 * pairs.len()
            &&& writes[3 * i] == crate::bytes::u32_le(pairs[i].src)
            &&& writes[3 * i + 1] == crate::bytes::u32_le(pairs[i].dst)
            &&& writes[3 * i + 2] == crate::bytes::u32_le(links[pairs[i]].info.latency_ms as u32)
        }),
    decreases pairs.len(),
{
    lemma_digest_len(links, pairs.drop_last());
    if i < pairs.len() - 1 {
        law_digest_covers_every_link(links, pairs.drop_last(), i);
    }
}

proof fn lemma_digest_len(links: Links, pairs: Seq<SrcDstPeerPair>)
    ensures
        peer_center::digest_writes(pairs, links).len() == 3 * pairs.len(),
    decreases pairs.len(),
{
    if pairs.len() > 0 {
        lemma_digest_len(links, pairs.drop_last());
    }
}

/// A peer that leaves a network of which the center knows nothing changes nothing.
pub proof fn law_departure_from_nowhere_changes_nothing(groups: Groups, key: Seq<char>, peer_id: u32)
    requires
        !groups.contains_key(key),
    ensures
        peer_center::groups_without_peer(groups, key, peer_id) == groups,
{
}

} // verus!
