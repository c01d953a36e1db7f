//! The peer center: which peers of a network report a link with which others.
//!
//! Every network has a group of its own, and no operation on one group touches
//! another. Times are milliseconds of the caller's clock.
use std::hash::Hasher;
use vstd::prelude::*;
use vstd::std_specs::hash::DefaultHasherAdditionalSpecFns;

use crate::bytes;
use crate::collections;
use crate::collections::{Duplicate, MapKey, VecMap};
use crate::error::EdgeError;
use crate::proto::{
    DirectConnectedPeerInfo, GetGlobalPeerMapRequest, GetGlobalPeerMapResponse, GlobalPeerMapView,
    PeerInfoForGlobalMap, ReportPeersRequest, ReportPeersRequestView,
};

verus! {

/// A link, from the peer that reports it to the one at the other end.
#[derive(Debug, Clone, Copy, PartialEq, Eq, Structural)]
pub struct SrcDstPeerPair {
    pub src: u32,
    pub dst: u32,
}

impl View for SrcDstPeerPair {
    type V = SrcDstPeerPair;

    open spec fn view(&self) -> SrcDstPeerPair {
        *self
    }
}

impl Duplicate for SrcDstPeerPair {
    fn duplicate(&self) -> (r: Self) {
        *self
    }
}

impl MapKey for SrcDstPeerPair {
    fn same(&self, other: &Self) -> (r: bool) {
        *self == *other
    }
}

/// A reported link, and when it was reported.
#[derive(Debug, Clone, Copy, PartialEq, Eq, Structural)]
pub struct PeerCenterInfoEntry {
    pub info: DirectConnectedPeerInfo,
    pub update_time_ms: u64,
}

impl View for PeerCenterInfoEntry {
    type V = PeerCenterInfoEntry;

    open spec fn view(&self) -> PeerCenterInfoEntry {
        *self
    }
}

/// The links of a network.
pub type Links = Map<SrcDstPeerPair, PeerCenterInfoEntry>;

/// Orders links by their source and then by their destination.
pub open spec fn pair_rank() -> spec_fn(SrcDstPeerPair) -> int {
    |pair: SrcDstPeerPair| pair.src * 0x1_0000_0000 + pair.dst
}

/// What a link adds to the digest.
pub open spec fn link_writes(pair: SrcDstPeerPair, info: DirectConnectedPeerInfo) -> Seq<Seq<u8>> {
    seq![bytes::u32_le(pair.src), bytes::u32_le(pair.dst), bytes::u32_le(info.latency_ms as u32)]
}

/// What the links of a list add to the digest, one after the other.
pub open spec fn digest_writes(pairs: Seq<SrcDstPeerPair>, links: Links) -> Seq<Seq<u8>>
    decreases pairs.len(),
{
    if pairs.len() == 0 {
        Seq::empty()
    } else {
        digest_writes(pairs.drop_last(), links) + link_writes(pairs.last(), links[pairs.last()].info)
    }
}

/// The digest of the links of a network: the standard hash of all links in order,
/// with their latencies.
pub open spec fn digest_of(links: Links) -> u64 {
    std::collections::hash_map::DefaultHasher::spec_finish(
        digest_writes(collections::ranked_list(links.dom(), pair_rank()), links),
    )
}

/// The state of one network.
pub struct PeerCenterGroupData {
    global_peer_map: VecMap<SrcDstPeerPair, PeerCenterInfoEntry>,
    peer_report_time: VecMap<u32, u64>,
    digest: u64,
}

#[verifier::ext_equal]
pub struct CenterGroupView {
    pub links: Links,
    pub report_times: Map<u32, u64>,
    pub digest: u64,
}

impl View for PeerCenterGroupData {
    type V = CenterGroupView;

    closed spec fn view(&self) -> CenterGroupView {
        CenterGroupView {
            links: self.global_peer_map@,
            report_times: self.peer_report_time@,
            digest: self.digest,
        }
    }
}

/// `links` with what `src` reports.
pub open spec fn reported_links(
    links: Links,
    src: u32,
    direct_peers: Map<u32, DirectConnectedPeerInfo>,
    clock_ms: u64,
) -> Links {
    Map::new(
        |pair: SrcDstPeerPair| links.contains_key(pair) || (pair.src == src && direct_peers.contains_key(pair.dst)),
        |pair: SrcDstPeerPair|
            if pair.src == src && direct_peers.contains_key(pair.dst) {
                PeerCenterInfoEntry { info: direct_peers[pair.dst], update_time_ms: clock_ms }
            } else {
                links[pair]
            },
    )
}

/// The links by source, and then by destination.
pub open spec fn links_by_source(links: Links) -> Map<u32, Map<u32, DirectConnectedPeerInfo>> {
    Map::new(
        |src: u32| exists|dst: u32| #[trigger] links.contains_key(SrcDstPeerPair { src, dst }),
        |src: u32|
            Map::new(
                |dst: u32| links.contains_key(SrcDstPeerPair { src, dst }),
                |dst: u32| links[SrcDstPeerPair { src, dst }].info,
            ),
    )
}

/// Whether something that was set at `time_ms` is at most `ttl_ms` old.
pub open spec fn is_recent(time_ms: u64, ttl_ms: int, clock_ms: u64) -> bool {
    clock_ms - time_ms <= ttl_ms
}

impl CenterGroupView {
    /// A network without reports.
    pub open spec fn empty() -> CenterGroupView {
        CenterGroupView { links: Map::empty(), report_times: Map::empty(), digest: 0 }
    }

    /// Whether nothing is reported.
    pub open spec fn is_blank(self) -> bool {
        self.links == Map::<SrcDstPeerPair, PeerCenterInfoEntry>::empty() && self.report_times == Map::<
            u32,
            u64,
        >::empty()
    }

    /// The group with other links, and their digest.
    pub open spec fn with_links(self, links: Links) -> CenterGroupView {
        CenterGroupView { links, digest: digest_of(links), ..self }
    }

    /// The group once `src` has reported its links.
    pub open spec fn reported(
        self,
        src: u32,
        direct_peers: Map<u32, DirectConnectedPeerInfo>,
        clock_ms: u64,
    ) -> CenterGroupView {
        CenterGroupView {
            report_times: self.report_times.insert(src, clock_ms),
            ..self.with_links(reported_links(self.links, src, direct_peers, clock_ms))
        }
    }

    /// The group without the links of a peer.
    pub open spec fn without_peer(self, peer_id: u32) -> CenterGroupView {
        CenterGroupView {
            report_times: self.report_times.remove(peer_id),
            ..self.with_links(collections::kept(self.links, not_of(peer_id)))
        }
    }

    /// The group without what was not reported lately.
    pub open spec fn cleaned(self, ttl_ms: int, clock_ms: u64) -> CenterGroupView {
        CenterGroupView {
            report_times: collections::kept(
                self.report_times,
                |peer_id: u32, time_ms: u64| is_recent(time_ms, ttl_ms, clock_ms),
            ),
            ..self.with_links(
                collections::kept(
                    self.links,
                    |pair: SrcDstPeerPair, entry: PeerCenterInfoEntry|
                        is_recent(entry.update_time_ms, ttl_ms, clock_ms),
                ),
            )
        }
    }
}

/// The links that do not end at a peer.
pub open spec fn not_of(peer_id: u32) -> spec_fn(SrcDstPeerPair, PeerCenterInfoEntry) -> bool {
    |pair: SrcDstPeerPair, entry: PeerCenterInfoEntry| pair.src != peer_id && pair.dst != peer_id
}

/// The groups that are not blank.
pub open spec fn not_blank() -> spec_fn(Seq<char>, CenterGroupView) -> bool {
    |key: Seq<char>, group: CenterGroupView| !group.is_blank()
}

/// The groups, by network.
pub type Groups = Map<Seq<char>, CenterGroupView>;

/// The group of a network.
pub open spec fn group_of(groups: Groups, key: Seq<char>) -> CenterGroupView {
    collections::value_or(groups, key, CenterGroupView::empty())
}

/// The groups once what was not reported lately is gone, and the groups that are
/// blank then.
pub open spec fn cleaned_groups(groups: Groups, ttl_ms: int, clock_ms: u64) -> Groups {
    collections::kept(
        collections::mapped(groups, |group: CenterGroupView| group.cleaned(ttl_ms, clock_ms)),
        not_blank(),
    )
}

/// The groups once a peer of a network is gone.
pub open spec fn groups_without_peer(groups: Groups, key: Seq<char>, peer_id: u32) -> Groups {
    let group = groups[key].without_peer(peer_id);
    if !groups.contains_key(key) {
        groups
    } else if group.is_blank() {
        groups.remove(key)
    } else {
        groups.insert(key, group)
    }
}

/// The groups once a peer has reported its links. A peer reports its own links
/// alone.
pub open spec fn groups_reported(
    groups: Groups,
    key: Seq<char>,
    authenticated_peer_id: u32,
    request: ReportPeersRequestView,
    clock_ms: u64,
) -> (Groups, Result<(), EdgeError>) {
    if request.my_peer_id != authenticated_peer_id {
        (groups, Err(EdgeError::ReportPeerMismatch))
    } else {
        (
            groups.insert(
                key,
                group_of(groups, key).reported(request.my_peer_id, request.direct_peers, clock_ms),
            ),
            Ok(()),
        )
    }
}

/// What a peer is told of the links: all of them and their digest, or nothing if
/// the peer knows the digest already.
pub open spec fn global_map_of(group: CenterGroupView, known_digest: u64) -> GlobalPeerMapView {
    if known_digest == group.digest && known_digest != 0 {
        GlobalPeerMapView { global_peer_map: Map::empty(), digest: None }
    } else {
        GlobalPeerMapView { global_peer_map: links_by_source(group.links), digest: Some(group.digest) }
    }
}

/// The time to live in milliseconds, as far as it can be written.
pub open spec fn ttl_millis(ttl_sec: u64) -> int {
    if ttl_sec * 1000 > u64::MAX {
        u64::MAX as int
    } else {
        ttl_sec * 1000
    }
}

/// Every network has finitely many links.
pub open spec fn is_finite(groups: Groups) -> bool {
    forall|key: Seq<char>| #[trigger] groups.contains_key(key) ==> groups[key].links.dom().finite()
}

/// The peer center of a relay.
pub struct PeerCenter {
    groups: VecMap<String, PeerCenterGroupData>,
}

impl View for PeerCenter {
    type V = Groups;

    closed spec fn view(&self) -> Groups {
        self.groups@
    }
}

impl PeerCenterGroupData {
    fn new() -> (r: Self)
        ensures
            r@ == CenterGroupView::empty(),
    {
        PeerCenterGroupData { global_peer_map: VecMap::new(), peer_report_time: VecMap::new(), digest: 0 }
    }

    /// The links in order.
    fn sorted_pairs(&self) -> (r: Vec<SrcDstPeerPair>)
        ensures
            r@ == collections::ranked_list(self@.links.dom(), pair_rank()),
            r@.to_set() == self@.links.dom(),
    {
        let mut r: Vec<SrcDstPeerPair> = Vec::new();
        let ghost rank = pair_rank();
        let ghost s = self.global_peer_map.listing();
        let n: usize = self.global_peer_map.len();
        let mut i: usize = 0;
        while i < n
            invariant
                i <= n,
                n == s.len(),
                s == self.global_peer_map.listing(),
                collections::distinct_keys(s),
                rank == pair_rank(),
                collections::ranked(r@, rank),
                forall|pair: SrcDstPeerPair| #[trigger]
                    r@.contains(pair) <==> exists|j: int| 0 <= j < i && (#[trigger] s[j]).0 == pair,
            decreases n - i,
        {
            let pair = *self.global_peer_map.key_at(i);
            let ghost before = r@;
            assert(!before.contains(pair)) by {
                if before.contains(pair) {
                    let j = choose|j: int| 0 <= j < i && (#[trigger] s[j]).0 == pair;
                    assert(s[j].0 == s[i as int].0);
                }
            }
            let mut at: usize = 0;
            while at < r.len() && (r[at].src < pair.src || (r[at].src == pair.src && r[at].dst < pair.dst))
                invariant
                    at <= r@.len(),
                    r@ == before,
                    rank == pair_rank(),
                    collections::ranked(before, rank),
                    forall|k: int| 0 <= k < at ==> rank(#[trigger] before[k]) < rank(pair),
                decreases r@.len() - at,
            {
                at += 1;
            }
            proof {
                assert forall|k: int| at <= k < before.len() implies rank(#[trigger] before[k]) > rank(pair) by {
                    assert(before[at as int] != pair) by {
                        assert(before.contains(before[at as int]));
                    }
                    assert(rank(before[at as int]) > rank(pair));
                }
            }
            r.insert(at, pair);
            proof {
                assert(r@ =~= before.insert(at as int, pair));
                assert forall|x: SrcDstPeerPair| #[trigger] r@.contains(x) <==> exists|j: int|
                    0 <= j < i + 1 && (#[trigger] s[j]).0 == x by {
                    assert(r@.contains(x) <==> (x == pair || before.contains(x))) by {
                        if r@.contains(x) && x != pair {
                            let k = choose|k: int| 0 <= k < r@.len() && r@[k] == x;
                            assert(before[if k < at { k } else { k - 1 }] == x);
                        }
                        if before.contains(x) {
                            let k = choose|k: int| 0 <= k < before.len() && before[k] == x;
                            assert(r@[if k < at { k } else { k + 1 }] == x);
                        }
                        assert(r@[at as int] == pair);
                    }
                    assert(s[i as int].0 == pair);
                }
            }
            i += 1;
        }
        proof {
            assert(r@.to_set() =~= self@.links.dom());
            collections::lemma_ranked_list(r@, rank);
        }
        r
    }
}

/// The links of every group are finitely many.
pub proof fn lemma_centers_are_finite()
    ensures
        forall|group: PeerCenterGroupData| (#[trigger] group@).links.dom().finite(),
        forall|center: PeerCenter| is_finite(#[trigger] center@),
{
    assert forall|group: PeerCenterGroupData| (#[trigger] group@).links.dom().finite() by {
        collections::lemma_listed_finite(group.global_peer_map.listing());
    }
    assert forall|center: PeerCenter| is_finite(#[trigger] center@) by {
        center.groups.lemma_values(|group: CenterGroupView| group.links.dom().finite());
    }
}

impl PeerCenter {
    pub fn new() -> (r: Self)
        ensures
            r@ == Map::<Seq<char>, CenterGroupView>::empty(),
            is_finite(r@),
    {
        PeerCenter { groups: VecMap::new() }
    }

    /// The group of a network, which is made if it is not there yet.
    pub fn group_mut(&mut self, group_key: &str) -> (r: &mut PeerCenterGroupData)
        ensures
            r@ == group_of(old(self)@, group_key@),
            final(self)@ == old(self)@.insert(group_key@, final(r)@),
            r@.links.dom().finite(),
            is_finite(final(self)@),
    {
        proof {
            lemma_centers_are_finite();
        }
        self.groups.entry(group_key.to_string(), PeerCenterGroupData::new())
    }

    /// The digest of the links of a group.
    pub fn calc_digest_internal(data: &PeerCenterGroupData) -> (r: u64)
        ensures
            r == digest_of(data@.links),
            data@.links.dom().finite(),
    {
        proof {
            lemma_centers_are_finite();
        }
        let mut hasher = std::collections::hash_map::DefaultHasher::new();
        let pairs = data.sorted_pairs();
        let ghost links = data@.links;
        let mut i: usize = 0;
        assert(pairs@.take(0) =~= Seq::empty());
        while i < pairs.len()
            invariant
                i <= pairs@.len(),
                links == data@.links,
                pairs@.to_set() == links.dom(),
                hasher@ == digest_writes(pairs@.take(i as int), links),
            decreases pairs@.len() - i,
        {
            let pair = pairs[i];
            assert(links.contains_key(pair)) by {
                assert(pairs@.to_set().contains(pair));
            }
            assert(pairs@.take(i + 1).drop_last() =~= pairs@.take(i as int));
            if let Some(entry) = data.global_peer_map.get(&pair) {
                let ghost before = hasher@;
                let mut word: Vec<u8> = Vec::new();
                bytes::put_u32_le(&mut word, pair.src);
                assert(word@ =~= bytes::u32_le(pair.src));
                hasher.write(&word);
                let mut word: Vec<u8> = Vec::new();
                bytes::put_u32_le(&mut word, pair.dst);
                assert(word@ =~= bytes::u32_le(pair.dst));
                hasher.write(&word);
                let mut word: Vec<u8> = Vec::new();
                bytes::put_u32_le(&mut word, entry.info.latency_ms as u32);
                assert(word@ =~= bytes::u32_le(entry.info.latency_ms as u32));
                hasher.write(&word);
                assert(hasher@ =~= before + link_writes(pair, links[pair].info));
            }
            i += 1;
        }
        assert(pairs@.take(i as int) =~= pairs@);
        hasher.finish()
    }

    /// Takes in the links that a peer reports.
    pub fn report_peers(
        &mut self,
        group_key: &str,
        authenticated_peer_id: u32,
        request: &ReportPeersRequest,
        clock_ms: u64,
    ) -> (r: Result<(), EdgeError>)
        ensures
            (final(self)@, r) == groups_reported(
                old(self)@,
                group_key@,
                authenticated_peer_id,
                request@,
                clock_ms,
            ),
            is_finite(final(self)@),
    {
        proof {
            lemma_centers_are_finite();
        }
        let my_peer_id: u32 = request.my_peer_id;
        if my_peer_id != authenticated_peer_id {
            return Err(EdgeError::ReportPeerMismatch);
        }
        let data = self.group_mut(group_key);
        data.peer_report_time.insert(my_peer_id, clock_ms);
        data.add_links(my_peer_id, &request.peer_infos, clock_ms);
        data.digest = Self::calc_digest_internal(data);
        Ok(())
    }

    pub fn remove_peer(&mut self, group_key: &str, peer_id: u32)
        ensures
            final(self)@ == groups_without_peer(old(self)@, group_key@, peer_id),
            is_finite(final(self)@),
    {
        proof {
            lemma_centers_are_finite();
        }
        let key = group_key.to_string();
        let ghost before = self@;
        let mut remove_group = false;
        if let Some(data) = self.groups.get_mut(&key) {
            data.peer_report_time.remove(&peer_id);
            let is_kept = |pair: &SrcDstPeerPair, entry: &PeerCenterInfoEntry| -> (r: bool)
                ensures
                    r == (pair.src != peer_id && pair.dst != peer_id),
            {
                pair.src != peer_id && pair.dst != peer_id
            };
            data.global_peer_map.retain(is_kept, Ghost(not_of(peer_id)));
            data.digest = Self::calc_digest_internal(data);
            remove_group = data.global_peer_map.is_empty() && data.peer_report_time.is_empty();
        }
        if remove_group {
            self.groups.remove(&key);
            assert(self@ =~= before.remove(group_key@));
        }
    }

    /// All links of a network, unless the peer that asks has them already.
    pub fn get_global_peer_map(&mut self, group_key: &str, request: GetGlobalPeerMapRequest) -> (r:
        GetGlobalPeerMapResponse)
        ensures
            final(self)@ == old(self)@.insert(group_key@, group_of(old(self)@, group_key@)),
            r@ == global_map_of(group_of(old(self)@, group_key@), request.digest),
            is_finite(final(self)@),
    {
        proof {
            lemma_centers_are_finite();
        }
        let data = self.group_mut(group_key);
        if request.digest == data.digest && request.digest != 0 {
            return GetGlobalPeerMapResponse { global_peer_map: VecMap::new(), digest: None };
        }
        GetGlobalPeerMapResponse { global_peer_map: data.by_source(), digest: Some(data.digest) }
    }

    /// Drops what was not reported for more than `ttl_sec` seconds. What is exactly
    /// that old stays.
    pub fn clean_outdated(&mut self, ttl_sec: u64, clock_ms: u64)
        ensures
            final(self)@ == cleaned_groups(old(self)@, ttl_millis(ttl_sec), clock_ms),
            is_finite(final(self)@),
    {
        proof {
            lemma_centers_are_finite();
        }
        let ttl_ms: u64 = if ttl_sec > u64::MAX / 1000 {
            u64::MAX
        } else {
            ttl_sec * 1000
        };
        let ghost ttl = ttl_millis(ttl_sec);
        assert(ttl == ttl_ms);
        let ghost f = |group: CenterGroupView| group.cleaned(ttl, clock_ms);
        let ghost s = self.groups.listing();
        let n: usize = self.groups.len();
        let mut i: usize = 0;
        while i < n
            invariant
                i <= n,
                n == s.len(),
                ttl == ttl_ms,
                f == (|group: CenterGroupView| group.cleaned(ttl, clock_ms)),
                collections::distinct_keys(s),
                self.groups.listing().len() == n,
                forall|j: int| 0 <= j < n ==> (#[trigger] self.groups.listing()[j]).0 == s[j].0,
                forall|j: int| 0 <= j < i ==> (#[trigger] self.groups.listing()[j]).1 == f(s[j].1),
                forall|j: int| i <= j < n ==> (#[trigger] self.groups.listing()[j]).1 == s[j].1,
            decreases n - i,
        {
            let data = self.groups.value_at_mut(i);
            data.clean(ttl_ms, clock_ms);
            i += 1;
        }
        proof {
            collections::lemma_listed_mapped(s, self.groups.listing(), f);
        }
        let is_kept = |key: &String, data: &PeerCenterGroupData| -> (r: bool)
            ensures
                r == !data@.is_blank(),
        {
            !data.global_peer_map.is_empty() || !data.peer_report_time.is_empty()
        };
        self.groups.retain(is_kept, Ghost(not_blank()));
    }
}

impl PeerCenterGroupData {
    fn add_links(&mut self, src: u32, peer_infos: &Option<PeerInfoForGlobalMap>, clock_ms: u64)
        ensures
            final(self)@ == (CenterGroupView {
                links: reported_links(
                    old(self)@.links,
                    src,
                    match peer_infos {
                        Some(infos) => infos@,
                        None => Map::empty(),
                    },
                    clock_ms,
                ),
                ..old(self)@
            }),
    {
        let ghost before = self@;
        match peer_infos {
            Some(infos) => {
                let n: usize = infos.direct_peers.len();
                let ghost s = infos.direct_peers.listing();
                let mut i: usize = 0;
                while i < n
                    invariant
                        i <= n,
                        n == s.len(),
                        s == infos.direct_peers.listing(),
                        collections::distinct_keys(s),
                        self@ == (CenterGroupView { links: self@.links, ..before }),
                        forall|pair: SrcDstPeerPair| #[trigger]
                            self@.links.contains_key(pair) <==> (before.links.contains_key(pair) || (pair.src == src
                                && exists|j: int| 0 <= j < i && (#[trigger] s[j]).0 == pair.dst)),
                        forall|j: int|
                            0 <= j < i ==> self@.links[SrcDstPeerPair { src, dst: (#[trigger] s[j]).0 }]
                                == (PeerCenterInfoEntry { info: s[j].1, update_time_ms: clock_ms }),
                        forall|pair: SrcDstPeerPair| #[trigger]
                            self@.links.contains_key(pair) && (pair.src != src || forall|j: int|
                                0 <= j < i ==> (#[trigger] s[j]).0 != pair.dst) ==> self@.links[pair]
                                == before.links[pair],
                    decreases n - i,
                {
                    let dst: u32 = *infos.direct_peers.key_at(i);
                    let info = *infos.direct_peers.value_at(i);
                    let ghost earlier = self@.links;
                    self.global_peer_map.insert(
                        SrcDstPeerPair { src, dst },
                        PeerCenterInfoEntry { info, update_time_ms: clock_ms },
                    );
                    proof {
                        let now = self@.links;
                        assert(s[i as int].0 == dst);
                        assert forall|pair: SrcDstPeerPair| #[trigger] now.contains_key(pair) <==> (
                        before.links.contains_key(pair) || (pair.src == src && exists|j: int|
                            0 <= j < i + 1 && (#[trigger] s[j]).0 == pair.dst)) by {
                            assert(now.contains_key(pair) <==> (earlier.contains_key(pair) || (pair.src == src
                                && pair.dst == dst)));
                        }
                        assert forall|pair: SrcDstPeerPair| #[trigger]
                            now.contains_key(pair) && (pair.src != src || forall|j: int|
                                0 <= j < i + 1 ==> (#[trigger] s[j]).0 != pair.dst) implies now[pair]
                            == before.links[pair] by {
                            if pair.src == src {
                                assert(s[i as int].0 != pair.dst);
                            }
                            assert(earlier.contains_key(pair));
                        }
                    }
                    i += 1;
                }
                proof {
                    let direct = infos@;
                    let expected = reported_links(before.links, src, direct, clock_ms);
                    assert forall|pair: SrcDstPeerPair| self@.links.contains_key(pair) <==> expected.contains_key(
                        pair,
                    ) by {}
                    assert forall|pair: SrcDstPeerPair| self@.links.contains_key(pair) implies self@.links[pair]
                        == expected[pair] by {
                        if pair.src == src && direct.contains_key(pair.dst) {
                            let j = collections::lemma_listed_find(s, pair.dst);
                            assert(pair == SrcDstPeerPair { src, dst: s[j].0 });
                        }
                    }
                    assert(self@.links =~= expected);
                }
            },
            None => {
                assert(self@.links =~= reported_links(before.links, src, Map::empty(), clock_ms));
            },
        }
    }

    fn clean(&mut self, ttl_ms: u64, clock_ms: u64)
        ensures
            final(self)@ == old(self)@.cleaned(ttl_ms as int, clock_ms),
    {
        let is_kept = |peer_id: &u32, time_ms: &u64| -> (r: bool)
            ensures
                r == is_recent(*time_ms, ttl_ms as int, clock_ms),
        {
            clock_ms.saturating_sub(*time_ms) <= ttl_ms
        };
        self.peer_report_time.retain(
            is_kept,
            Ghost(|peer_id: u32, time_ms: u64| is_recent(time_ms, ttl_ms as int, clock_ms)),
        );
        let is_kept = |pair: &SrcDstPeerPair, entry: &PeerCenterInfoEntry| -> (r: bool)
            ensures
                r == is_recent(entry.update_time_ms, ttl_ms as int, clock_ms),
        {
            clock_ms.saturating_sub(entry.update_time_ms) <= ttl_ms
        };
        self.global_peer_map.retain(
            is_kept,
            Ghost(
                |pair: SrcDstPeerPair, entry: PeerCenterInfoEntry|
                    is_recent(entry.update_time_ms, ttl_ms as int, clock_ms),
            ),
        );
        self.digest = PeerCenter::calc_digest_internal(self);
    }

    fn by_source(&self) -> (r: VecMap<u32, PeerInfoForGlobalMap>)
        ensures
            r@ == links_by_source(self@.links),
    {
        let mut r: VecMap<u32, PeerInfoForGlobalMap> = VecMap::new();
        let n: usize = self.global_peer_map.len();
        let ghost s = self.global_peer_map.listing();
        let mut i: usize = 0;
        proof {
            assert(s.take(0) =~= Seq::empty());
            assert(collections::listed_map(s.take(0)) =~= Map::empty());
            assert(r@ =~= links_by_source(collections::listed_map(s.take(0))));
        }
        while i < n
            invariant
                i <= n,
                n == s.len(),
                s == self.global_peer_map.listing(),
                collections::distinct_keys(s),
                r@ == links_by_source(collections::listed_map(s.take(i as int))),
            decreases n - i,
        {
            let pair = *self.global_peer_map.key_at(i);
            let entry = *self.global_peer_map.value_at(i);
            let ghost before = collections::listed_map(s.take(i as int));
            proof {
                assert(s.take(i + 1) =~= s.take(i as int).push(s[i as int]));
                assert(!collections::lists_key(s.take(i as int), pair)) by {
                    if collections::lists_key(s.take(i as int), pair) {
                        let j = choose|j: int| 0 <= j < i && (#[trigger] s.take(i as int)[j]).0 == pair;
                        assert(s[j].0 == s[i as int].0);
                    }
                }
                collections::lemma_listed_push(s.take(i as int), pair, entry);
            }
            let ghost earlier = r@;
            let slot = r.entry(pair.src, PeerInfoForGlobalMap { direct_peers: VecMap::new() });
            let ghost start = slot@;
            slot.direct_peers.insert(pair.dst, entry.info);
            proof {
                lemma_links_insert(before, pair, entry);
                assert(start =~= collections::value_or(links_by_source(before), pair.src, Map::empty()));
            }
            i += 1;
        }
        assert(s.take(i as int) =~= s);
        r
    }
}

/// One more link is one more entry under its source.
proof fn lemma_links_insert(links: Links, pair: SrcDstPeerPair, entry: PeerCenterInfoEntry)
    ensures
        links_by_source(links.insert(pair, entry)) == links_by_source(links).insert(
            pair.src,
            collections::value_or(links_by_source(links), pair.src, Map::empty()).insert(pair.dst, entry.info),
        ),
{
    let after = links.insert(pair, entry);
    let before_map = links_by_source(links);
    let expected = before_map.insert(
        pair.src,
        collections::value_or(before_map, pair.src, Map::empty()).insert(pair.dst, entry.info),
    );
    let actual = links_by_source(after);
    assert forall|src: u32| actual.contains_key(src) <==> expected.contains_key(src) by {
        if before_map.contains_key(src) {
            let dst = choose|dst: u32| #[trigger] links.contains_key(SrcDstPeerPair { src, dst });
            assert(after.contains_key(SrcDstPeerPair { src, dst }));
        }
        if src == pair.src {
            assert(after.contains_key(SrcDstPeerPair { src, dst: pair.dst }));
        }
        if actual.contains_key(src) && src != pair.src {
            let dst = choose|dst: u32| #[trigger] after.contains_key(SrcDstPeerPair { src, dst });
            assert(links.contains_key(SrcDstPeerPair { src, dst }));
        }
    }
    assert forall|src: u32| actual.contains_key(src) implies actual[src] == expected[src] by {
        if src == pair.src && !before_map.contains_key(src) {
            assert forall|dst: u32| !#[trigger] links.contains_key(SrcDstPeerPair { src, dst }) by {}
        }
        assert(actual[src] =~= expected[src]);
    }
    assert(actual =~= expected);
}

/// Networks are isolated: neither a report nor the departure of a peer of one
/// network changes another.
pub proof fn law_reports_are_isolated(
    groups: Groups,
    key: Seq<char>,
    authenticated_peer_id: u32,
    request: ReportPeersRequestView,
    clock_ms: u64,
    other: Seq<char>,
)
    requires
        other != key,
    ensures
        ({
            let reported = groups_reported(groups, key, authenticated_peer_id, request, clock_ms).0;
            let left = groups_without_peer(groups, key, authenticated_peer_id);
            &&& reported.contains_key(other) <==> groups.contains_key(other)
            &&& group_of(reported, other) == group_of(groups, other)
            &&& left.contains_key(other) <==> groups.contains_key(other)
            &&& group_of(left, other) == group_of(groups, other)
        }),
{
}

/// What a peer reports is what the others are told of it.
pub proof fn law_reported_links_are_told(
    group: CenterGroupView,
    src: u32,
    direct_peers: Map<u32, DirectConnectedPeerInfo>,
    clock_ms: u64,
    dst: u32,
)
    requires
        direct_peers.contains_key(dst),
    ensures
        ({
            let told = links_by_source(group.reported(src, direct_peers, clock_ms).links);
            told.contains_key(src) && told[src].contains_key(dst) && told[src][dst] == direct_peers[dst]
        }),
{
    let after = group.reported(src, direct_peers, clock_ms).links;
    assert(after.contains_key(SrcDstPeerPair { src, dst }));
}

/// A report changes the links of the reporting peer alone.
pub proof fn law_report_keeps_other_links(
    group: CenterGroupView,
    src: u32,
    direct_peers: Map<u32, DirectConnectedPeerInfo>,
    clock_ms: u64,
    pair: SrcDstPeerPair,
)
    requires
        pair.src != src,
    ensures
        group.reported(src, direct_peers, clock_ms).links.contains_key(pair) <==> group.links.contains_key(pair),
        group.links.contains_key(pair) ==> group.reported(src, direct_peers, clock_ms).links[pair]
            == group.links[pair],
{
}

/// No link of a removed peer is left, in either direction.
pub proof fn law_removed_peer_has_no_links(group: CenterGroupView, peer_id: u32, pair: SrcDstPeerPair)
    requires
        pair.src == peer_id || pair.dst == peer_id,
    ensures
        !group.without_peer(peer_id).links.contains_key(pair),
        !group.without_peer(peer_id).report_times.contains_key(peer_id),
{
}

/// Whether the digest of a group is that of its links; a group that was never
/// written to has the digest zero.
pub open spec fn digest_is_current(group: CenterGroupView) -> bool {
    group.digest == digest_of(group.links) || group == CenterGroupView::empty()
}

/// Of the links, cleaning drops those that were not reported for more than the time
/// to live, and no others; those that stay are left as they were.
pub proof fn law_cleaning_drops_the_outdated(
    group: CenterGroupView,
    ttl_sec: u64,
    clock_ms: u64,
    pair: SrcDstPeerPair,
)
    requires
        group.links.contains_key(pair),
    ensures
        ({
            let links = group.cleaned(ttl_millis(ttl_sec), clock_ms).links;
            let age = clock_ms - group.links[pair].update_time_ms;
            &&& links.contains_key(pair) <==> age <= ttl_sec * 1000
            &&& links.contains_key(pair) ==> links[pair] == group.links[pair]
        }),
{
}

/// The digest is current after every operation.
pub proof fn law_digest_stays_current(
    group: CenterGroupView,
    peer_id: u32,
    direct_peers: Map<u32, DirectConnectedPeerInfo>,
    ttl_ms: int,
    clock_ms: u64,
)
    ensures
        digest_is_current(CenterGroupView::empty()),
        digest_is_current(group.reported(peer_id, direct_peers, clock_ms)),
        digest_is_current(group.without_peer(peer_id)),
        digest_is_current(group.cleaned(ttl_ms, clock_ms)),
{
}

proof fn lemma_digest_writes(pairs: Seq<SrcDstPeerPair>, a: Links, b: Links)
    requires
        forall|i: int| 0 <= i < pairs.len() ==> a[#[trigger] pairs[i]].info == b[pairs[i]].info,
    ensures
        digest_writes(pairs, a) == digest_writes(pairs, b),
    decreases pairs.len(),
{
    if pairs.len() > 0 {
        assert forall|i: int| 0 <= i < pairs.drop_last().len() implies a[#[trigger] pairs.drop_last()[i]].info
            == b[pairs.drop_last()[i]].info by {
            assert(a[pairs[i]].info == b[pairs[i]].info);
        }
        lemma_digest_writes(pairs.drop_last(), a, b);
        assert(a[pairs[pairs.len() - 1]].info == b[pairs[pairs.len() - 1]].info);
    }
}

proof fn lemma_ranked_list_of(s: Set<SrcDstPeerPair>) -> (l: Seq<SrcDstPeerPair>)
    requires
        s.finite(),
    ensures
        collections::ranked(l, pair_rank()),
        l.to_set() == s,
    decreases s.len(),
{
    let rank = pair_rank();
    if s.len() == 0 {
        assert(s =~= Set::empty());
        let l = Seq::<SrcDstPeerPair>::empty();
        assert(l.to_set() =~= s);
        l
    } else {
        let r = |a: SrcDstPeerPair, b: SrcDstPeerPair| rank(a) >= rank(b);
        assert forall|a: SrcDstPeerPair, b: SrcDstPeerPair| #[trigger] r(a, b) && #[trigger] r(b, a) implies a == b by {}
        s.find_unique_minimal_ensures(r);
        let largest = s.find_unique_minimal(r);
        let rest = lemma_ranked_list_of(s.remove(largest));
        let l = rest.push(largest);
        assert forall|i: int, j: int| 0 <= i < j < l.len() implies rank(#[trigger] l[i]) < rank(#[trigger] l[j]) by {
            assert(rest.to_set().contains(l[i]));
            assert(s.contains(l[i]) && l[i] != largest);
            if j == rest.len() {
                assert(r(l[i], largest) ==> r(largest, l[i]));
            }
        }
        assert forall|x: SrcDstPeerPair| l.to_set().contains(x) <==> s.contains(x) by {
            if s.contains(x) && x != largest {
                assert(rest.to_set().contains(x));
                let i = choose|i: int| 0 <= i < rest.len() && rest[i] == x;
                assert(l[i] == x);
            }
            if x == largest {
                assert(l[rest.len() as int] == x);
            }
            if l.contains(x) {
                let i = choose|i: int| 0 <= i < l.len() && l[i] == x;
                if i < rest.len() {
                    assert(rest[i] == x);
                    assert(rest.to_set().contains(x));
                }
            }
        }
        assert(l.to_set() =~= s);
        l
    }
}

/// The digest depends on the links and their latencies alone, not on when or in
/// what order they were reported.
pub proof fn law_digest_ignores_times(a: Links, b: Links)
    requires
        a.dom().finite(),
        a.dom() == b.dom(),
        forall|pair: SrcDstPeerPair| #[trigger] a.contains_key(pair) ==> a[pair].info == b[pair].info,
    ensures
        digest_of(a) == digest_of(b),
{
    let witness = lemma_ranked_list_of(a.dom());
    collections::lemma_ranked_list(witness, pair_rank());
    let pairs = collections::ranked_list(a.dom(), pair_rank());
    assert forall|i: int| 0 <= i < pairs.len() implies a[#[trigger] pairs[i]].info == b[pairs[i]].info by {
        assert(pairs.to_set().contains(pairs[i]));
        assert(a.contains_key(pairs[i]));
    }
    lemma_digest_writes(pairs, a, b);
}

} // verus!
