//! Route state: who is in a network, what the peers publish of themselves, and
//! what each peer has been told of it.
//!
//! Every network has a group of its own, and no operation on one group touches
//! another. Times are milliseconds of the caller's clock. Versions count modulo
//! their width.
use vstd::prelude::*;

use crate::bits;
use crate::bytes;
use crate::collections;
use crate::collections::{Duplicate, PeerSet, VecMap};
use crate::error::EdgeError;
use crate::proto::{
    ConnInfo, ConnInfoView, Ipv4Addr, PeerConnInfo, PeerConnInfoView, PeerFeatureFlag, PeerFeatureFlagView,
    PeerIdVersion, RouteConnBitmap, RouteConnBitmapView, RouteConnPeerList, RoutePeerInfo, RoutePeerInfoView,
    SyncRouteInfoRequest, SyncRouteInfoRequestView, SyncRouteInfoResponse, Timestamp, Uuid,
};
use crate::text;

verus! {

pub const MAX_LEGACY_BITMAP_PEERS: usize = 8_192;

pub const SAVED_ROUTE_VERSION_TTL_MS: u64 = 60_000;

/// Six random words, from which a new group draws its identity.
#[derive(Debug, Clone, Copy)]
pub struct GroupSeed {
    pub words: [u32; 6],
}

/// A version that a peer has been told, and when.
#[derive(Debug, Clone, Copy, PartialEq, Eq, Structural)]
pub struct SavedVersion {
    pub version: u32,
    pub touched_at_ms: u64,
}

impl View for SavedVersion {
    type V = SavedVersion;

    open spec fn view(&self) -> SavedVersion {
        *self
    }
}

/// What is known of the synchronization with one peer.
pub struct SessionState {
    my_session_id: Option<u64>,
    dst_session_id: Option<u64>,
    we_are_initiator: bool,
    peer_info_ver_map: VecMap<u32, SavedVersion>,
    foreign_net_ver: u32,
    last_touch_ms: u64,
    last_topology_version: u64,
    last_topology_touch_ms: u64,
}

#[verifier::ext_equal]
pub struct SessionView {
    pub my_session_id: Option<u64>,
    pub dst_session_id: Option<u64>,
    pub we_are_initiator: bool,
    pub peer_info_ver_map: Map<u32, SavedVersion>,
    pub foreign_net_ver: u32,
    pub last_touch_ms: u64,
    pub last_topology_version: u64,
    pub last_topology_touch_ms: u64,
}

impl View for SessionState {
    type V = SessionView;

    closed spec fn view(&self) -> SessionView {
        SessionView {
            my_session_id: self.my_session_id,
            dst_session_id: self.dst_session_id,
            we_are_initiator: self.we_are_initiator,
            peer_info_ver_map: self.peer_info_ver_map@,
            foreign_net_ver: self.foreign_net_ver,
            last_touch_ms: self.last_touch_ms,
            last_topology_version: self.last_topology_version,
            last_topology_touch_ms: self.last_topology_touch_ms,
        }
    }
}

impl SessionView {
    /// A peer that has been told nothing.
    pub open spec fn unknown() -> SessionView {
        SessionView {
            my_session_id: None,
            dst_session_id: None,
            we_are_initiator: false,
            peer_info_ver_map: Map::empty(),
            foreign_net_ver: 0,
            last_touch_ms: 0,
            last_topology_version: 0,
            last_topology_touch_ms: 0,
        }
    }

    /// The session once the peer is known to use `session_id`: what was told in
    /// another session is forgotten.
    pub open spec fn joined(self, session_id: u64, we_are_initiator: bool, clock_ms: u64) -> SessionView {
        let known = if self.dst_session_id == Some(session_id) {
            self
        } else {
            SessionView {
                peer_info_ver_map: Map::empty(),
                foreign_net_ver: 0,
                last_topology_version: 0,
                ..self
            }
        };
        SessionView { dst_session_id: Some(session_id), we_are_initiator, last_touch_ms: clock_ms, ..known }
    }

    /// The session without what was told of `peer_id`.
    pub open spec fn without_version(self, peer_id: u32) -> SessionView {
        SessionView { peer_info_ver_map: self.peer_info_ver_map.remove(peer_id), ..self }
    }

    /// The session without what was told of `peer_id` and of the topology.
    pub open spec fn without_peer(self, peer_id: u32) -> SessionView {
        SessionView { last_topology_version: 0, ..self.without_version(peer_id) }
    }

    /// The session once the peer has taken in an update.
    pub open spec fn told(self, versions: Seq<(u32, u32)>, topology_version: Option<u64>, clock_ms: u64) -> SessionView {
        let told = SessionView {
            peer_info_ver_map: saved_versions(self.peer_info_ver_map, versions, clock_ms),
            last_touch_ms: clock_ms,
            ..self
        };
        match topology_version {
            Some(version) => SessionView {
                last_topology_version: if self.last_topology_version > version {
                    self.last_topology_version
                } else {
                    version
                },
                last_topology_touch_ms: clock_ms,
                ..told
            },
            None => told,
        }
    }

    /// The version of `peer_id` that the peer has lately been told, or zero.
    pub open spec fn told_version(self, peer_id: u32, clock_ms: u64) -> u32 {
        if self.peer_info_ver_map.contains_key(peer_id) && clock_ms
            - self.peer_info_ver_map[peer_id].touched_at_ms < SAVED_ROUTE_VERSION_TTL_MS {
            self.peer_info_ver_map[peer_id].version
        } else {
            0
        }
    }

    /// Whether the peer has lately been told this topology.
    pub open spec fn knows_topology(self, topology_version: u64, clock_ms: u64) -> bool {
        self.last_topology_version == topology_version && clock_ms - self.last_topology_touch_ms
            < SAVED_ROUTE_VERSION_TTL_MS
    }
}

/// `saved` once `versions` have been told, one after the other; a version never
/// goes back.
pub open spec fn saved_versions(
    saved: Map<u32, SavedVersion>,
    versions: Seq<(u32, u32)>,
    clock_ms: u64,
) -> Map<u32, SavedVersion>
    decreases versions.len(),
{
    if versions.len() == 0 {
        saved
    } else {
        let before = saved_versions(saved, versions.drop_last(), clock_ms);
        let (peer_id, version) = versions.last();
        before.insert(
            peer_id,
            SavedVersion {
                version: if before.contains_key(peer_id) && before[peer_id].version > version {
                    before[peer_id].version
                } else {
                    version
                },
                touched_at_ms: clock_ms,
            },
        )
    }
}

/// The state of one network.
pub struct RouteGroupData {
    peers: PeerSet,
    peer_infos: VecMap<u32, RoutePeerInfo>,
    authenticated_peer_keys: VecMap<u32, [u8; 32]>,
    sessions: VecMap<u32, SessionState>,
    peer_conn_versions: VecMap<u32, u32>,
    topology_version: u64,
    cached_conn_bitmap: Option<(u64, RouteConnBitmap)>,
    cached_conn_peer_list: Option<(u64, RouteConnPeerList)>,
    my_info: RoutePeerInfo,
    my_info_version: u32,
}

#[verifier::ext_equal]
pub struct RouteGroupView {
    pub peers: Set<u32>,
    pub peer_infos: Map<u32, RoutePeerInfoView>,
    pub authenticated_peer_keys: Map<u32, Seq<u8>>,
    pub sessions: Map<u32, SessionView>,
    pub peer_conn_versions: Map<u32, u32>,
    pub topology_version: u64,
    pub cached_conn_bitmap: Option<(u64, RouteConnBitmapView)>,
    pub cached_conn_peer_list: Option<(u64, Seq<PeerConnInfoView>)>,
    pub my_info: RoutePeerInfoView,
    pub my_info_version: u32,
}

impl View for RouteGroupData {
    type V = RouteGroupView;

    closed spec fn view(&self) -> RouteGroupView {
        RouteGroupView {
            peers: self.peers@,
            peer_infos: self.peer_infos@,
            authenticated_peer_keys: self.authenticated_peer_keys@,
            sessions: self.sessions@,
            peer_conn_versions: self.peer_conn_versions@,
            topology_version: self.topology_version,
            cached_conn_bitmap: collections::option_view(self.cached_conn_bitmap),
            cached_conn_peer_list: collections::option_view(self.cached_conn_peer_list),
            my_info: self.my_info@,
            my_info_version: self.my_info_version,
        }
    }
}

/// The number made of two random words.
pub open spec fn joined_words(hi: u32, lo: u32) -> u64 {
    (hi * 0x1_0000_0000 + lo) as u64
}

/// The version after `version`.
pub open spec fn next_version(version: u32) -> u32 {
    if version == u32::MAX {
        0
    } else {
        (version + 1) as u32
    }
}

/// The topology version after `version`; zero stands for an unknown topology and
/// is left out.
pub open spec fn next_topology(version: u64) -> u64 {
    if version == u64::MAX {
        1
    } else {
        (version + 1) as u64
    }
}

/// What the relay first publishes of itself.
pub open spec fn initial_info(my_peer_id: u32, words: Seq<u32>) -> RoutePeerInfoView {
    RoutePeerInfoView {
        peer_id: my_peer_id,
        inst_id: Some(Uuid { part1: words[0], part2: words[1], part3: words[2], part4: words[3] }),
        cost: 0,
        ipv4_addr: None,
        hostname: Some("edge"@),
        last_update: None,
        version: 1,
        easytier_version: "2.6.4-8428a89d-edge"@,
        feature_flag: Some(
            PeerFeatureFlagView {
                is_public_server: true,
                avoid_relay_data: false,
                kcp_input: false,
                no_relay_kcp: false,
                support_conn_list_sync: true,
                disable_p2p: true,
                rest: Seq::empty(),
            },
        ),
        peer_route_id: joined_words(words[4], words[5]),
        network_length: 24,
        noise_static_pubkey: Seq::empty(),
        rest: Seq::empty(),
    }
}

impl RouteGroupView {
    /// A network without peers.
    pub open spec fn initial(my_peer_id: u32, words: Seq<u32>) -> RouteGroupView {
        RouteGroupView {
            peers: Set::empty(),
            peer_infos: Map::empty(),
            authenticated_peer_keys: Map::empty(),
            sessions: Map::empty(),
            peer_conn_versions: Map::empty(),
            topology_version: 1,
            cached_conn_bitmap: None,
            cached_conn_peer_list: None,
            my_info: initial_info(my_peer_id, words),
            my_info_version: 1,
        }
    }

    /// The session with a peer.
    pub open spec fn session(self, peer_id: u32) -> SessionView {
        collections::value_or(self.sessions, peer_id, SessionView::unknown())
    }

    pub open spec fn with_session(self, peer_id: u32, session: SessionView) -> RouteGroupView {
        RouteGroupView { sessions: self.sessions.insert(peer_id, session), ..self }
    }

    /// The version of a peer's connections.
    pub open spec fn conn_version(self, peer_id: u32) -> u32 {
        collections::value_or(self.peer_conn_versions, peer_id, 1)
    }

    /// The connection versions once those of all known peers have gone up.
    pub open spec fn bumped_peers(self) -> Map<u32, u32> {
        let known = self.peers + self.peer_infos.dom();
        Map::new(
            |peer_id: u32| self.peer_conn_versions.contains_key(peer_id) || known.contains(peer_id),
            |peer_id: u32|
                if known.contains(peer_id) {
                    next_version(self.conn_version(peer_id))
                } else {
                    self.peer_conn_versions[peer_id]
                },
        )
    }

    /// The group once its topology has changed.
    pub open spec fn bumped(self, my_peer_id: u32) -> RouteGroupView {
        RouteGroupView {
            peer_conn_versions: self.bumped_peers().insert(
                my_peer_id,
                next_version(collections::value_or(self.bumped_peers(), my_peer_id, 1)),
            ),
            topology_version: next_topology(self.topology_version),
            cached_conn_bitmap: None,
            cached_conn_peer_list: None,
            ..self
        }
    }

    /// The group once `peer_id` is bound to `key`.
    pub open spec fn with_peer(self, peer_id: u32, key: Seq<u8>, my_peer_id: u32) -> RouteGroupView {
        let bound = RouteGroupView {
            peers: self.peers.insert(peer_id),
            authenticated_peer_keys: self.authenticated_peer_keys.insert(peer_id, key),
            ..self
        };
        if self.peers.contains(peer_id) {
            bound
        } else {
            bound.bumped(my_peer_id)
        }
    }

    /// The group without `peer_id`.
    pub open spec fn without_peer(self, peer_id: u32, my_peer_id: u32) -> RouteGroupView {
        let left = RouteGroupView {
            peers: self.peers.remove(peer_id),
            peer_infos: self.peer_infos.remove(peer_id),
            authenticated_peer_keys: self.authenticated_peer_keys.remove(peer_id),
            sessions: collections::mapped(
                self.sessions.remove(peer_id),
                |session: SessionView| session.without_peer(peer_id),
            ),
            peer_conn_versions: self.peer_conn_versions.remove(peer_id),
            ..self
        };
        if self.peers.contains(peer_id) || self.peer_infos.contains_key(peer_id) {
            left.bumped(my_peer_id)
        } else {
            left
        }
    }

    /// The group once the relay has changed what it publishes of itself.
    pub open spec fn with_my_info(self, info: RoutePeerInfoView) -> RouteGroupView {
        RouteGroupView {
            my_info: RoutePeerInfoView { version: next_version(self.my_info_version), ..info },
            my_info_version: next_version(self.my_info_version),
            ..self
        }
    }
}

#[verifier::ext_equal]
pub struct RouteStateView {
    pub groups: Map<Seq<char>, RouteGroupView>,
    pub my_peer_id: u32,
}

impl RouteStateView {
    /// The group of a network; one that is not there yet would be made of `words`.
    pub open spec fn group(self, key: Seq<char>, words: Seq<u32>) -> RouteGroupView {
        collections::value_or(self.groups, key, RouteGroupView::initial(self.my_peer_id, words))
    }

    pub open spec fn with_group(self, key: Seq<char>, group: RouteGroupView) -> RouteStateView {
        RouteStateView { groups: self.groups.insert(key, group), ..self }
    }

    /// The state once a peer was to be bound to the key that it authenticated with.
    pub open spec fn added(self, key: Seq<char>, peer_id: u32, public_key: Seq<u8>, words: Seq<u32>) -> (
        RouteStateView,
        Result<(), EdgeError>,
    ) {
        let group = self.group(key, words);
        if public_key.len() != 32 {
            (self, Err(EdgeError::PeerKeyLength))
        } else if group.authenticated_peer_keys.contains_key(peer_id) && group.authenticated_peer_keys[peer_id]
            != public_key {
            (self.with_group(key, group), Err(EdgeError::PeerKeyConflict))
        } else {
            (self.with_group(key, group.with_peer(peer_id, public_key, self.my_peer_id)), Ok(()))
        }
    }

    /// The state without a peer.
    pub open spec fn left(self, key: Seq<char>, peer_id: u32, words: Seq<u32>) -> RouteStateView {
        self.with_group(key, self.group(key, words).without_peer(peer_id, self.my_peer_id))
    }

    /// The state once a peer has answered in a session.
    pub open spec fn acked(
        self,
        key: Seq<char>,
        peer_id: u32,
        session_id: u64,
        we_are_initiator: bool,
        words: Seq<u32>,
        clock_ms: u64,
    ) -> RouteStateView {
        let group = self.group(key, words);
        self.with_group(
            key,
            group.with_session(peer_id, group.session(peer_id).joined(session_id, we_are_initiator, clock_ms)),
        )
    }

    /// The state once a peer has taken in an update.
    pub open spec fn committed(
        self,
        key: Seq<char>,
        peer_id: u32,
        versions: Seq<(u32, u32)>,
        topology_version: Option<u64>,
        words: Seq<u32>,
        clock_ms: u64,
    ) -> RouteStateView {
        let group = self.group(key, words);
        self.with_group(
            key,
            group.with_session(peer_id, group.session(peer_id).told(versions, topology_version, clock_ms)),
        )
    }

    /// The state once a field of what the relay publishes was to be changed.
    pub open spec fn with_field(self, key: Seq<char>, field: Seq<char>, value: Seq<char>, words: Seq<u32>) -> (
        RouteStateView,
        Result<(), EdgeError>,
    ) {
        let group = self.group(key, words);
        match my_info_with(group.my_info, field, value) {
            Ok(info) => (self.with_group(key, group.with_my_info(info)), Ok(())),
            Err(error) => (self.with_group(key, group), Err(error)),
        }
    }

    /// The state once the relay was to publish its key.
    pub open spec fn with_noise_key(self, key: Seq<char>, public_key: Seq<u8>, words: Seq<u32>) -> (
        RouteStateView,
        Result<(), EdgeError>,
    ) {
        let group = self.group(key, words);
        if public_key.len() != 32 {
            (self, Err(EdgeError::NoiseKeyLength))
        } else {
            (
                self.with_group(
                    key,
                    group.with_my_info(RoutePeerInfoView { noise_static_pubkey: public_key, ..group.my_info }),
                ),
                Ok(()),
            )
        }
    }

    /// The state once an update has been built, and the update.
    pub open spec fn updated(
        self,
        key: Seq<char>,
        target: u32,
        session_id: u64,
        we_are_initiator: bool,
        force_full: bool,
        words: Seq<u32>,
        clock_ms: u64,
    ) -> (RouteStateView, Result<RouteUpdateView, EdgeError>) {
        let (group, update) = self.group(key, words).update(
            target,
            session_id,
            we_are_initiator,
            force_full,
            self.my_peer_id,
            clock_ms,
        );
        (self.with_group(key, group), update)
    }

    /// The state once a request of `from` has been handled, and the outcome.
    pub open spec fn synced(
        self,
        key: Seq<char>,
        from: u32,
        request: SyncRouteInfoRequestView,
        words: Seq<u32>,
        clock_ms: u64,
    ) -> (RouteStateView, Result<RouteSyncOutcome, EdgeError>) {
        if request.my_peer_id != from {
            (self, Err(EdgeError::RoutePeerMismatch))
        } else {
            let (group, outcome) = self.group(key, words).handled(from, request, self.my_peer_id, clock_ms);
            (self.with_group(key, group), outcome)
        }
    }
}

/// Every network has finitely many members.
pub open spec fn is_finite(state: RouteStateView) -> bool {
    forall|key: Seq<char>| #[trigger] state.groups.contains_key(key) ==> state.groups[key].peers.finite()
}

/// The route state of a relay.
pub struct RouteState {
    groups: VecMap<String, RouteGroupData>,
    my_peer_id: u32,
}

impl View for RouteState {
    type V = RouteStateView;

    closed spec fn view(&self) -> RouteStateView {
        RouteStateView { groups: self.groups@, my_peer_id: self.my_peer_id }
    }
}

impl SessionState {
    fn new() -> (r: Self)
        ensures
            r@ == SessionView::unknown(),
    {
        SessionState {
            my_session_id: None,
            dst_session_id: None,
            we_are_initiator: false,
            peer_info_ver_map: VecMap::new(),
            foreign_net_ver: 0,
            last_touch_ms: 0,
            last_topology_version: 0,
            last_topology_touch_ms: 0,
        }
    }

    fn join(&mut self, session_id: u64, we_are_initiator: bool, clock_ms: u64) -> (r: bool)
        ensures
            r == (old(self)@.dst_session_id != Some(session_id)),
            final(self)@ == old(self)@.joined(session_id, we_are_initiator, clock_ms),
    {
        let changed = match self.dst_session_id {
            Some(current) => current != session_id,
            None => true,
        };
        if changed {
            self.peer_info_ver_map = VecMap::new();
            self.foreign_net_ver = 0;
            self.last_topology_version = 0;
        }
        self.dst_session_id = Some(session_id);
        self.we_are_initiator = we_are_initiator;
        self.last_touch_ms = clock_ms;
        changed
    }

    fn save_version(&mut self, peer_id: u32, version: u32, clock_ms: u64)
        ensures
            final(self)@ == (SessionView {
                peer_info_ver_map: saved_versions(
                    old(self)@.peer_info_ver_map,
                    seq![(peer_id, version)],
                    clock_ms,
                ),
                ..old(self)@
            }),
    {
        let ghost before = self.peer_info_ver_map@;
        proof {
            reveal_with_fuel(saved_versions, 2);
            assert(seq![(peer_id, version)].drop_last() =~= Seq::<(u32, u32)>::empty());
        }
        let newest: u32 = match self.peer_info_ver_map.get(&peer_id) {
            Some(saved) => if saved.version > version {
                saved.version
            } else {
                version
            },
            None => version,
        };
        self.peer_info_ver_map.insert(peer_id, SavedVersion { version: newest, touched_at_ms: clock_ms });
    }

    fn tell(&mut self, versions: &[(u32, u32)], topology_version: Option<u64>, clock_ms: u64)
        ensures
            final(self)@ == old(self)@.told(versions@, topology_version, clock_ms),
    {
        let ghost before = self@;
        let mut i: usize = 0;
        assert(versions@.take(0) =~= Seq::empty());
        while i < versions.len()
            invariant
                i <= versions@.len(),
                self@ == (SessionView {
                    peer_info_ver_map: saved_versions(
                        before.peer_info_ver_map,
                        versions@.take(i as int),
                        clock_ms,
                    ),
                    ..before
                }),
            decreases versions@.len() - i,
        {
            let (peer_id, version) = versions[i];
            proof {
                let done = versions@.take(i + 1);
                assert(done.drop_last() =~= versions@.take(i as int));
                reveal_with_fuel(saved_versions, 2);
                assert(seq![(peer_id, version)].drop_last() =~= Seq::<(u32, u32)>::empty());
            }
            self.save_version(peer_id, version, clock_ms);
            i += 1;
        }
        assert(versions@.take(i as int) =~= versions@);
        if let Some(version) = topology_version {
            if self.last_topology_version <= version {
                self.last_topology_version = version;
            }
            self.last_topology_touch_ms = clock_ms;
        }
        self.last_touch_ms = clock_ms;
    }
}

fn increment(version: u32) -> (r: u32)
    ensures
        r == next_version(version),
{
    if version == u32::MAX {
        0
    } else {
        version + 1
    }
}

impl RouteGroupData {
    fn new(my_peer_id: u32, seed: &GroupSeed) -> (r: Self)
        ensures
            r@ == RouteGroupView::initial(my_peer_id, seed.words@),
    {
        let words = seed.words;
        let my_info = RoutePeerInfo {
            peer_id: my_peer_id,
            inst_id: Some(RouteState::random_uuid(words[0], words[1], words[2], words[3])),
            cost: 0,
            ipv4_addr: None,
            hostname: Some("edge".to_string()),
            last_update: None,
            version: 1,
            easytier_version: "2.6.4-8428a89d-edge".to_string(),
            // The relay is a fallback for traffic, not only for discovery; peers
            // still prefer cheaper links between themselves.
            feature_flag: Some(
                PeerFeatureFlag {
                    is_public_server: true,
                    avoid_relay_data: false,
                    kcp_input: false,
                    no_relay_kcp: false,
                    support_conn_list_sync: true,
                    disable_p2p: true,
                    rest: Vec::new(),
                },
            ),
            peer_route_id: RouteState::random_u64(words[4], words[5]),
            network_length: 24,
            noise_static_pubkey: Vec::new(),
            rest: Vec::new(),
        };
        RouteGroupData {
            peers: PeerSet::new(),
            peer_infos: VecMap::new(),
            authenticated_peer_keys: VecMap::new(),
            sessions: VecMap::new(),
            peer_conn_versions: VecMap::new(),
            topology_version: 1,
            cached_conn_bitmap: None,
            cached_conn_peer_list: None,
            my_info,
            my_info_version: 1,
        }
    }

    /// The peers that are in the network or have published something.
    fn known_peers(&self) -> (r: PeerSet)
        ensures
            r@ == self@.peers + self@.peer_infos.dom(),
    {
        let mut known = self.peers.duplicate();
        let n: usize = self.peer_infos.len();
        let ghost s = self.peer_infos.listing();
        let mut i: usize = 0;
        while i < n
            invariant
                i <= n,
                n == s.len(),
                s == self.peer_infos.listing(),
                forall|id: u32| #[trigger]
                    known@.contains(id) <==> (self.peers@.contains(id) || exists|j: int|
                        0 <= j < i && (#[trigger] s[j]).0 == id),
            decreases n - i,
        {
            let id: u32 = *self.peer_infos.key_at(i);
            let ghost earlier = known@;
            known.insert(id);
            proof {
                assert forall|x: u32| #[trigger] known@.contains(x) <==> (self.peers@.contains(x) || exists|j: int|
                    0 <= j < i + 1 && (#[trigger] s[j]).0 == x) by {
                    assert(s[i as int].0 == id);
                    assert(known@.contains(x) <==> (x == id || earlier.contains(x)));
                }
            }
            i += 1;
        }
        assert(known@ =~= self.peers@ + self.peer_infos@.dom());
        known
    }

    /// Forgets in every session what was told of `peer_id`, and of the topology
    /// too if `topology` says so.
    fn forget(&mut self, peer_id: u32, topology: bool)
        ensures
            final(self)@ == (RouteGroupView {
                sessions: collections::mapped(
                    old(self)@.sessions,
                    |session: SessionView|
                        if topology {
                            session.without_peer(peer_id)
                        } else {
                            session.without_version(peer_id)
                        },
                ),
                ..old(self)@
            }),
    {
        let ghost f = |session: SessionView|
            if topology {
                session.without_peer(peer_id)
            } else {
                session.without_version(peer_id)
            };
        let ghost before = self@;
        let ghost s = self.sessions.listing();
        let n: usize = self.sessions.len();
        let mut i: usize = 0;
        while i < n
            invariant
                i <= n,
                n == s.len(),
                collections::distinct_keys(s),
                self.sessions.listing().len() == n,
                f == (|session: SessionView|
                    if topology {
                        session.without_peer(peer_id)
                    } else {
                        session.without_version(peer_id)
                    }),
                self@ == (RouteGroupView { sessions: self.sessions@, ..before }),
                forall|j: int| 0 <= j < n ==> (#[trigger] self.sessions.listing()[j]).0 == s[j].0,
                forall|j: int| 0 <= j < i ==> (#[trigger] self.sessions.listing()[j]).1 == f(s[j].1),
                forall|j: int| i <= j < n ==> (#[trigger] self.sessions.listing()[j]).1 == s[j].1,
            decreases n - i,
        {
            let session = self.sessions.value_at_mut(i);
            session.peer_info_ver_map.remove(&peer_id);
            if topology {
                session.last_topology_version = 0;
            }
            i += 1;
        }
        proof {
            collections::lemma_listed_mapped(s, self.sessions.listing(), f);
        }
    }
}

/// The members of every group are finitely many.
pub proof fn lemma_states_are_finite()
    ensures
        forall|group: RouteGroupData| (#[trigger] group@).peers.finite(),
        forall|state: RouteState| is_finite(#[trigger] state@),
{
    assert forall|group: RouteGroupData| (#[trigger] group@).peers.finite() by {
        group.peers.lemma_finite();
    }
    assert forall|state: RouteState| is_finite(#[trigger] state@) by {
        state.groups.lemma_values(|group: RouteGroupView| group.peers.finite());
    }
}

impl RouteState {
    pub fn new(my_peer_id: u32) -> (r: Self)
        ensures
            r@ == (RouteStateView { groups: Map::empty(), my_peer_id }),
            is_finite(r@),
    {
        RouteState { groups: VecMap::new(), my_peer_id }
    }

    /// The number made of two random words.
    pub fn random_u64(hi: u32, lo: u32) -> (r: u64)
        ensures
            r == joined_words(hi, lo),
    {
        hi as u64 * 0x1_0000_0000 + lo as u64
    }

    /// The identifier made of four random words.
    pub fn random_uuid(part1: u32, part2: u32, part3: u32, part4: u32) -> (r: Uuid)
        ensures
            r == (Uuid { part1, part2, part3, part4 }),
    {
        Uuid { part1, part2, part3, part4 }
    }

    /// The group of a network, which is made of `seed` if it is not there yet.
    pub fn ensure_group(&mut self, group_key: &str, seed: &GroupSeed) -> (r: &mut RouteGroupData)
        ensures
            r@ == old(self)@.group(group_key@, seed.words@),
            final(self)@ == old(self)@.with_group(group_key@, final(r)@),
            r@.peers.finite(),
            is_finite(final(self)@),
    {
        proof {
            lemma_states_are_finite();
        }
        let my_peer_id: u32 = self.my_peer_id;
        self.groups.entry(group_key.to_string(), RouteGroupData::new(my_peer_id, seed))
    }

    /// Binds a peer to the key that it authenticated with.
    pub fn add_peer(&mut self, group_key: &str, peer_id: u32, public_key: &[u8], seed: &GroupSeed) -> (r: Result<
        (),
        EdgeError,
    >)
        ensures
            (final(self)@, r) == old(self)@.added(group_key@, peer_id, public_key@, seed.words@),
            is_finite(final(self)@),
    {
        proof {
            lemma_states_are_finite();
        }
        let key = match bytes::to_key(public_key) {
            Some(key) => key,
            None => {
                return Err(EdgeError::PeerKeyLength);
            },
        };
        let my_peer_id: u32 = self.my_peer_id;
        let g = self.ensure_group(group_key, seed);
        if let Some(current) = g.authenticated_peer_keys.get(&peer_id) {
            if !bytes::same_bytes(current, public_key) {
                return Err(EdgeError::PeerKeyConflict);
            }
        }
        g.authenticated_peer_keys.insert(peer_id, key);
        let is_new = g.peers.insert(peer_id);
        if is_new {
            Self::bump_all_conn_versions(g, my_peer_id);
        }
        Ok(())
    }

    pub fn remove_peer(&mut self, group_key: &str, peer_id: u32, seed: &GroupSeed)
        ensures
            final(self)@ == old(self)@.left(group_key@, peer_id, seed.words@),
            is_finite(final(self)@),
    {
        proof {
            lemma_states_are_finite();
        }
        let my_peer_id: u32 = self.my_peer_id;
        let g = self.ensure_group(group_key, seed);
        let was_present = g.peers.remove(peer_id);
        let had_info = g.peer_infos.remove(&peer_id).is_some();
        g.authenticated_peer_keys.remove(&peer_id);
        g.sessions.remove(&peer_id);
        g.peer_conn_versions.remove(&peer_id);
        let ghost sessions = g@.sessions;
        g.forget(peer_id, true);
        assert(g@.sessions =~= collections::mapped(
            sessions,
            |session: SessionView| session.without_peer(peer_id),
        ));
        if was_present || had_info {
            Self::bump_all_conn_versions(g, my_peer_id);
        }
    }

    /// The peer has answered in the session `their_session_id`.
    pub fn on_route_session_ack(
        &mut self,
        group_key: &str,
        peer_id: u32,
        their_session_id: u64,
        we_are_initiator: bool,
        seed: &GroupSeed,
        clock_ms: u64,
    )
        ensures
            final(self)@ == old(self)@.acked(
                group_key@,
                peer_id,
                their_session_id,
                we_are_initiator,
                seed.words@,
                clock_ms,
            ),
            is_finite(final(self)@),
    {
        proof {
            lemma_states_are_finite();
        }
        let g = self.ensure_group(group_key, seed);
        let session = g.sessions.entry(peer_id, SessionState::new());
        session.join(their_session_id, we_are_initiator, clock_ms);
    }

    /// The peer has taken in an update.
    pub fn commit_route_update(
        &mut self,
        group_key: &str,
        peer_id: u32,
        peer_info_versions: &[(u32, u32)],
        topology_version: Option<u64>,
        seed: &GroupSeed,
        clock_ms: u64,
    )
        ensures
            final(self)@ == old(self)@.committed(
                group_key@,
                peer_id,
                peer_info_versions@,
                topology_version,
                seed.words@,
                clock_ms,
            ),
            is_finite(final(self)@),
    {
        proof {
            lemma_states_are_finite();
        }
        let g = self.ensure_group(group_key, seed);
        let session = g.sessions.entry(peer_id, SessionState::new());
        session.tell(peer_info_versions, topology_version, clock_ms);
    }

    /// Changes one of the fields that the relay publishes of itself.
    pub fn set_my_info_field(&mut self, group_key: &str, field: &str, value: &str, seed: &GroupSeed) -> (r: Result<
        (),
        EdgeError,
    >)
        ensures
            (final(self)@, r) == old(self)@.with_field(group_key@, field@, value@, seed.words@),
            is_finite(final(self)@),
    {
        proof {
            lemma_states_are_finite();
        }
        let g = self.ensure_group(group_key, seed);
        if text::same_text(field, "hostname") {
            g.my_info.hostname = Some(value.to_string());
        } else if text::same_text(field, "network_length") {
            match text::parse_u32(value) {
                Some(length) => {
                    g.my_info.network_length = length;
                },
                None => {
                    return Err(EdgeError::InvalidNetworkLength);
                },
            }
        } else if text::same_text(field, "ipv4_addr") {
            match text::parse_u32(value) {
                Some(addr) => {
                    g.my_info.ipv4_addr = Some(Ipv4Addr { addr });
                },
                None => {
                    return Err(EdgeError::InvalidIpv4Addr);
                },
            }
        } else {
            return Err(EdgeError::UnknownField);
        }
        g.my_info_version = increment(g.my_info_version);
        g.my_info.version = g.my_info_version;
        Ok(())
    }

    /// Publishes the key of the relay, so that peers can pin its identity.
    pub fn set_my_noise_public_key(&mut self, group_key: &str, public_key: &[u8], seed: &GroupSeed) -> (r: Result<
        (),
        EdgeError,
    >)
        ensures
            (final(self)@, r) == old(self)@.with_noise_key(group_key@, public_key@, seed.words@),
            is_finite(final(self)@),
    {
        proof {
            lemma_states_are_finite();
        }
        if public_key.len() != 32 {
            return Err(EdgeError::NoiseKeyLength);
        }
        let g = self.ensure_group(group_key, seed);
        g.my_info.noise_static_pubkey = vstd::slice::slice_to_vec(public_key);
        g.my_info_version = increment(g.my_info_version);
        g.my_info.version = g.my_info_version;
        Ok(())
    }

    /// Raises the connection versions of all known peers and of the relay.
    pub fn bump_all_conn_versions(g: &mut RouteGroupData, my_peer_id: u32)
        ensures
            final(g)@ == old(g)@.bumped(my_peer_id),
    {
        let ghost before = g@;
        let known = g.known_peers();
        let all = known.to_list();
        let mut i: usize = 0;
        while i < all.len()
            invariant
                i <= all@.len(),
                collections::ascending(all@),
                g@ == (RouteGroupView { peer_conn_versions: g.peer_conn_versions@, ..before }),
                forall|id: u32| #[trigger]
                    g.peer_conn_versions@.contains_key(id) <==> (before.peer_conn_versions.contains_key(id)
                        || exists|j: int| 0 <= j < i && #[trigger] all@[j] == id),
                forall|j: int| 0 <= j < i ==> g.peer_conn_versions@[#[trigger] all@[j]] == next_version(
                    before.conn_version(all@[j]),
                ),
                forall|id: u32| #[trigger]
                    g.peer_conn_versions@.contains_key(id) && (forall|j: int| 0 <= j < i ==> #[trigger] all@[j] != id)
                        ==> g.peer_conn_versions@[id] == before.peer_conn_versions[id],
            decreases all@.len() - i,
        {
            let id: u32 = all[i];
            let ghost earlier = g.peer_conn_versions@;
            let version: u32 = match g.peer_conn_versions.get(&id) {
                Some(version) => *version,
                None => 1,
            };
            assert(version == before.conn_version(id));
            g.peer_conn_versions.insert(id, increment(version));
            proof {
                let now = g.peer_conn_versions@;
                assert forall|x: u32| #[trigger] now.contains_key(x) <==> (before.peer_conn_versions.contains_key(x)
                    || exists|j: int| 0 <= j < i + 1 && #[trigger] all@[j] == x) by {
                    assert(now.contains_key(x) <==> (x == id || earlier.contains_key(x)));
                    assert(all@[i as int] == id);
                }
                assert forall|j: int| 0 <= j < i + 1 implies now[#[trigger] all@[j]] == next_version(
                    before.conn_version(all@[j]),
                ) by {}
                assert forall|x: u32| #[trigger] now.contains_key(x) && (forall|j: int|
                    0 <= j < i + 1 ==> #[trigger] all@[j] != x) implies now[x] == before.peer_conn_versions[x] by {
                    assert(all@[i as int] != x);
                    assert(earlier.contains_key(x));
                }
            }
            i += 1;
        }
        proof {
            let set = before.peers + before.peer_infos.dom();
            assert forall|id: u32| set.contains(id) <==> exists|j: int| 0 <= j < all@.len() && #[trigger] all@[j] == id by {
                assert(all@.to_set().contains(id) <==> set.contains(id));
            }
            assert(g.peer_conn_versions@ =~= before.bumped_peers());
        }
        let version: u32 = match g.peer_conn_versions.get(&my_peer_id) {
            Some(version) => *version,
            None => 1,
        };
        g.peer_conn_versions.insert(my_peer_id, increment(version));
        g.topology_version = if g.topology_version == u64::MAX {
            1
        } else {
            g.topology_version + 1
        };
        g.cached_conn_bitmap = None;
        g.cached_conn_peer_list = None;
    }
}

/// `info` with one field changed by name.
pub open spec fn my_info_with(info: RoutePeerInfoView, field: Seq<char>, value: Seq<char>) -> Result<
    RoutePeerInfoView,
    EdgeError,
> {
    if field == "hostname"@ {
        Ok(RoutePeerInfoView { hostname: Some(value), ..info })
    } else if field == "network_length"@ {
        match text::parsed_u32(value) {
            Some(length) => Ok(RoutePeerInfoView { network_length: length, ..info }),
            None => Err(EdgeError::InvalidNetworkLength),
        }
    } else if field == "ipv4_addr"@ {
        match text::parsed_u32(value) {
            Some(addr) => Ok(RoutePeerInfoView { ipv4_addr: Some(Ipv4Addr { addr }), ..info }),
            None => Err(EdgeError::InvalidIpv4Addr),
        }
    } else {
        Err(EdgeError::UnknownField)
    }
}

/// The peers at the ends of bit `k` of a connection matrix are the same, or one
/// of them is the relay: peers are linked with the relay alone.
pub open spec fn is_linked(peers: Seq<u32>, my_peer_id: u32, k: int) -> bool {
    let n = peers.len() as int;
    k < n * n && (k / n == k % n || !peers.contains(my_peer_id) || peers[k / n] == my_peer_id || peers[k % n]
        == my_peer_id)
}

/// The peers other than `peer_id`.
pub open spec fn other_than(peer_id: u32) -> spec_fn(u32) -> bool {
    |other: u32| other != peer_id
}

/// A request for a peer, and what the peer knows once it has taken the request in.
#[derive(Debug)]
pub struct RouteUpdate {
    pub request: SyncRouteInfoRequest,
    pub peer_info_versions: Vec<(u32, u32)>,
    pub topology_version: Option<u64>,
}

#[verifier::ext_equal]
pub struct RouteUpdateView {
    pub request: SyncRouteInfoRequestView,
    pub peer_info_versions: Seq<(u32, u32)>,
    pub topology_version: Option<u64>,
}

impl View for RouteUpdate {
    type V = RouteUpdateView;

    open spec fn view(&self) -> RouteUpdateView {
        RouteUpdateView {
            request: self.request@,
            peer_info_versions: self.peer_info_versions@,
            topology_version: self.topology_version,
        }
    }
}

/// The view of an update, or why there is none.
pub open spec fn update_view(r: Result<RouteUpdate, EdgeError>) -> Result<RouteUpdateView, EdgeError> {
    match r {
        Ok(update) => Ok(update@),
        Err(error) => Err(error),
    }
}

/// The version that stands for an information; zero counts as one.
pub open spec fn effective_version(info: RoutePeerInfoView) -> u32 {
    if info.version == 0 {
        1
    } else {
        info.version
    }
}

impl RouteGroupView {
    /// A peer with the version of its connections.
    pub open spec fn peer_id_version(self, peer_id: u32) -> PeerIdVersion {
        PeerIdVersion { peer_id, version: self.conn_version(peer_id) }
    }

    /// The topology as one list per peer: the relay is linked with every peer,
    /// and a peer with the relay.
    pub open spec fn conn_list(self, peers: Seq<u32>, my_peer_id: u32) -> Seq<PeerConnInfoView> {
        peers.map_values(
            |peer_id: u32|
                PeerConnInfoView {
                    peer_id: Some(self.peer_id_version(peer_id)),
                    connected_peer_ids: if peer_id == my_peer_id {
                        peers.filter(other_than(my_peer_id))
                    } else {
                        seq![my_peer_id]
                    },
                },
        )
    }

    /// The same topology as a matrix of bits.
    pub open spec fn conn_bitmap(self, peers: Seq<u32>, my_peer_id: u32) -> RouteConnBitmapView {
        RouteConnBitmapView {
            peer_ids: peers.map_values(|peer_id: u32| self.peer_id_version(peer_id)),
            bitmap: bits::bit_string(
                ((peers.len() * peers.len() + 7) / 8) as nat,
                |k: int| is_linked(peers, my_peer_id, k),
            ),
        }
    }

    /// The topology as `target` is told it, if it is due, and the group with the
    /// topology remembered.
    pub open spec fn conn_info(
        self,
        peers: Seq<u32>,
        target: u32,
        as_list: bool,
        my_peer_id: u32,
        clock_ms: u64,
    ) -> (RouteGroupView, Result<Option<ConnInfoView>, EdgeError>) {
        let version = self.topology_version;
        if peers.len() == 0 || (self.sessions.contains_key(target) && self.sessions[target].knows_topology(
            version,
            clock_ms,
        )) {
            (self, Ok(None))
        } else if as_list {
            let list = match self.cached_conn_peer_list {
                Some(cached) if cached.0 == version => cached.1,
                _ => self.conn_list(peers, my_peer_id),
            };
            (
                RouteGroupView { cached_conn_peer_list: Some((version, list)), ..self },
                Ok(Some(ConnInfoView::ConnPeerList(list))),
            )
        } else if !(self.cached_conn_bitmap matches Some(cached) && cached.0 == version) && peers.len()
            > MAX_LEGACY_BITMAP_PEERS {
            (self, Err(EdgeError::LegacyBitmapLimit))
        } else {
            let bitmap = match self.cached_conn_bitmap {
                Some(cached) if cached.0 == version => cached.1,
                _ => self.conn_bitmap(peers, my_peer_id),
            };
            (
                RouteGroupView { cached_conn_bitmap: Some((version, bitmap)), ..self },
                Ok(Some(ConnInfoView::ConnBitmap(bitmap))),
            )
        }
    }

    /// The peers that an update for `target` is about.
    pub open spec fn relevant_peers(self, target: u32, my_peer_id: u32) -> Seq<u32> {
        collections::ascending_list(self.peers.insert(my_peer_id).insert(target))
    }

    /// What a peer or the relay publishes of itself.
    pub open spec fn published(self, peer_id: u32, my_peer_id: u32) -> Option<RoutePeerInfoView> {
        if peer_id == my_peer_id {
            Some(self.my_info)
        } else if self.peer_infos.contains_key(peer_id) {
            Some(self.peer_infos[peer_id])
        } else {
            None
        }
    }

    /// Whether `target` is to be told what `peer_id` publishes.
    pub open spec fn is_due(self, peer_id: u32, target: u32, full: bool, my_peer_id: u32, clock_ms: u64) -> bool {
        peer_id != target && (self.published(peer_id, my_peer_id) matches Some(info) && (full || effective_version(
            info,
        ) > self.session(target).told_version(peer_id, clock_ms)))
    }

    /// The peers whose information `target` is to be told, in ascending order.
    pub open spec fn due_peers(self, target: u32, full: bool, my_peer_id: u32, clock_ms: u64) -> Seq<u32> {
        self.relevant_peers(target, my_peer_id).filter(
            |peer_id: u32| self.is_due(peer_id, target, full, my_peer_id, clock_ms),
        )
    }

    /// Whether a peer has said that it reads the topology as lists.
    pub open spec fn reads_lists(self, peer_id: u32) -> bool {
        self.peer_infos.contains_key(peer_id) && (self.peer_infos[peer_id].feature_flag matches Some(flag)
            && flag.support_conn_list_sync)
    }

    /// The group once an update for `target` has been asked for.
    pub open spec fn asked(self, target: u32, session_id: u64, clock_ms: u64) -> RouteGroupView {
        self.with_session(
            target,
            SessionView { my_session_id: Some(session_id), last_touch_ms: clock_ms, ..self.session(target) },
        )
    }

    /// An update for `target`, and the group once it has been built.
    pub open spec fn update(
        self,
        target: u32,
        session_id: u64,
        we_are_initiator: bool,
        force_full: bool,
        my_peer_id: u32,
        clock_ms: u64,
    ) -> (RouteGroupView, Result<RouteUpdateView, EdgeError>) {
        let asked = self.asked(target, session_id, clock_ms);
        let full = force_full || self.session(target).dst_session_id is None;
        let due = asked.due_peers(target, full, my_peer_id, clock_ms);
        let told = asked.conn_info(
            asked.relevant_peers(target, my_peer_id),
            target,
            asked.reads_lists(target),
            my_peer_id,
            clock_ms,
        );
        (
            told.0,
            match told.1 {
                Ok(conn_info) => Ok(
                    RouteUpdateView {
                        request: SyncRouteInfoRequestView {
                            my_peer_id,
                            my_session_id: session_id,
                            is_initiator: we_are_initiator,
                            peer_infos: if due.len() == 0 {
                                None
                            } else {
                                Some(due.map_values(|peer_id: u32| asked.published(peer_id, my_peer_id)->0))
                            },
                            conn_info,
                            foreign_network_infos: None,
                        },
                        peer_info_versions: due.map_values(
                            |peer_id: u32|
                                (peer_id, effective_version(asked.published(peer_id, my_peer_id)->0)),
                        ),
                        topology_version: if conn_info is Some {
                            Some(self.topology_version)
                        } else {
                            None
                        },
                    },
                ),
                Err(error) => Err(error),
            },
        )
    }
}

/// A cell of a matrix with `n` columns has one number.
pub proof fn lemma_cell(n: int, row: int, column: int, k: int)
    requires
        0 < n,
        0 <= row,
        0 <= column < n,
        0 <= k,
    ensures
        k == row * n + column <==> (k / n == row && k % n == column),
        row < n ==> row * n + column < n * n,
        0 <= row * n + column,
{
    vstd::arithmetic::div_mod::lemma_fundamental_div_mod(k, n);
    vstd::arithmetic::mul::lemma_mul_is_commutative(n, k / n);
    if k == row * n + column {
        vstd::arithmetic::div_mod::lemma_fundamental_div_mod_converse(k, n, row, column);
    }
    vstd::arithmetic::mul::lemma_mul_nonnegative(row, n);
    if row < n {
        vstd::arithmetic::mul::lemma_mul_inequality(row + 1, n, n);
        vstd::arithmetic::mul::lemma_mul_is_distributive_add_other_way(n, row, 1);
    }
}

impl RouteGroupData {
    fn version_of(&self, peer_id: u32) -> (r: PeerIdVersion)
        ensures
            r == self@.peer_id_version(peer_id),
    {
        let version: u32 = match self.peer_conn_versions.get(&peer_id) {
            Some(version) => *version,
            None => 1,
        };
        PeerIdVersion { peer_id, version }
    }

    fn build_conn_list(&self, peers: &[u32], my_peer_id: u32) -> (r: RouteConnPeerList)
        ensures
            r@ == self@.conn_list(peers@, my_peer_id),
    {
        let mut peer_conn_infos: Vec<PeerConnInfo> = Vec::new();
        let mut i: usize = 0;
        while i < peers.len()
            invariant
                i <= peers@.len(),
                peer_conn_infos@.len() == i,
                forall|j: int| 0 <= j < i ==> (#[trigger] peer_conn_infos@[j])@ == self@.conn_list(
                    peers@,
                    my_peer_id,
                )[j],
            decreases peers@.len() - i,
        {
            let peer_id: u32 = peers[i];
            let mut connected_peer_ids: Vec<u32> = Vec::new();
            if peer_id == my_peer_id {
                let mut j: usize = 0;
                assert(peers@.take(0) =~= Seq::empty());
                while j < peers.len()
                    invariant
                        j <= peers@.len(),
                        connected_peer_ids@ == peers@.take(j as int).filter(other_than(my_peer_id)),
                    decreases peers@.len() - j,
                {
                    assert(peers@.take(j + 1) =~= peers@.take(j as int).push(peers@[j as int]));
                    proof {
                        peers@.take(j as int).lemma_filter_push(peers@[j as int], other_than(my_peer_id));
                    }
                    if peers[j] != my_peer_id {
                        connected_peer_ids.push(peers[j]);
                    }
                    j += 1;
                }
                assert(peers@.take(j as int) =~= peers@);
            } else {
                connected_peer_ids.push(my_peer_id);
            }
            let info = PeerConnInfo { peer_id: Some(self.version_of(peer_id)), connected_peer_ids };
            assert(info@ =~= self@.conn_list(peers@, my_peer_id)[i as int]);
            peer_conn_infos.push(info);
            i += 1;
        }
        let r = RouteConnPeerList { peer_conn_infos };
        assert(r@ =~= self@.conn_list(peers@, my_peer_id));
        r
    }

    fn build_bitmap(&self, peers: &[u32], my_peer_id: u32) -> (r: RouteConnBitmap)
        requires
            0 < peers@.len() <= MAX_LEGACY_BITMAP_PEERS,
            collections::ascending(peers@),
        ensures
            r@ == self@.conn_bitmap(peers@, my_peer_id),
    {
        let n: usize = peers.len();
        assert(n * n <= 8_192 * 8_192) by (nonlinear_arith)
            requires
                0 <= n <= 8_192,
        ;
        let cells: usize = n * n;
        let size: usize = (cells + 7) / 8;
        let ghost width = n as int;
        let mut peer_ids: Vec<PeerIdVersion> = Vec::new();
        let mut server: Option<usize> = None;
        let mut i: usize = 0;
        while i < n
            invariant
                i <= n,
                n == peers@.len(),
                collections::ascending(peers@),
                peer_ids@.len() == i,
                forall|j: int| 0 <= j < i ==> #[trigger] peer_ids@[j] == self@.peer_id_version(peers@[j]),
                match server {
                    Some(at) => at < i && peers@[at as int] == my_peer_id,
                    None => forall|j: int| 0 <= j < i ==> #[trigger] peers@[j] != my_peer_id,
                },
            decreases n - i,
        {
            peer_ids.push(self.version_of(peers[i]));
            if peers[i] == my_peer_id {
                server = Some(i);
            }
            i += 1;
        }
        assert(peer_ids@ =~= peers@.map_values(|peer_id: u32| self@.peer_id_version(peer_id)));
        let mut bitmap = bits::zero_bits(size);
        let mut i: usize = 0;
        while i < n
            invariant
                i <= n,
                n == width,
                0 < n <= MAX_LEGACY_BITMAP_PEERS,
                cells == width * width,
                cells <= 8_192 * 8_192,
                size == (cells + 7) / 8,
                bitmap@.len() == size,
                forall|k: int| 0 <= k < 8 * size ==> #[trigger] bits::bit(bitmap@, k) == (k / width == k % width && k
                    / width < i),
            decreases n - i,
        {
            let ghost before = bitmap@;
            proof {
                lemma_cell(width, i as int, i as int, 0);
            }
            bits::set_bit(&mut bitmap, i * n + i);
            proof {
                assert forall|k: int| 0 <= k < 8 * size implies #[trigger] bits::bit(bitmap@, k) == (k / width == k % width
                    && k / width < i + 1) by {
                    lemma_cell(width, i as int, i as int, k);
                    assert(bits::bit(before, k) == (k / width == k % width && k / width < i));
                }
            }
            i += 1;
        }
        if let Some(at) = server {
            let ghost s = at as int;
            let mut i: usize = 0;
            while i < n
                invariant
                    i <= n,
                    n == width,
                    s == at,
                    at < n,
                    0 < n <= MAX_LEGACY_BITMAP_PEERS,
                    cells == width * width,
                    cells <= 8_192 * 8_192,
                    size == (cells + 7) / 8,
                    bitmap@.len() == size,
                    forall|k: int|
                        0 <= k < 8 * size ==> #[trigger] bits::bit(bitmap@, k) == ((k / width == k % width && k / width < n)
                            || (k / width == s && k % width < i) || (k % width == s && k / width < i)),
                decreases n - i,
            {
                let ghost before = bitmap@;
                proof {
                    lemma_cell(width, s, i as int, 0);
                    lemma_cell(width, i as int, s, 0);
                }
                if i != at {
                    bits::set_bit(&mut bitmap, at * n + i);
                    bits::set_bit(&mut bitmap, i * n + at);
                }
                proof {
                    assert forall|k: int| 0 <= k < 8 * size implies #[trigger] bits::bit(bitmap@, k) == ((k / width == k
                        % width && k / width < n) || (k / width == s && k % width < i + 1) || (k % width == s && k
                        / width < i + 1)) by {
                        lemma_cell(width, s, i as int, k);
                        lemma_cell(width, i as int, s, k);
                        assert(bits::bit(before, k) == ((k / width == k % width && k / width < n) || (k / width == s && k
                            % width < i) || (k % width == s && k / width < i)));
                    }
                }
                i += 1;
            }
            proof {
                assert forall|k: int| 0 <= k < 8 * size implies #[trigger] bits::bit(bitmap@, k) == is_linked(
                    peers@,
                    my_peer_id,
                    k,
                ) by {
                    lemma_cell(width, k / width, k % width, k);
                    lemma_row(width, k);
                    if k < width * width {
                        assert(peers@[k / width] == my_peer_id <==> k / width == s);
                        assert(peers@[k % width] == my_peer_id <==> k % width == s);
                    }
                    assert(peers@.contains(my_peer_id)) by {
                        assert(peers@[s] == my_peer_id);
                    }
                }
            }
        } else {
            let mut k: usize = 0;
            while k < cells
                invariant
                    k <= cells,
                    n == width,
                    0 < n,
                    cells == width * width,
                    cells <= 8_192 * 8_192,
                    size == (cells + 7) / 8,
                    bitmap@.len() == size,
                    forall|j: int| 0 <= j < 8 * size ==> #[trigger] bits::bit(bitmap@, j) == (j < k || (j / width == j
                        % width && j / width < n)),
                decreases cells - k,
            {
                bits::set_bit(&mut bitmap, k);
                k += 1;
            }
            proof {
                assert forall|j: int| 0 <= j < 8 * size implies #[trigger] bits::bit(bitmap@, j) == is_linked(
                    peers@,
                    my_peer_id,
                    j,
                ) by {
                    lemma_row(width, j);
                    assert(!peers@.contains(my_peer_id));
                }
            }
        }
        proof {
            bits::lemma_bit_string(bitmap@, |k: int| is_linked(peers@, my_peer_id, k));
        }
        RouteConnBitmap { peer_ids, bitmap }
    }
}

/// The rows of a square matrix are those of its cells.
proof fn lemma_row(n: int, k: int)
    requires
        0 < n,
        0 <= k,
    ensures
        k < n * n <==> k / n < n,
        0 <= k / n,
        0 <= k % n < n,
{
    vstd::arithmetic::div_mod::lemma_fundamental_div_mod(k, n);
    vstd::arithmetic::div_mod::lemma_mod_bound(k, n);
    vstd::arithmetic::div_mod::lemma_div_pos_is_pos(k, n);
    vstd::arithmetic::mul::lemma_mul_is_commutative(n, k / n);
    if k / n < n {
        lemma_cell(n, k / n, k % n, k);
    } else {
        vstd::arithmetic::mul::lemma_mul_inequality(n, k / n, n);
    }
}

impl RouteGroupData {
    /// The information that `target` is to be told, and its versions.
    fn due_infos(&self, peers: &[u32], target: u32, full: bool, my_peer_id: u32, clock_ms: u64) -> (r: (
        Vec<RoutePeerInfo>,
        Vec<(u32, u32)>,
    ))
        ensures
            ({
                let due = peers@.filter(
                    |peer_id: u32| self@.is_due(peer_id, target, full, my_peer_id, clock_ms),
                );
                &&& collections::list_view(r.0@) == due.map_values(
                    |peer_id: u32| self@.published(peer_id, my_peer_id)->0,
                )
                &&& r.1@ == due.map_values(
                    |peer_id: u32| (peer_id, effective_version(self@.published(peer_id, my_peer_id)->0)),
                )
            }),
    {
        let ghost p = |peer_id: u32| self@.is_due(peer_id, target, full, my_peer_id, clock_ms);
        let ghost info_of = |peer_id: u32| self@.published(peer_id, my_peer_id)->0;
        let ghost version_of = |peer_id: u32|
            (peer_id, effective_version(self@.published(peer_id, my_peer_id)->0));
        let mut infos: Vec<RoutePeerInfo> = Vec::new();
        let mut versions: Vec<(u32, u32)> = Vec::new();
        let mut i: usize = 0;
        proof {
            assert(peers@.take(0) =~= Seq::empty());
            assert(collections::list_view(infos@) =~= Seq::<u32>::empty().map_values(info_of));
            assert(versions@ =~= Seq::<u32>::empty().map_values(version_of));
        }
        while i < peers.len()
            invariant
                i <= peers@.len(),
                p == (|peer_id: u32| self@.is_due(peer_id, target, full, my_peer_id, clock_ms)),
                info_of == (|peer_id: u32| self@.published(peer_id, my_peer_id)->0),
                version_of == (|peer_id: u32|
                    (peer_id, effective_version(self@.published(peer_id, my_peer_id)->0))),
                collections::list_view(infos@) == peers@.take(i as int).filter(p).map_values(info_of),
                versions@ == peers@.take(i as int).filter(p).map_values(version_of),
            decreases peers@.len() - i,
        {
            let peer_id: u32 = peers[i];
            let ghost done = peers@.take(i as int).filter(p);
            proof {
                assert(peers@.take(i + 1) =~= peers@.take(i as int).push(peer_id));
                peers@.take(i as int).lemma_filter_push(peer_id, p);
                assert(done.push(peer_id).map_values(info_of) =~= done.map_values(info_of).push(info_of(peer_id)));
                assert(done.push(peer_id).map_values(version_of) =~= done.map_values(version_of).push(
                    version_of(peer_id),
                ));
            }
            i += 1;
            if peer_id == target {
                continue;
            }
            let info = if peer_id == my_peer_id {
                &self.my_info
            } else {
                match self.peer_infos.get(&peer_id) {
                    Some(info) => info,
                    None => {
                        continue;
                    },
                }
            };
            assert(self@.published(peer_id, my_peer_id) == Some(info@));
            let version: u32 = if info.version == 0 {
                1
            } else {
                info.version
            };
            let told: u32 = match self.sessions.get(&target) {
                Some(session) => match session.peer_info_ver_map.get(&peer_id) {
                    Some(saved) => if clock_ms.saturating_sub(saved.touched_at_ms) < SAVED_ROUTE_VERSION_TTL_MS {
                        saved.version
                    } else {
                        0
                    },
                    None => 0,
                },
                None => 0,
            };
            assert(told == self@.session(target).told_version(peer_id, clock_ms));
            if full || version > told {
                let ghost earlier = infos@;
                infos.push(info.duplicate());
                versions.push((peer_id, version));
                proof {
                    assert(collections::list_view(infos@) =~= collections::list_view(earlier).push(info@));
                }
            }
        }
        assert(peers@.take(i as int) =~= peers@);
        (infos, versions)
    }
}

impl RouteState {
    /// An update of what `target_peer_id` knows of the network.
    pub fn build_sync_route_info_request(
        &mut self,
        group_key: &str,
        target_peer_id: u32,
        server_session_id: u64,
        we_are_initiator: bool,
        force_full: bool,
        seed: &GroupSeed,
        clock_ms: u64,
    ) -> (r: Result<RouteUpdate, EdgeError>)
        ensures
            (final(self)@, update_view(r)) == old(self)@.updated(
                group_key@,
                target_peer_id,
                server_session_id,
                we_are_initiator,
                force_full,
                seed.words@,
                clock_ms,
            ),
            is_finite(final(self)@),
    {
        proof {
            lemma_states_are_finite();
        }
        let my_peer_id: u32 = self.my_peer_id;
        let g = self.ensure_group(group_key, seed);
        let ghost before = g@;
        let session = g.sessions.entry(target_peer_id, SessionState::new());
        session.my_session_id = Some(server_session_id);
        session.last_touch_ms = clock_ms;
        let full = force_full || session.dst_session_id.is_none();
        let ghost asked = before.asked(target_peer_id, server_session_id, clock_ms);
        assert(g@ =~= asked);

        let mut all_peers = g.peers.duplicate();
        all_peers.insert(my_peer_id);
        all_peers.insert(target_peer_id);
        let relevant_peers = all_peers.to_list();
        let (peer_infos_items, peer_info_versions) = g.due_infos(
            &relevant_peers,
            target_peer_id,
            full,
            my_peer_id,
            clock_ms,
        );
        let supports_conn_list = match g.peer_infos.get(&target_peer_id) {
            Some(info) => match &info.feature_flag {
                Some(flag) => flag.support_conn_list_sync,
                None => false,
            },
            None => false,
        };
        let conn_info = match Self::build_conn_info(
            g,
            &relevant_peers,
            target_peer_id,
            supports_conn_list,
            my_peer_id,
            clock_ms,
        ) {
            Ok(conn_info) => conn_info,
            Err(error) => {
                return Err(error);
            },
        };
        let topology_version: Option<u64> = match &conn_info {
            Some(_) => Some(g.topology_version),
            None => None,
        };
        assert(collections::list_view(peer_infos_items@).len() == peer_infos_items@.len());
        Ok(
            RouteUpdate {
                request: SyncRouteInfoRequest {
                    my_peer_id,
                    my_session_id: server_session_id,
                    is_initiator: we_are_initiator,
                    peer_infos: if peer_infos_items.len() == 0 {
                        None
                    } else {
                        Some(peer_infos_items)
                    },
                    conn_info,
                    // Every group is a network of its own: what other networks
                    // publish never enters it.
                    foreign_network_infos: None,
                },
                peer_info_versions,
                topology_version,
            },
        )
    }

    fn build_conn_info(
        g: &mut RouteGroupData,
        relevant_peers: &[u32],
        target_peer_id: u32,
        supports_conn_list: bool,
        my_peer_id: u32,
        clock_ms: u64,
    ) -> (r: Result<Option<ConnInfo>, EdgeError>)
        requires
            collections::ascending(relevant_peers@),
        ensures
            ({
                let told = old(g)@.conn_info(
                    relevant_peers@,
                    target_peer_id,
                    supports_conn_list,
                    my_peer_id,
                    clock_ms,
                );
                &&& final(g)@ == told.0
                &&& match (told.1, r) {
                    (Ok(expected), Ok(conn_info)) => collections::option_view(conn_info) == expected,
                    (Err(expected), Err(error)) => error == expected,
                    _ => false,
                }
            }),
    {
        if relevant_peers.len() == 0 {
            return Ok(None);
        }
        let topology_version: u64 = g.topology_version;
        if let Some(session) = g.sessions.get(&target_peer_id) {
            if session.last_topology_version == topology_version && clock_ms.saturating_sub(
                session.last_topology_touch_ms,
            ) < SAVED_ROUTE_VERSION_TTL_MS {
                return Ok(None);
            }
        }
        if supports_conn_list {
            if let Some((cached_version, cached)) = &g.cached_conn_peer_list {
                if *cached_version == topology_version {
                    return Ok(Some(ConnInfo::ConnPeerList(cached.duplicate())));
                }
            }
            let result = g.build_conn_list(relevant_peers, my_peer_id);
            let copy = result.duplicate();
            g.cached_conn_peer_list = Some((topology_version, result));
            return Ok(Some(ConnInfo::ConnPeerList(copy)));
        }
        if let Some((cached_version, cached)) = &g.cached_conn_bitmap {
            if *cached_version == topology_version {
                return Ok(Some(ConnInfo::ConnBitmap(cached.duplicate())));
            }
        }
        if relevant_peers.len() > MAX_LEGACY_BITMAP_PEERS {
            return Err(EdgeError::LegacyBitmapLimit);
        }
        let result = g.build_bitmap(relevant_peers, my_peer_id);
        let copy = result.duplicate();
        g.cached_conn_bitmap = Some((topology_version, result));
        Ok(Some(ConnInfo::ConnBitmap(copy)))
    }
}

/// What became of a synchronization request.
#[derive(Debug, Clone, Copy, PartialEq, Eq, Structural)]
pub struct RouteSyncOutcome {
    pub response: SyncRouteInfoResponse,
    pub route_changed: bool,
    pub session_changed: bool,
}

/// A group that has taken in some of the information that a peer sent.
#[verifier::ext_equal]
pub struct Absorbed {
    pub group: RouteGroupView,
    pub changed: bool,
    pub is_new: bool,
    pub error: Option<EdgeError>,
}

impl RouteGroupView {
    /// Whether `info` replaces what is known of its peer: nothing is known, or
    /// the peer has started anew, or the version is higher.
    pub open spec fn is_superseded_by(self, info: RoutePeerInfoView) -> bool {
        ||| !self.peer_infos.contains_key(info.peer_id)
        ||| self.peer_infos[info.peer_id].inst_id != info.inst_id
        ||| info.version > self.peer_infos[info.peer_id].version
    }

    /// The group with what a peer published; of a peer that has started anew,
    /// what was told before is forgotten.
    pub open spec fn with_info(self, info: RoutePeerInfoView, clock_ms: u64) -> RouteGroupView {
        RouteGroupView {
            peer_infos: self.peer_infos.insert(
                info.peer_id,
                RoutePeerInfoView {
                    last_update: Some(Timestamp { seconds: (clock_ms / 1000) as i64, nanos: 0 }),
                    ..info
                },
            ),
            sessions: if self.peer_infos.contains_key(info.peer_id) && self.peer_infos[info.peer_id].inst_id
                != info.inst_id {
                collections::mapped(
                    self.sessions,
                    |session: SessionView| session.without_version(info.peer_id),
                )
            } else {
                self.sessions
            },
            ..self
        }
    }
}

impl Absorbed {
    /// Takes in one more information from `from`. A peer publishes itself alone,
    /// and under the key that it authenticated with.
    pub open spec fn with_info(self, from: u32, info: RoutePeerInfoView, clock_ms: u64) -> Absorbed {
        let keys = self.group.authenticated_peer_keys;
        if self.error is Some || info.peer_id != from {
            self
        } else if !keys.contains_key(from) {
            Absorbed { error: Some(EdgeError::RoutePeerUnauthenticated), ..self }
        } else if info.noise_static_pubkey != keys[from] {
            Absorbed { error: Some(EdgeError::RouteKeyMismatch), ..self }
        } else if !self.group.is_superseded_by(info) {
            self
        } else {
            Absorbed {
                group: self.group.with_info(info, clock_ms),
                changed: true,
                is_new: self.is_new || !self.group.peer_infos.contains_key(from),
                error: None,
            }
        }
    }
}

/// The group once it has taken in `infos` from `from`, one after the other, up to
/// the first that is refused.
pub open spec fn absorbed(group: RouteGroupView, from: u32, infos: Seq<RoutePeerInfoView>, clock_ms: u64) -> Absorbed
    decreases infos.len(),
{
    if infos.len() == 0 {
        Absorbed { group, changed: false, is_new: false, error: None }
    } else {
        absorbed(group, from, infos.drop_last(), clock_ms).with_info(from, infos.last(), clock_ms)
    }
}

impl RouteGroupView {
    /// The group once it has handled a request of `from`, and the outcome.
    pub open spec fn handled(
        self,
        from: u32,
        request: SyncRouteInfoRequestView,
        my_peer_id: u32,
        clock_ms: u64,
    ) -> (RouteGroupView, Result<RouteSyncOutcome, EdgeError>) {
        let session = self.session(from);
        let joined = self.with_session(
            from,
            session.joined(request.my_session_id, !request.is_initiator, clock_ms),
        );
        let infos = match request.peer_infos {
            Some(infos) => infos,
            None => Seq::empty(),
        };
        let taken = absorbed(joined, from, infos, clock_ms);
        let group = if taken.is_new {
            taken.group.bumped(my_peer_id)
        } else {
            taken.group
        };
        match taken.error {
            Some(error) => (taken.group, Err(error)),
            None => (
                group,
                Ok(
                    RouteSyncOutcome {
                        response: SyncRouteInfoResponse {
                            is_initiator: !request.is_initiator,
                            session_id: match session.my_session_id {
                                Some(session_id) => session_id,
                                None => 1,
                            },
                            error: None,
                        },
                        route_changed: taken.changed,
                        session_changed: session.dst_session_id != Some(request.my_session_id),
                    },
                ),
            ),
        }
    }
}

/// Taking in information changes neither a session's own id nor the keys.
pub proof fn lemma_absorbed(group: RouteGroupView, from: u32, infos: Seq<RoutePeerInfoView>, clock_ms: u64)
    ensures
        ({
            let after = absorbed(group, from, infos, clock_ms).group;
            &&& after.sessions.dom() == group.sessions.dom()
            &&& forall|peer_id: u32| #[trigger]
                after.sessions.contains_key(peer_id) ==> after.sessions[peer_id].my_session_id
                    == group.sessions[peer_id].my_session_id
            &&& after.authenticated_peer_keys == group.authenticated_peer_keys
            &&& after.peers == group.peers
            &&& after.my_info == group.my_info
            &&& forall|peer_id: u32|
                peer_id != from ==> (#[trigger] after.peer_infos.contains_key(peer_id)
                    <==> group.peer_infos.contains_key(peer_id)) && after.peer_infos[peer_id]
                    == group.peer_infos[peer_id]
        }),
    decreases infos.len(),
{
    if infos.len() > 0 {
        lemma_absorbed(group, from, infos.drop_last(), clock_ms);
        let before = absorbed(group, from, infos.drop_last(), clock_ms);
        let after = before.with_info(from, infos.last(), clock_ms);
        assert(after.group.sessions.dom() =~= before.group.sessions.dom());
    }
}

impl RouteGroupData {
    fn absorb(&mut self, from: u32, info: &RoutePeerInfo, clock_ms: u64) -> (r: Result<(bool, bool), EdgeError>)
        ensures
            ({
                let before = Absorbed { group: old(self)@, changed: false, is_new: false, error: None };
                let after = before.with_info(from, info@, clock_ms);
                &&& final(self)@ == after.group
                &&& match r {
                    Ok(news) => after.error is None && news.0 == after.changed && news.1 == after.is_new,
                    Err(error) => after.error == Some(error),
                }
            }),
    {
        if info.peer_id != from {
            return Ok((false, false));
        }
        match self.authenticated_peer_keys.get(&from) {
            Some(key) => {
                if !bytes::same_bytes(&info.noise_static_pubkey, key) {
                    return Err(EdgeError::RouteKeyMismatch);
                }
            },
            None => {
                return Err(EdgeError::RoutePeerUnauthenticated);
            },
        }
        let (is_new, instance_changed, should_update) = match self.peer_infos.get(&from) {
            Some(current) => {
                let instance_changed = current.inst_id != info.inst_id;
                (false, instance_changed, instance_changed || info.version > current.version)
            },
            None => (true, false, true),
        };
        if !should_update {
            return Ok((false, false));
        }
        let ghost sessions = self@.sessions;
        if instance_changed {
            self.forget(from, false);
            assert(self@.sessions =~= collections::mapped(
                sessions,
                |session: SessionView| session.without_version(info.peer_id),
            ));
        }
        let mut info = info.duplicate();
        info.last_update = Some(Timestamp { seconds: (clock_ms / 1000) as i64, nanos: 0 });
        self.peer_infos.insert(from, info);
        Ok((true, is_new))
    }

    fn absorb_all(&mut self, from: u32, infos: &Vec<RoutePeerInfo>, clock_ms: u64) -> (r: Result<
        (bool, bool),
        EdgeError,
    >)
        ensures
            ({
                let after = absorbed(old(self)@, from, collections::list_view(infos@), clock_ms);
                &&& final(self)@ == after.group
                &&& match r {
                    Ok(news) => after.error is None && news.0 == after.changed && news.1 == after.is_new,
                    Err(error) => after.error == Some(error),
                }
            }),
    {
        let ghost before = self@;
        let ghost all = collections::list_view(infos@);
        let mut changed = false;
        let mut is_new = false;
        let mut i: usize = 0;
        assert(all.take(0) =~= Seq::empty());
        while i < infos.len()
            invariant
                i <= infos@.len(),
                before == old(self)@,
                all == collections::list_view(infos@),
                absorbed(before, from, all.take(i as int), clock_ms) == (Absorbed {
                    group: self@,
                    changed,
                    is_new,
                    error: None,
                }),
            decreases infos@.len() - i,
        {
            assert(all.take(i + 1).drop_last() =~= all.take(i as int));
            match self.absorb(from, &infos[i], clock_ms) {
                Ok(news) => {
                    changed = changed || news.0;
                    is_new = is_new || news.1;
                },
                Err(error) => {
                    proof {
                        lemma_absorbed_stops(before, from, all, i + 1, clock_ms);
                    }
                    return Err(error);
                },
            }
            i += 1;
        }
        assert(all.take(i as int) =~= all);
        Ok((changed, is_new))
    }
}

impl RouteState {
    /// Takes in what a peer publishes.
    pub fn handle_sync_route_info_request(
        &mut self,
        group_key: &str,
        from_peer_id: u32,
        request: &SyncRouteInfoRequest,
        seed: &GroupSeed,
        clock_ms: u64,
    ) -> (r: Result<RouteSyncOutcome, EdgeError>)
        ensures
            (final(self)@, r) == old(self)@.synced(group_key@, from_peer_id, request@, seed.words@, clock_ms),
            is_finite(final(self)@),
    {
        proof {
            lemma_states_are_finite();
        }
        if request.my_peer_id != from_peer_id {
            return Err(EdgeError::RoutePeerMismatch);
        }
        let my_peer_id: u32 = self.my_peer_id;
        let g = self.ensure_group(group_key, seed);
        let session = g.sessions.entry(from_peer_id, SessionState::new());
        let session_changed = session.join(request.my_session_id, !request.is_initiator, clock_ms);
        let ghost joined = g@;
        let (route_changed, need_bump) = match &request.peer_infos {
            Some(infos) => match g.absorb_all(from_peer_id, infos, clock_ms) {
                Ok(news) => news,
                Err(error) => {
                    return Err(error);
                },
            },
            None => (false, false),
        };
        let ghost infos = match request@.peer_infos {
            Some(infos) => infos,
            None => Seq::empty(),
        };
        proof {
            lemma_absorbed(joined, from_peer_id, infos, clock_ms);
        }
        if need_bump {
            Self::bump_all_conn_versions(g, my_peer_id);
        }
        let server_session_id: u64 = match g.sessions.get(&from_peer_id) {
            Some(session) => match session.my_session_id {
                Some(session_id) => session_id,
                None => 1,
            },
            None => 1,
        };
        Ok(
            RouteSyncOutcome {
                response: SyncRouteInfoResponse {
                    is_initiator: !request.is_initiator,
                    session_id: server_session_id,
                    error: None,
                },
                route_changed,
                session_changed,
            },
        )
    }
}

/// What follows a refused information is not looked at.
proof fn lemma_absorbed_stops(group: RouteGroupView, from: u32, infos: Seq<RoutePeerInfoView>, count: int, clock_ms: u64)
    requires
        0 <= count <= infos.len(),
        absorbed(group, from, infos.take(count), clock_ms).error is Some,
    ensures
        absorbed(group, from, infos, clock_ms) == absorbed(group, from, infos.take(count), clock_ms),
    decreases infos.len() - count,
{
    if count < infos.len() {
        assert(infos.take(count + 1).drop_last() =~= infos.take(count));
        lemma_absorbed_stops(group, from, infos, count + 1, clock_ms);
    } else {
        assert(infos.take(count) =~= infos);
    }
}

} // verus!
