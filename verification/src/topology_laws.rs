//! What holds of the topology of a network: who is in it, what each peer is told of it,
//! and when.
use vstd::prelude::*;

use crate::bits;
use crate::collections;
use crate::error::EdgeError;
use crate::proto::{ConnInfoView, PeerConnInfoView, PeerIdVersion, SyncRouteInfoRequestView};
use crate::publication_laws;
use crate::route_laws;
use crate::route_state;
use crate::route_state::{RouteGroupView, RouteStateView, RouteUpdateView};

verus! {

/// The members of a network and the relay, in ascending order.
pub open spec fn members(group: RouteGroupView, my_peer_id: u32) -> Seq<u32> {
    collections::ascending_list(group.peers.insert(my_peer_id))
}

/// What is remembered of the topology is the topology: of the present members, with the
/// present versions of their connections. A topology has a version other than zero.
pub open spec fn memory_is_current(group: RouteGroupView, my_peer_id: u32) -> bool {
    &&& group.topology_version != 0
    &&& group.cached_conn_peer_list matches Some(cached) ==> (cached.0 == group.topology_version ==> cached.1
        == group.conn_list(members(group, my_peer_id), my_peer_id))
    &&& group.cached_conn_bitmap matches Some(cached) ==> (cached.0 == group.topology_version ==> cached.1
        == group.conn_bitmap(members(group, my_peer_id), my_peer_id))
}

/// The same for every network.
pub open spec fn memories_are_current(state: RouteStateView) -> bool {
    forall|key: Seq<char>| #[trigger]
        state.groups.contains_key(key) ==> memory_is_current(state.groups[key], state.my_peer_id)
}

/// The topology depends on the members and on the versions of their connections alone.
proof fn lemma_same_topology(a: RouteGroupView, b: RouteGroupView, peers: Seq<u32>, my_peer_id: u32)
    requires
        a.peer_conn_versions == b.peer_conn_versions,
    ensures
        a.conn_list(peers, my_peer_id) == b.conn_list(peers, my_peer_id),
        a.conn_bitmap(peers, my_peer_id) == b.conn_bitmap(peers, my_peer_id),
{
    assert(a.conn_list(peers, my_peer_id) =~= b.conn_list(peers, my_peer_id));
    assert(a.conn_bitmap(peers, my_peer_id).peer_ids =~= b.conn_bitmap(peers, my_peer_id).peer_ids);
}

/// An update for a member is about the members.
proof fn lemma_relevant_are_members(group: RouteGroupView, target: u32, my_peer_id: u32)
    requires
        group.peers.contains(target) || target == my_peer_id,
    ensures
        group.relevant_peers(target, my_peer_id) == members(group, my_peer_id),
{
    assert(group.peers.insert(my_peer_id).insert(target) =~= group.peers.insert(my_peer_id));
}

proof fn lemma_update_keeps_memory_current(
    group: RouteGroupView,
    target: u32,
    session_id: u64,
    we_are_initiator: bool,
    force_full: bool,
    my_peer_id: u32,
    clock_ms: u64,
)
    requires
        memory_is_current(group, my_peer_id),
        group.peers.contains(target) || target == my_peer_id,
    ensures
        memory_is_current(
            group.update(target, session_id, we_are_initiator, force_full, my_peer_id, clock_ms).0,
            my_peer_id,
        ),
{
    let after = group.update(target, session_id, we_are_initiator, force_full, my_peer_id, clock_ms).0;
    let asked = group.asked(target, session_id, clock_ms);
    lemma_relevant_are_members(asked, target, my_peer_id);
    lemma_same_topology(group, asked, members(group, my_peer_id), my_peer_id);
    lemma_same_topology(group, after, members(group, my_peer_id), my_peer_id);
}

/// What is remembered of the topology stays current, whatever is done: when peers join and
/// leave, publish, answer and are sent updates, and when the relay changes what it
/// publishes. Left out are updates for a peer that is no member, and the departure of the
/// relay itself.
pub proof fn law_remembered_topology_is_current(
    state: RouteStateView,
    key: Seq<char>,
    peer_id: u32,
    public_key: Seq<u8>,
    field: Seq<char>,
    value: Seq<char>,
    session_id: u64,
    we_are_initiator: bool,
    force_full: bool,
    versions: Seq<(u32, u32)>,
    topology_version: Option<u64>,
    request: SyncRouteInfoRequestView,
    words: Seq<u32>,
    clock_ms: u64,
)
    requires
        memories_are_current(state),
        route_state::is_finite(state),
    ensures
        memories_are_current(RouteStateView { groups: Map::empty(), my_peer_id: state.my_peer_id }),
        memories_are_current(state.added(key, peer_id, public_key, words).0),
        peer_id != state.my_peer_id ==> memories_are_current(state.left(key, peer_id, words)),
        memories_are_current(state.with_field(key, field, value, words).0),
        memories_are_current(state.with_noise_key(key, public_key, words).0),
        memories_are_current(state.acked(key, peer_id, session_id, we_are_initiator, words, clock_ms)),
        memories_are_current(state.committed(key, peer_id, versions, topology_version, words, clock_ms)),
        state.group(key, words).peers.contains(peer_id) || peer_id == state.my_peer_id ==> memories_are_current(
            state.updated(key, peer_id, session_id, we_are_initiator, force_full, words, clock_ms).0,
        ),
        memories_are_current(state.synced(key, peer_id, request, words, clock_ms).0),
{
    let my_peer_id = state.my_peer_id;
    let group = state.group(key, words);
    assert(memory_is_current(group, my_peer_id));
    let list = members(group, my_peer_id);
    // Joining.
    let joined = group.with_peer(peer_id, public_key, my_peer_id);
    if group.peers.contains(peer_id) {
        assert(group.peers.insert(peer_id) =~= group.peers);
        lemma_same_topology(group, joined, list, my_peer_id);
    }
    assert(memory_is_current(joined, my_peer_id));
    // Leaving.
    let left = group.without_peer(peer_id, my_peer_id);
    if peer_id != my_peer_id {
        if !group.peers.contains(peer_id) && !group.peer_infos.contains_key(peer_id) {
            assert(group.peers.remove(peer_id) =~= group.peers);
            lemma_stranger_is_not_in_topology(group, left, peer_id, my_peer_id);
        }
        assert(memory_is_current(left, my_peer_id));
    }
    // What the relay publishes.
    let published = state.with_field(key, field, value, words).0.groups[key];
    lemma_same_topology(group, published, list, my_peer_id);
    let keyed = state.with_noise_key(key, public_key, words).0.groups[key];
    if public_key.len() == 32 {
        lemma_same_topology(group, keyed, list, my_peer_id);
    }
    // Answers.
    let acked = state.acked(key, peer_id, session_id, we_are_initiator, words, clock_ms).groups[key];
    lemma_same_topology(group, acked, list, my_peer_id);
    let committed = state.committed(key, peer_id, versions, topology_version, words, clock_ms).groups[key];
    lemma_same_topology(group, committed, list, my_peer_id);
    // Updates.
    if group.peers.contains(peer_id) || peer_id == my_peer_id {
        lemma_update_keeps_memory_current(
            group,
            peer_id,
            session_id,
            we_are_initiator,
            force_full,
            my_peer_id,
            clock_ms,
        );
    }
    // Requests.
    let handled = group.handled(peer_id, request, my_peer_id, clock_ms).0;
    lemma_request_keeps_topology(group, peer_id, request, my_peer_id, clock_ms);
    if handled.topology_version == group.topology_version {
        lemma_same_topology(group, handled, list, my_peer_id);
    }
    assert(memory_is_current(handled, my_peer_id));
}

/// Without an entry of somebody else, the topology of the members is the same.
proof fn lemma_stranger_is_not_in_topology(group: RouteGroupView, left: RouteGroupView, peer_id: u32, my_peer_id: u32)
    requires
        peer_id != my_peer_id,
        !group.peers.contains(peer_id),
        group.peers.finite(),
        left.peers == group.peers,
        left.peer_conn_versions == group.peer_conn_versions.remove(peer_id),
    ensures
        left.conn_list(members(group, my_peer_id), my_peer_id) == group.conn_list(
            members(group, my_peer_id),
            my_peer_id,
        ),
        left.conn_bitmap(members(group, my_peer_id), my_peer_id) == group.conn_bitmap(
            members(group, my_peer_id),
            my_peer_id,
        ),
{
    let list = members(group, my_peer_id);
    collections::lemma_ascending_list_exists(group.peers.insert(my_peer_id));
    assert forall|i: int| 0 <= i < list.len() implies #[trigger] left.conn_version(list[i]) == group.conn_version(
        list[i],
    ) by {
        assert(list.to_set().contains(list[i]));
    }
    assert(left.conn_list(list, my_peer_id) =~= group.conn_list(list, my_peer_id)) by {
        assert forall|i: int| 0 <= i < list.len() implies left.conn_list(list, my_peer_id)[i] == group.conn_list(
            list,
            my_peer_id,
        )[i] by {
            assert(left.conn_version(list[i]) == group.conn_version(list[i]));
        }
    }
    assert(left.conn_bitmap(list, my_peer_id).peer_ids =~= group.conn_bitmap(list, my_peer_id).peer_ids) by {
        assert forall|i: int| 0 <= i < list.len() implies left.conn_bitmap(list, my_peer_id).peer_ids[i]
            == group.conn_bitmap(list, my_peer_id).peer_ids[i] by {
            assert(left.conn_version(list[i]) == group.conn_version(list[i]));
        }
    }
}

proof fn lemma_request_keeps_topology(
    group: RouteGroupView,
    from: u32,
    request: SyncRouteInfoRequestView,
    my_peer_id: u32,
    clock_ms: u64,
)
    ensures
        ({
            let after = group.handled(from, request, my_peer_id, clock_ms).0;
            &&& after.peers == group.peers
            &&& after.topology_version == group.topology_version ==> after.peer_conn_versions
                == group.peer_conn_versions && after.cached_conn_peer_list == group.cached_conn_peer_list
                && after.cached_conn_bitmap == group.cached_conn_bitmap
            &&& after.topology_version != group.topology_version ==> after.cached_conn_peer_list is None
                && after.cached_conn_bitmap is None && after.topology_version != 0
        }),
{
    publication_laws::lemma_absorbing_keeps(
        publication_laws::opened(group, from, request, clock_ms),
        from,
        publication_laws::infos_of(request),
        clock_ms,
    );
}

/// The peers that a topology names, in the order in which it names them, each with the
/// version of its connections.
pub open spec fn named_in(info: ConnInfoView) -> Seq<PeerIdVersion> {
    match info {
        ConnInfoView::ConnPeerList(list) => list.map_values(|entry: PeerConnInfoView| entry.peer_id->0),
        ConnInfoView::ConnBitmap(bitmap) => bitmap.peer_ids,
    }
}

/// Whether a topology links the peer that it names at `row` with the one at `column`.
pub open spec fn links(info: ConnInfoView, row: int, column: int) -> bool {
    match info {
        ConnInfoView::ConnPeerList(list) => list[row].connected_peer_ids.contains(
            named_in(info)[column].peer_id,
        ),
        ConnInfoView::ConnBitmap(bitmap) => bits::bit(bitmap.bitmap, row * bitmap.peer_ids.len() + column),
    }
}

/// A topology names each of some peers once, in ascending order, and links the relay with
/// every other peer, and every other peer with the relay alone.
pub open spec fn is_star_of(info: ConnInfoView, peers: Set<u32>, my_peer_id: u32) -> bool {
    let named = named_in(info);
    &&& forall|i: int, j: int| 0 <= i < j < named.len() ==> (#[trigger] named[i]).peer_id < (#[trigger] named[j]).peer_id
    &&& forall|peer_id: u32| #[trigger]
        peers.contains(peer_id) <==> exists|i: int| 0 <= i < named.len() && (#[trigger] named[i]).peer_id == peer_id
    &&& forall|i: int, j: int|
        0 <= i < named.len() && 0 <= j < named.len() && i != j ==> (#[trigger] links(info, i, j) <==> named[i].peer_id
            == my_peer_id || named[j].peer_id == my_peer_id)
}

proof fn lemma_list_is_a_star(group: RouteGroupView, peers: Set<u32>, my_peer_id: u32)
    requires
        peers.finite(),
        peers.contains(my_peer_id),
    ensures
        ({
            let list = collections::ascending_list(peers);
            let info = ConnInfoView::ConnPeerList(group.conn_list(list, my_peer_id));
            &&& is_star_of(info, peers, my_peer_id)
            &&& forall|i: int|
                0 <= i < list.len() ==> (#[trigger] named_in(info)[i]).version == group.conn_version(
                    named_in(info)[i].peer_id,
                )
            &&& forall|i: int| 0 <= i < list.len() ==> (#[trigger] group.conn_list(list, my_peer_id)[i]).peer_id is Some
        }),
{
    let list = collections::ascending_list(peers);
    let info = ConnInfoView::ConnPeerList(group.conn_list(list, my_peer_id));
    let named = named_in(info);
    collections::lemma_ascending_list_exists(peers);
    assert forall|i: int| 0 <= i < list.len() implies (#[trigger] named[i]).peer_id == list[i] by {}
    assert forall|peer_id: u32| #[trigger] peers.contains(peer_id) <==> exists|i: int|
        0 <= i < named.len() && (#[trigger] named[i]).peer_id == peer_id by {
        assert(peers.contains(peer_id) <==> list.to_set().contains(peer_id));
        if list.contains(peer_id) {
            let i = choose|i: int| 0 <= i < list.len() && list[i] == peer_id;
            assert(named[i].peer_id == peer_id);
        }
        if exists|i: int| 0 <= i < named.len() && (#[trigger] named[i]).peer_id == peer_id {
            let i = choose|i: int| 0 <= i < named.len() && (#[trigger] named[i]).peer_id == peer_id;
            assert(list[i] == peer_id);
        }
    }
    assert(list.contains(my_peer_id)) by {
        assert(list.to_set().contains(my_peer_id));
    }
    assert forall|i: int, j: int| 0 <= i < named.len() && 0 <= j < named.len() && i != j implies (#[trigger] links(
        info,
        i,
        j,
    ) <==> named[i].peer_id == my_peer_id || named[j].peer_id == my_peer_id) by {
        route_laws::law_list_and_bitmap_agree(group, list, my_peer_id, i, j);
        route_laws::law_bitmap_shows_links(group, list, my_peer_id, i, j);
        assert(named[j].peer_id == list[j]);
    }
}

proof fn lemma_bitmap_is_a_star(group: RouteGroupView, peers: Set<u32>, my_peer_id: u32)
    requires
        peers.finite(),
        peers.contains(my_peer_id),
    ensures
        ({
            let list = collections::ascending_list(peers);
            let info = ConnInfoView::ConnBitmap(group.conn_bitmap(list, my_peer_id));
            &&& is_star_of(info, peers, my_peer_id)
            &&& forall|i: int|
                0 <= i < list.len() ==> (#[trigger] named_in(info)[i]).version == group.conn_version(
                    named_in(info)[i].peer_id,
                )
            &&& forall|i: int| 0 <= i < list.len() ==> #[trigger] links(info, i, i)
        }),
{
    let list = collections::ascending_list(peers);
    let info = ConnInfoView::ConnBitmap(group.conn_bitmap(list, my_peer_id));
    let named = named_in(info);
    collections::lemma_ascending_list_exists(peers);
    assert forall|i: int| 0 <= i < list.len() implies (#[trigger] named[i]).peer_id == list[i] by {}
    assert forall|peer_id: u32| #[trigger] peers.contains(peer_id) <==> exists|i: int|
        0 <= i < named.len() && (#[trigger] named[i]).peer_id == peer_id by {
        assert(peers.contains(peer_id) <==> list.to_set().contains(peer_id));
        if list.contains(peer_id) {
            let i = choose|i: int| 0 <= i < list.len() && list[i] == peer_id;
            assert(named[i].peer_id == peer_id);
        }
        if exists|i: int| 0 <= i < named.len() && (#[trigger] named[i]).peer_id == peer_id {
            let i = choose|i: int| 0 <= i < named.len() && (#[trigger] named[i]).peer_id == peer_id;
            assert(list[i] == peer_id);
        }
    }
    assert(list.contains(my_peer_id)) by {
        assert(list.to_set().contains(my_peer_id));
    }
    assert forall|i: int, j: int| 0 <= i < named.len() && 0 <= j < named.len() && i != j implies (#[trigger] links(
        info,
        i,
        j,
    ) <==> named[i].peer_id == my_peer_id || named[j].peer_id == my_peer_id) by {
        route_laws::law_bitmap_shows_links(group, list, my_peer_id, i, j);
    }
    assert forall|i: int| 0 <= i < list.len() implies #[trigger] links(info, i, i) by {
        route_laws::law_bitmap_shows_links(group, list, my_peer_id, i, i);
    }
}

/// A member is told the topology exactly if it has not been told this one lately, and then
/// as a list if it has published that it reads lists, else as a matrix, unless the network
/// is too large for one. What it is told is a star around the relay of exactly the present
/// members, each with the present version of its connections.
pub proof fn law_topology_is_a_star_of_the_members(
    group: RouteGroupView,
    target: u32,
    session_id: u64,
    we_are_initiator: bool,
    force_full: bool,
    my_peer_id: u32,
    clock_ms: u64,
)
    requires
        memory_is_current(group, my_peer_id),
        group.peers.finite(),
        group.peers.contains(target) || target == my_peer_id,
    ensures
        ({
            let update = group.update(target, session_id, we_are_initiator, force_full, my_peer_id, clock_ms).1;
            let session = group.session(target);
            let knows = session.last_topology_version == group.topology_version && clock_ms
                - session.last_topology_touch_ms < 60_000;
            let reads_lists = group.peer_infos.contains_key(target) && group.peer_infos[target].feature_flag is Some
                && group.peer_infos[target].feature_flag->0.support_conn_list_sync;
            let everyone = group.peers.insert(my_peer_id);
            let is_large = everyone.len() > 8_192;
            &&& update is Err ==> update == Err::<RouteUpdateView, EdgeError>(EdgeError::LegacyBitmapLimit) && !knows
                && !reads_lists && is_large
            &&& update matches Ok(told) ==> {
                &&& told.request.conn_info is None <==> knows
                &&& told.topology_version == if knows {
                    None
                } else {
                    Some(group.topology_version)
                }
                &&& told.request.conn_info matches Some(info) ==> {
                    &&& info is ConnPeerList <==> reads_lists
                    &&& is_star_of(info, everyone, my_peer_id)
                    &&& forall|i: int|
                        0 <= i < named_in(info).len() ==> (#[trigger] named_in(info)[i]).version
                            == group.conn_version(named_in(info)[i].peer_id)
                }
            }
        }),
{
    let asked = group.asked(target, session_id, clock_ms);
    let everyone = group.peers.insert(my_peer_id);
    let list = members(group, my_peer_id);
    lemma_relevant_are_members(asked, target, my_peer_id);
    lemma_same_topology(group, asked, list, my_peer_id);
    lemma_list_is_a_star(group, everyone, my_peer_id);
    lemma_bitmap_is_a_star(group, everyone, my_peer_id);
    collections::lemma_ascending_list_exists(everyone);
    assert(list.to_set().contains(my_peer_id));
    assert(list.no_duplicates());
    list.unique_seq_to_set();
}

/// A change of the members is a change of the topology: it has a new version, and so have
/// the connections of every peer that is there, and of the relay. Of others nothing
/// changes.
pub open spec fn is_raised(before: RouteGroupView, after: RouteGroupView, my_peer_id: u32) -> bool {
    &&& after.topology_version != before.topology_version
    &&& after.topology_version != 0
    &&& before.topology_version < u64::MAX ==> after.topology_version == before.topology_version + 1
    &&& forall|peer_id: u32|
        peer_id != my_peer_id && (after.peers.contains(peer_id) || after.peer_infos.contains_key(peer_id))
            && before.conn_version(peer_id) < u32::MAX ==> #[trigger] after.conn_version(peer_id)
            == before.conn_version(peer_id) + 1
    &&& before.conn_version(my_peer_id) < u32::MAX - 1 ==> after.conn_version(my_peer_id) > before.conn_version(
        my_peer_id,
    )
    &&& after.cached_conn_bitmap is None
    &&& after.cached_conn_peer_list is None
}

/// The topology is as it was.
pub open spec fn is_not_raised(before: RouteGroupView, after: RouteGroupView) -> bool {
    &&& after.topology_version == before.topology_version
    &&& after.cached_conn_bitmap == before.cached_conn_bitmap
    &&& after.cached_conn_peer_list == before.cached_conn_peer_list
}

/// A peer that joins is a member, under the key that it authenticated with, and the
/// topology changes; one that joins again changes nothing. A peer whose id is bound to
/// another key, or whose key has not the right length, does not join, and changes nothing.
/// All else stays as it was.
pub proof fn law_joining_changes_the_topology(
    state: RouteStateView,
    key: Seq<char>,
    peer_id: u32,
    public_key: Seq<u8>,
    words: Seq<u32>,
)
    ensures
        ({
            let before = state.group(key, words);
            let (next, outcome) = state.added(key, peer_id, public_key, words);
            let after = next.group(key, words);
            let is_taken = before.authenticated_peer_keys.contains_key(peer_id)
                && before.authenticated_peer_keys[peer_id] != public_key;
            &&& next.my_peer_id == state.my_peer_id
            &&& outcome is Ok <==> public_key.len() == 32 && !is_taken
            &&& outcome is Err ==> after == before
            &&& public_key.len() != 32 ==> outcome == Err::<(), EdgeError>(EdgeError::PeerKeyLength)
            &&& public_key.len() == 32 && is_taken ==> outcome == Err::<(), EdgeError>(EdgeError::PeerKeyConflict)
            &&& outcome is Ok ==> {
                &&& next.groups.contains_key(key)
                &&& after.authenticated_peer_keys.contains_key(peer_id)
                &&& after.authenticated_peer_keys[peer_id] == public_key
                &&& forall|other: u32| #[trigger]
                    after.peers.contains(other) <==> before.peers.contains(other) || other == peer_id
                &&& forall|other: u32|
                    other != peer_id ==> (#[trigger] after.authenticated_peer_keys.contains_key(other)
                        <==> before.authenticated_peer_keys.contains_key(other))
                        && after.authenticated_peer_keys[other] == before.authenticated_peer_keys[other]
                &&& after.sessions == before.sessions
                &&& after.peer_infos == before.peer_infos
                &&& after.my_info == before.my_info
                &&& after.my_info_version == before.my_info_version
                &&& !before.peers.contains(peer_id) ==> is_raised(before, after, state.my_peer_id)
                &&& before.peers.contains(peer_id) ==> is_not_raised(before, after) && after.peer_conn_versions
                    == before.peer_conn_versions
            }
        }),
{
}

/// A peer that leaves is no member any more, and the topology changes, if the peer was a
/// member or had published something; every other peer is to be told the topology anew.
/// All else that concerns the other peers stays as it was.
pub proof fn law_leaving_changes_the_topology(
    state: RouteStateView,
    key: Seq<char>,
    peer_id: u32,
    words: Seq<u32>,
    other: u32,
)
    requires
        other != peer_id,
        peer_id != state.my_peer_id,
    ensures
        ({
            let before = state.group(key, words);
            let next = state.left(key, peer_id, words);
            let after = next.groups[key];
            &&& next.my_peer_id == state.my_peer_id
            &&& next.groups.contains_key(key)
            &&& !after.peers.contains(peer_id)
            &&& !after.authenticated_peer_keys.contains_key(peer_id)
            &&& !after.peer_infos.contains_key(peer_id)
            &&& !after.sessions.contains_key(peer_id)
            &&& after.peers.contains(other) <==> before.peers.contains(other)
            &&& after.authenticated_peer_keys.contains_key(other) <==> before.authenticated_peer_keys.contains_key(
                other,
            )
            &&& after.authenticated_peer_keys[other] == before.authenticated_peer_keys[other]
            &&& after.peer_infos.contains_key(other) <==> before.peer_infos.contains_key(other)
            &&& after.peer_infos[other] == before.peer_infos[other]
            &&& after.sessions.contains_key(other) <==> before.sessions.contains_key(other)
            &&& after.my_info == before.my_info
            &&& after.my_info_version == before.my_info_version
            &&& before.peers.contains(peer_id) || before.peer_infos.contains_key(peer_id) ==> is_raised(
                before,
                after,
                state.my_peer_id,
            )
            &&& !(before.peers.contains(peer_id) || before.peer_infos.contains_key(peer_id)) ==> is_not_raised(
                before,
                after,
            ) && after.conn_version(other) == before.conn_version(other)
            &&& before.sessions.contains_key(other) ==> {
                let was = before.sessions[other];
                let now = after.sessions[other];
                &&& now.last_topology_version == 0
                &&& !now.peer_info_ver_map.contains_key(peer_id)
                &&& forall|third: u32|
                    third != peer_id ==> (#[trigger] now.peer_info_ver_map.contains_key(third)
                        <==> was.peer_info_ver_map.contains_key(third)) && now.peer_info_ver_map[third]
                        == was.peer_info_ver_map[third]
                &&& now.my_session_id == was.my_session_id
                &&& now.dst_session_id == was.dst_session_id
                &&& now.we_are_initiator == was.we_are_initiator
                &&& now.last_touch_ms == was.last_touch_ms
            }
        }),
{
}

/// After a member has left, the next update for any other member tells it the topology
/// anew, with a new version, and the topology does not name the one that has left.
pub proof fn law_removed_peer_leaves_the_topology(
    state: RouteStateView,
    key: Seq<char>,
    peer_id: u32,
    words: Seq<u32>,
    target: u32,
    session_id: u64,
    we_are_initiator: bool,
    force_full: bool,
    clock_ms: u64,
)
    requires
        memories_are_current(state),
        route_state::is_finite(state),
        peer_id != state.my_peer_id,
        target != peer_id,
        state.group(key, words).peers.contains(peer_id),
        state.group(key, words).peers.contains(target),
    ensures
        ({
            let before = state.group(key, words);
            let after = state.left(key, peer_id, words);
            let update = after.updated(key, target, session_id, we_are_initiator, force_full, words, clock_ms).1;
            update matches Ok(told) ==> {
                &&& told.topology_version is Some && told.topology_version != Some(before.topology_version)
                &&& told.request.conn_info matches Some(info) && {
                    &&& is_star_of(info, before.peers.insert(state.my_peer_id).remove(peer_id), state.my_peer_id)
                    &&& forall|i: int|
                        0 <= i < named_in(info).len() ==> (#[trigger] named_in(info)[i]).peer_id != peer_id
                    &&& forall|i: int|
                        0 <= i < named_in(info).len() && named_in(info)[i].peer_id != state.my_peer_id
                            && before.conn_version(named_in(info)[i].peer_id) < u32::MAX ==> (
                        #[trigger] named_in(info)[i]).version == before.conn_version(named_in(info)[i].peer_id) + 1
                }
                &&& forall|i: int|
                    0 <= i < told.peer_info_versions.len() ==> (#[trigger] told.peer_info_versions[i]).0 != peer_id
            }
        }),
{
    let my_peer_id = state.my_peer_id;
    let before = state.group(key, words);
    let left = before.without_peer(peer_id, my_peer_id);
    law_remembered_topology_is_current(
        state,
        key,
        peer_id,
        Seq::empty(),
        Seq::empty(),
        Seq::empty(),
        0,
        false,
        false,
        Seq::empty(),
        None,
        SyncRouteInfoRequestView {
            my_peer_id: 0,
            my_session_id: 0,
            is_initiator: false,
            peer_infos: None,
            conn_info: None,
            foreign_network_infos: None,
        },
        words,
        0,
    );
    assert(state.left(key, peer_id, words).groups.contains_key(key));
    assert(memory_is_current(left, my_peer_id));
    law_leaving_changes_the_topology(state, key, peer_id, words, target);
    law_topology_is_a_star_of_the_members(
        left,
        target,
        session_id,
        we_are_initiator,
        force_full,
        my_peer_id,
        clock_ms,
    );
    law_update_tells_exactly_what_is_due(
        left,
        target,
        session_id,
        we_are_initiator,
        force_full,
        my_peer_id,
        clock_ms,
        peer_id,
    );
    assert(left.peers.insert(my_peer_id) =~= before.peers.insert(my_peer_id).remove(peer_id));
    let update = left.update(target, session_id, we_are_initiator, force_full, my_peer_id, clock_ms).1;
    if update is Ok {
        let told = update->Ok_0;
        assert(told.request.conn_info is Some);
        let info = told.request.conn_info->0;
        let named = named_in(info);
        assert forall|i: int| 0 <= i < named.len() implies (#[trigger] named[i]).peer_id != peer_id && (
        left.peers.contains(named[i].peer_id) || named[i].peer_id == my_peer_id) by {
            let id = named[i].peer_id;
            assert(left.peers.insert(my_peer_id).contains(id));
        }
        assert forall|i: int|
            0 <= i < named.len() && named[i].peer_id != my_peer_id && before.conn_version(named[i].peer_id)
                < u32::MAX implies (#[trigger] named[i]).version == before.conn_version(named[i].peer_id) + 1 by {
            let id = named[i].peer_id;
            assert(left.peers.contains(id));
            assert(left.conn_version(id) == before.conn_version(id) + 1);
        }
    }
}

/// After a peer has joined, the next update for any member names it, with the relay as its
/// one link.
pub proof fn law_joined_peer_enters_the_topology(
    state: RouteStateView,
    key: Seq<char>,
    peer_id: u32,
    public_key: Seq<u8>,
    words: Seq<u32>,
    target: u32,
    session_id: u64,
    we_are_initiator: bool,
    force_full: bool,
    clock_ms: u64,
)
    requires
        memories_are_current(state),
        route_state::is_finite(state),
        state.added(key, peer_id, public_key, words).1 is Ok,
        !state.group(key, words).peers.contains(peer_id),
        state.group(key, words).peers.contains(target) || target == peer_id,
        state.group(key, words).topology_version < u64::MAX,
        state.group(key, words).session(target).last_topology_version <= state.group(key, words).topology_version,
    ensures
        ({
            let before = state.group(key, words);
            let after = state.added(key, peer_id, public_key, words).0;
            let update = after.updated(key, target, session_id, we_are_initiator, force_full, words, clock_ms).1;
            update matches Ok(told) ==> {
                &&& told.topology_version == Some((before.topology_version + 1) as u64)
                &&& told.request.conn_info matches Some(info) && is_star_of(
                    info,
                    before.peers.insert(peer_id).insert(state.my_peer_id),
                    state.my_peer_id,
                ) && exists|i: int| 0 <= i < named_in(info).len() && (#[trigger] named_in(info)[i]).peer_id == peer_id
            }
        }),
{
    let my_peer_id = state.my_peer_id;
    let joined = state.group(key, words).with_peer(peer_id, public_key, my_peer_id);
    law_remembered_topology_is_current(
        state,
        key,
        peer_id,
        public_key,
        Seq::empty(),
        Seq::empty(),
        0,
        false,
        false,
        Seq::empty(),
        None,
        SyncRouteInfoRequestView {
            my_peer_id: 0,
            my_session_id: 0,
            is_initiator: false,
            peer_infos: None,
            conn_info: None,
            foreign_network_infos: None,
        },
        words,
        0,
    );
    assert(state.added(key, peer_id, public_key, words).0.groups.contains_key(key));
    assert(memory_is_current(joined, my_peer_id));
    law_topology_is_a_star_of_the_members(
        joined,
        target,
        session_id,
        we_are_initiator,
        force_full,
        my_peer_id,
        clock_ms,
    );
    let update = joined.update(target, session_id, we_are_initiator, force_full, my_peer_id, clock_ms).1;
    if update is Ok {
        let info = update->Ok_0.request.conn_info->0;
        assert(joined.peers.insert(my_peer_id).contains(peer_id));
    }
}

/// An update tells a peer of exactly those members, and of the relay, that have published
/// something of which the peer has not lately been told the present version, or of all of
/// them if the update is to be full or the peer has never answered; it never tells a peer
/// of itself. What it tells is what was published, in ascending order of the peers, and
/// with it goes the version that is told, where zero counts as one.
pub proof fn law_update_tells_exactly_what_is_due(
    group: RouteGroupView,
    target: u32,
    session_id: u64,
    we_are_initiator: bool,
    force_full: bool,
    my_peer_id: u32,
    clock_ms: u64,
    peer_id: u32,
)
    requires
        group.peers.finite(),
    ensures
        group.update(target, session_id, we_are_initiator, force_full, my_peer_id, clock_ms).1 matches Ok(update) ==> {
            let session = group.session(target);
            let is_full = force_full || session.dst_session_id is None;
            let is_published = peer_id == my_peer_id || group.peer_infos.contains_key(peer_id);
            let info = if peer_id == my_peer_id {
                group.my_info
            } else {
                group.peer_infos[peer_id]
            };
            let saved = session.peer_info_ver_map;
            let is_told = saved.contains_key(peer_id) && clock_ms - saved[peer_id].touched_at_ms
                < 60_000 && saved[peer_id].version >= info.version
                && saved[peer_id].version >= 1;
            let is_due = (group.peers.contains(peer_id) || peer_id == my_peer_id) && peer_id != target && is_published
                && (is_full || !is_told);
            let versions = update.peer_info_versions;
            &&& update.request.my_peer_id == my_peer_id
            &&& update.request.my_session_id == session_id
            &&& update.request.is_initiator == we_are_initiator
            &&& update.request.foreign_network_infos is None
            &&& update.request.peer_infos is None <==> versions.len() == 0
            &&& update.request.peer_infos matches Some(infos) ==> infos.len() == versions.len()
            &&& is_due <==> exists|i: int| 0 <= i < versions.len() && (#[trigger] versions[i]).0 == peer_id
            &&& forall|i: int, j: int|
                0 <= i < j < versions.len() ==> (#[trigger] versions[i]).0 < (#[trigger] versions[j]).0
            &&& forall|i: int|
                0 <= i < versions.len() && (#[trigger] versions[i]).0 == peer_id ==> {
                    &&& update.request.peer_infos->0[i] == info
                    &&& versions[i].1 == if info.version == 0 {
                        1
                    } else {
                        info.version
                    }
                }
        },
{
    let asked = group.asked(target, session_id, clock_ms);
    let session = group.session(target);
    let is_full = force_full || session.dst_session_id is None;
    let set = group.peers.insert(my_peer_id).insert(target);
    let relevant = asked.relevant_peers(target, my_peer_id);
    collections::lemma_ascending_list_exists(set);
    let p = |id: u32| asked.is_due(id, target, is_full, my_peer_id, clock_ms);
    let due = asked.due_peers(target, is_full, my_peer_id, clock_ms);
    assert(due == relevant.filter(p));
    lemma_filter_ascends(relevant, p);
    if relevant.contains(peer_id) && p(peer_id) {
        let i = choose|i: int| 0 <= i < relevant.len() && relevant[i] == peer_id;
        relevant.lemma_filter_contains(p, i);
        let j = choose|j: int| 0 <= j < due.len() && due[j] == peer_id;
        let update = group.update(target, session_id, we_are_initiator, force_full, my_peer_id, clock_ms).1;
        if update is Ok {
            assert(update->Ok_0.peer_info_versions[j].0 == peer_id);
        }
    }
    assert(relevant.contains(peer_id) <==> set.contains(peer_id)) by {
        assert(relevant.to_set().contains(peer_id) <==> set.contains(peer_id));
    }
    let update = group.update(target, session_id, we_are_initiator, force_full, my_peer_id, clock_ms).1;
    if update is Ok {
        let versions = update->Ok_0.peer_info_versions;
        assert forall|i: int| 0 <= i < versions.len() implies (#[trigger] versions[i]).0 == due[i] && p(due[i])
            && relevant.contains(due[i]) by {
            relevant.lemma_filter_pred(p, i);
            assert(due.contains(due[i]));
            relevant.lemma_filter_contains_rev(p, due[i]);
        }
        assert forall|i: int, j: int| 0 <= i < j < versions.len() implies (#[trigger] versions[i]).0 < (
        #[trigger] versions[j]).0 by {
            assert(due[i] < due[j]);
        }
    }
}

proof fn lemma_filter_ascends(s: Seq<u32>, p: spec_fn(u32) -> bool)
    requires
        collections::ascending(s),
    ensures
        collections::ascending(s.filter(p)),
    decreases s.len(),
{
    reveal(Seq::filter);
    if s.len() > 0 {
        let rest = s.drop_last();
        lemma_filter_ascends(rest, p);
        let kept = rest.filter(p);
        assert forall|i: int| 0 <= i < kept.len() implies #[trigger] kept[i] < s.last() by {
            assert(kept.contains(kept[i]));
            rest.lemma_filter_contains_rev(p, kept[i]);
            let j = choose|j: int| 0 <= j < rest.len() && rest[j] == kept[i];
            assert(s[j] < s[s.len() - 1]);
        }
    }
}

/// To build an update changes nothing of a network but the session with the peer that it is
/// for, which takes the name of the session that the update is sent in, and what is
/// remembered of the topology.
pub proof fn law_building_an_update_keeps_the_network(
    group: RouteGroupView,
    target: u32,
    session_id: u64,
    we_are_initiator: bool,
    force_full: bool,
    my_peer_id: u32,
    clock_ms: u64,
    other: u32,
)
    requires
        other != target,
    ensures
        ({
            let after = group.update(target, session_id, we_are_initiator, force_full, my_peer_id, clock_ms).0;
            let was = group.session(target);
            let now = after.session(target);
            &&& after.sessions.contains_key(target)
            &&& now.my_session_id == Some(session_id)
            &&& now.last_touch_ms == clock_ms
            &&& now.dst_session_id == was.dst_session_id
            &&& now.we_are_initiator == was.we_are_initiator
            &&& now.peer_info_ver_map == was.peer_info_ver_map
            &&& now.last_topology_version == was.last_topology_version
            &&& now.last_topology_touch_ms == was.last_topology_touch_ms
            &&& after.sessions.contains_key(other) <==> group.sessions.contains_key(other)
            &&& after.session(other) == group.session(other)
            &&& after == RouteGroupView {
                sessions: after.sessions,
                cached_conn_bitmap: after.cached_conn_bitmap,
                cached_conn_peer_list: after.cached_conn_peer_list,
                ..group
            }
        }),
{
}

/// A request changes the topology exactly if with it a peer publishes itself for the first
/// time; a request that is refused never does.
pub proof fn law_first_publication_changes_the_topology(
    group: RouteGroupView,
    from: u32,
    request: SyncRouteInfoRequestView,
    my_peer_id: u32,
    clock_ms: u64,
)
    ensures
        ({
            let (after, outcome) = group.handled(from, request, my_peer_id, clock_ms);
            let is_first = !group.peer_infos.contains_key(from) && after.peer_infos.contains_key(from);
            &&& outcome is Ok && is_first ==> is_raised(group, after, my_peer_id)
            &&& outcome is Err || !is_first ==> is_not_raised(group, after) && after.peer_conn_versions
                == group.peer_conn_versions
        }),
{
    let opened = publication_laws::opened(group, from, request, clock_ms);
    let infos = publication_laws::infos_of(request);
    publication_laws::lemma_absorbing_keeps(opened, from, infos, clock_ms);
    publication_laws::lemma_news_of_a_peer(opened, from, infos, clock_ms);
}

} // verus!
