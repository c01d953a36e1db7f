//! What holds of the route state as a whole.
use vstd::prelude::*;

use crate::bits;
use crate::collections;
use crate::proto::{RoutePeerInfoView, SyncRouteInfoRequestView};
use crate::route_state;
use crate::route_state::{RouteGroupView, RouteStateView, SavedVersion, SessionView};

verus! {

/// The group of a network is as it was.
pub open spec fn is_untouched(before: RouteStateView, after: RouteStateView, network: Seq<char>) -> bool {
    &&& after.my_peer_id == before.my_peer_id
    &&& after.groups.contains_key(network) <==> before.groups.contains_key(network)
    &&& after.groups[network] == before.groups[network]
}

/// Networks are isolated: peers that join or leave one network, and what the relay
/// publishes there, leave every other network as it was.
pub proof fn law_groups_are_isolated(
    state: RouteStateView,
    key: Seq<char>,
    peer_id: u32,
    public_key: Seq<u8>,
    field: Seq<char>,
    value: Seq<char>,
    words: Seq<u32>,
    other: Seq<char>,
)
    requires
        other != key,
    ensures
        is_untouched(state, state.added(key, peer_id, public_key, words).0, other),
        is_untouched(state, state.left(key, peer_id, words), other),
        is_untouched(state, state.with_field(key, field, value, words).0, other),
        is_untouched(state, state.with_noise_key(key, public_key, words).0, other),
{
}

/// Networks are isolated: the synchronization with a peer of one network leaves
/// every other network as it was.
pub proof fn law_synchronization_is_isolated(
    state: RouteStateView,
    key: Seq<char>,
    peer_id: u32,
    session_id: u64,
    we_are_initiator: bool,
    force_full: bool,
    versions: Seq<(u32, u32)>,
    topology_version: Option<u64>,
    request: SyncRouteInfoRequestView,
    words: Seq<u32>,
    clock_ms: u64,
    other: Seq<char>,
)
    requires
        other != key,
    ensures
        is_untouched(state, state.acked(key, peer_id, session_id, we_are_initiator, words, clock_ms), other),
        is_untouched(state, state.committed(key, peer_id, versions, topology_version, words, clock_ms), other),
        is_untouched(
            state,
            state.updated(key, peer_id, session_id, we_are_initiator, force_full, words, clock_ms).0,
            other,
        ),
        is_untouched(state, state.synced(key, peer_id, request, words, clock_ms).0, other),
{
}

/// Whatever a peer sends, it changes what is known of that peer alone: what
/// other peers publish, the keys, the members and what the relay publishes stay.
pub proof fn law_peer_publishes_itself_alone(
    group: RouteGroupView,
    from: u32,
    request: SyncRouteInfoRequestView,
    my_peer_id: u32,
    clock_ms: u64,
    other: u32,
)
    requires
        other != from,
    ensures
        ({
            let after = group.handled(from, request, my_peer_id, clock_ms).0;
            &&& after.peer_infos.contains_key(other) <==> group.peer_infos.contains_key(other)
            &&& after.peer_infos[other] == group.peer_infos[other]
            &&& after.authenticated_peer_keys == group.authenticated_peer_keys
            &&& after.peers == group.peers
            &&& after.my_info == group.my_info
        }),
{
    let joined = group.with_session(
        from,
        group.session(from).joined(request.my_session_id, !request.is_initiator, clock_ms),
    );
    let infos = match request.peer_infos {
        Some(infos) => infos,
        None => Seq::empty(),
    };
    route_state::lemma_absorbed(joined, from, infos, clock_ms);
    let after = group.handled(from, request, my_peer_id, clock_ms).0;
    assert(after.peer_infos == route_state::absorbed(joined, from, infos, clock_ms).group.peer_infos);
    assert(after.peer_infos.contains_key(other) <==> joined.peer_infos.contains_key(other));
}

/// In every network, the members are exactly the peers that have authenticated with a
/// key.
pub open spec fn members_are_authenticated(state: RouteStateView) -> bool {
    forall|key: Seq<char>| #[trigger]
        state.groups.contains_key(key) ==> state.groups[key].peers
            == state.groups[key].authenticated_peer_keys.dom()
}

/// The members of a network are exactly the peers that have authenticated with a key:
/// that holds at first, and whatever peers join, leave or send.
pub proof fn law_members_are_authenticated(
    state: RouteStateView,
    key: Seq<char>,
    peer_id: u32,
    public_key: Seq<u8>,
    field: Seq<char>,
    value: Seq<char>,
    session_id: u64,
    we_are_initiator: bool,
    force_full: bool,
    versions: Seq<(u32, u32)>,
    topology_version: Option<u64>,
    request: SyncRouteInfoRequestView,
    words: Seq<u32>,
    clock_ms: u64,
)
    requires
        members_are_authenticated(state),
    ensures
        members_are_authenticated(RouteStateView { groups: Map::empty(), my_peer_id: state.my_peer_id }),
        members_are_authenticated(state.added(key, peer_id, public_key, words).0),
        members_are_authenticated(state.left(key, peer_id, words)),
        members_are_authenticated(state.with_field(key, field, value, words).0),
        members_are_authenticated(state.with_noise_key(key, public_key, words).0),
        members_are_authenticated(state.acked(key, peer_id, session_id, we_are_initiator, words, clock_ms)),
        members_are_authenticated(state.committed(key, peer_id, versions, topology_version, words, clock_ms)),
        members_are_authenticated(
            state.updated(key, peer_id, session_id, we_are_initiator, force_full, words, clock_ms).0,
        ),
        members_are_authenticated(state.synced(key, peer_id, request, words, clock_ms).0),
{
    let group = state.group(key, words);
    assert(group.peers =~= group.authenticated_peer_keys.dom());
    let joined = group.with_peer(peer_id, public_key, state.my_peer_id);
    assert(joined.peers =~= joined.authenticated_peer_keys.dom());
    let left = group.without_peer(peer_id, state.my_peer_id);
    assert(left.peers =~= left.authenticated_peer_keys.dom());
    // Requests leave both as they are; any other peer will do to say so.
    let other: u32 = if peer_id == 0 {
        1
    } else {
        0
    };
    law_peer_publishes_itself_alone(group, peer_id, request, state.my_peer_id, clock_ms, other);
}

/// All that is published stands under its own peer id and under the key that the
/// peer authenticated with.
pub open spec fn identities_bound(group: RouteGroupView) -> bool {
    forall|peer_id: u32| #[trigger]
        group.peer_infos.contains_key(peer_id) ==> {
            &&& group.peer_infos[peer_id].peer_id == peer_id
            &&& group.authenticated_peer_keys.contains_key(peer_id)
            &&& group.peer_infos[peer_id].noise_static_pubkey == group.authenticated_peer_keys[peer_id]
        }
}

proof fn lemma_absorbed_bound(
    group: RouteGroupView,
    from: u32,
    infos: Seq<RoutePeerInfoView>,
    clock_ms: u64,
)
    requires
        identities_bound(group),
    ensures
        identities_bound(route_state::absorbed(group, from, infos, clock_ms).group),
    decreases infos.len(),
{
    if infos.len() > 0 {
        lemma_absorbed_bound(group, from, infos.drop_last(), clock_ms);
    }
}

/// A new group has its identities bound.
pub proof fn law_identities_bound_at_first(my_peer_id: u32, words: Seq<u32>)
    ensures
        identities_bound(RouteGroupView::initial(my_peer_id, words)),
{
}

/// Identities stay bound when a peer joins with a key that does not conflict,
/// and when one leaves.
pub proof fn law_identities_stay_bound_by_membership(
    group: RouteGroupView,
    peer_id: u32,
    key: Seq<u8>,
    my_peer_id: u32,
)
    requires
        identities_bound(group),
    ensures
        !(group.authenticated_peer_keys.contains_key(peer_id) && group.authenticated_peer_keys[peer_id] != key)
            ==> identities_bound(group.with_peer(peer_id, key, my_peer_id)),
        identities_bound(group.without_peer(peer_id, my_peer_id)),
{
}

/// Identities stay bound whatever a peer sends.
pub proof fn law_identities_stay_bound_by_requests(
    group: RouteGroupView,
    from: u32,
    request: SyncRouteInfoRequestView,
    my_peer_id: u32,
    clock_ms: u64,
)
    requires
        identities_bound(group),
    ensures
        identities_bound(group.handled(from, request, my_peer_id, clock_ms).0),
{
    let joined = group.with_session(
        from,
        group.session(from).joined(request.my_session_id, !request.is_initiator, clock_ms),
    );
    let infos = match request.peer_infos {
        Some(infos) => infos,
        None => Seq::empty(),
    };
    lemma_absorbed_bound(joined, from, infos, clock_ms);
}

proof fn lemma_absorbed_version(
    group: RouteGroupView,
    from: u32,
    infos: Seq<RoutePeerInfoView>,
    clock_ms: u64,
)
    requires
        group.peer_infos.contains_key(from),
        forall|i: int| 0 <= i < infos.len() ==> (#[trigger] infos[i]).inst_id == group.peer_infos[from].inst_id,
    ensures
        ({
            let after = route_state::absorbed(group, from, infos, clock_ms).group;
            &&& after.peer_infos.contains_key(from)
            &&& after.peer_infos[from].inst_id == group.peer_infos[from].inst_id
            &&& after.peer_infos[from].version >= group.peer_infos[from].version
        }),
    decreases infos.len(),
{
    if infos.len() > 0 {
        assert forall|i: int| 0 <= i < infos.drop_last().len() implies (#[trigger] infos.drop_last()[i]).inst_id
            == group.peer_infos[from].inst_id by {
            assert(infos[i].inst_id == group.peer_infos[from].inst_id);
        }
        lemma_absorbed_version(group, from, infos.drop_last(), clock_ms);
        assert(infos[infos.len() - 1].inst_id == group.peer_infos[from].inst_id);
    }
}

/// As long as a peer does not start anew, the version of what it publishes never
/// goes back.
pub proof fn law_versions_never_go_back(
    group: RouteGroupView,
    from: u32,
    request: SyncRouteInfoRequestView,
    my_peer_id: u32,
    clock_ms: u64,
)
    requires
        group.peer_infos.contains_key(from),
        request.peer_infos matches Some(infos) ==> forall|i: int|
            0 <= i < infos.len() ==> (#[trigger] infos[i]).inst_id == group.peer_infos[from].inst_id,
    ensures
        ({
            let after = group.handled(from, request, my_peer_id, clock_ms).0;
            &&& after.peer_infos.contains_key(from)
            &&& after.peer_infos[from].version >= group.peer_infos[from].version
        }),
{
    let joined = group.with_session(
        from,
        group.session(from).joined(request.my_session_id, !request.is_initiator, clock_ms),
    );
    let infos = match request.peer_infos {
        Some(infos) => infos,
        None => Seq::empty(),
    };
    lemma_absorbed_version(joined, from, infos, clock_ms);
}

/// Nothing is left of a peer that was removed: no membership, no information, no
/// key, no session, no version, and no other session remembers it.
pub proof fn law_removed_peer_leaves_nothing(group: RouteGroupView, peer_id: u32, my_peer_id: u32)
    requires
        peer_id != my_peer_id,
    ensures
        ({
            let after = group.without_peer(peer_id, my_peer_id);
            &&& !after.peers.contains(peer_id)
            &&& !after.peer_infos.contains_key(peer_id)
            &&& !after.authenticated_peer_keys.contains_key(peer_id)
            &&& !after.sessions.contains_key(peer_id)
            &&& !after.peer_conn_versions.contains_key(peer_id)
            &&& forall|other: u32| #[trigger]
                after.sessions.contains_key(other) ==> !after.sessions[other].peer_info_ver_map.contains_key(peer_id)
        }),
{
}

/// The connection matrix is what its definition says, bit by bit.
pub proof fn law_bitmap_shows_links(group: RouteGroupView, peers: Seq<u32>, my_peer_id: u32, row: int, column: int)
    requires
        0 <= row < peers.len(),
        0 <= column < peers.len(),
    ensures
        ({
            let n = peers.len() as int;
            let k = row * n + column;
            bits::bit(group.conn_bitmap(peers, my_peer_id).bitmap, k) == (row == column || !peers.contains(my_peer_id)
                || peers[row] == my_peer_id || peers[column] == my_peer_id)
        }),
{
    let n = peers.len() as int;
    let k = row * n + column;
    route_state::lemma_cell(n, row, column, 0);
    route_state::lemma_cell(n, row, column, k);
    let size = ((peers.len() * peers.len() + 7) / 8) as nat;
    bits::lemma_bit_string_bits(size, |j: int| route_state::is_linked(peers, my_peer_id, j));
    assert(n * n == peers.len() * peers.len());
    assert(k < 8 * size);
    assert(bits::bit(group.conn_bitmap(peers, my_peer_id).bitmap, k) == route_state::is_linked(peers, my_peer_id, k));
}

/// Links go both ways.
pub proof fn law_links_go_both_ways(group: RouteGroupView, peers: Seq<u32>, my_peer_id: u32, row: int, column: int)
    requires
        0 <= row < peers.len(),
        0 <= column < peers.len(),
    ensures
        bits::bit(group.conn_bitmap(peers, my_peer_id).bitmap, row * peers.len() + column) == bits::bit(
            group.conn_bitmap(peers, my_peer_id).bitmap,
            column * peers.len() + row,
        ),
{
    law_bitmap_shows_links(group, peers, my_peer_id, row, column);
    law_bitmap_shows_links(group, peers, my_peer_id, column, row);
}

/// The two forms of the topology tell the same links between different peers.
pub proof fn law_list_and_bitmap_agree(group: RouteGroupView, peers: Seq<u32>, my_peer_id: u32, row: int, column: int)
    requires
        collections::ascending(peers),
        peers.contains(my_peer_id),
        0 <= row < peers.len(),
        0 <= column < peers.len(),
        row != column,
    ensures
        group.conn_list(peers, my_peer_id)[row].connected_peer_ids.contains(peers[column]) <==> bits::bit(
            group.conn_bitmap(peers, my_peer_id).bitmap,
            row * peers.len() + column,
        ),
{
    law_bitmap_shows_links(group, peers, my_peer_id, row, column);
    let listed = group.conn_list(peers, my_peer_id)[row].connected_peer_ids;
    let others = peers.filter(route_state::other_than(my_peer_id));
    assert(peers[row] != peers[column]);
    if peers[row] == my_peer_id {
        assert(listed == others);
        peers.lemma_filter_contains(route_state::other_than(my_peer_id), column);
        assert(others.contains(peers[column]));
    } else {
        assert(listed == seq![my_peer_id]);
        if peers[column] == my_peer_id {
            assert(listed[0] == peers[column]);
        } else {
            assert(!listed.contains(peers[column]));
        }
    }
}

/// A peer that is told all is told of every other peer that has published
/// something, and of the relay.
pub proof fn law_full_update_tells_all(group: RouteGroupView, target: u32, my_peer_id: u32, clock_ms: u64, peer_id: u32)
    requires
        group.peers.finite(),
        peer_id != target,
        group.peers.contains(peer_id) || peer_id == my_peer_id,
        group.published(peer_id, my_peer_id) is Some,
    ensures
        group.due_peers(target, true, my_peer_id, clock_ms).contains(peer_id),
{
    let members = group.peers.insert(my_peer_id).insert(target);
    collections::lemma_ascending_list_exists(members);
    let relevant = group.relevant_peers(target, my_peer_id);
    assert(relevant.to_set().contains(peer_id));
    let i = choose|i: int| 0 <= i < relevant.len() && relevant[i] == peer_id;
    relevant.lemma_filter_contains(
        |id: u32| group.is_due(id, target, true, my_peer_id, clock_ms),
        i,
    );
}

/// What other networks publish never enters an update.
pub proof fn law_no_foreign_networks(
    group: RouteGroupView,
    target: u32,
    session_id: u64,
    we_are_initiator: bool,
    force_full: bool,
    my_peer_id: u32,
    clock_ms: u64,
)
    ensures
        group.update(target, session_id, we_are_initiator, force_full, my_peer_id, clock_ms).1 matches Ok(update)
            ==> update.request.foreign_network_infos is None,
{
}

/// A change of topology makes the topology due for every peer that knew the one
/// before.
pub proof fn law_topology_change_is_due(group: RouteGroupView, my_peer_id: u32, target: u32, clock_ms: u64)
    requires
        group.session(target).last_topology_version == group.topology_version,
    ensures
        !group.bumped(my_peer_id).session(target).knows_topology(
            group.bumped(my_peer_id).topology_version,
            clock_ms,
        ),
        group.bumped(my_peer_id).cached_conn_bitmap is None,
        group.bumped(my_peer_id).cached_conn_peer_list is None,
{
}

/// A peer that answers in a new session is told all again.
pub proof fn law_new_session_starts_over(session: SessionView, session_id: u64, initiator: bool, peer_id: u32, clock_ms: u64)
    requires
        session.dst_session_id != Some(session_id),
    ensures
        session.joined(session_id, initiator, clock_ms).told_version(peer_id, clock_ms) == 0,
        session.joined(session_id, initiator, clock_ms).last_topology_version == 0,
{
}

/// What was told is remembered.
pub proof fn lemma_saved_versions(saved: Map<u32, SavedVersion>, versions: Seq<(u32, u32)>, clock_ms: u64, i: int)
    requires
        0 <= i < versions.len(),
    ensures
        saved_entry(route_state::saved_versions(saved, versions, clock_ms), versions[i], clock_ms),
    decreases versions.len(),
{
    if i < versions.len() - 1 {
        lemma_saved_versions(saved, versions.drop_last(), clock_ms, i);
    }
}

/// A version that was told is remembered, or a later one is.
pub open spec fn saved_entry(saved: Map<u32, SavedVersion>, told: (u32, u32), clock_ms: u64) -> bool {
    &&& saved.contains_key(told.0)
    &&& saved[told.0].version >= told.1
    &&& saved[told.0].touched_at_ms == clock_ms
}

/// Once a peer has taken in a full update, nothing of it is sent again within
/// the time to live, as long as nothing has changed. A topology that the update left
/// out is sent once the peer has not been told of it for too long.
pub proof fn law_acknowledged_update_is_not_repeated(
    group: RouteGroupView,
    target: u32,
    session_id: u64,
    we_are_initiator: bool,
    my_peer_id: u32,
    built_ms: u64,
    told_ms: u64,
    again_ms: u64,
)
    requires
        group.session(target).dst_session_id is Some,
        group.session(target).last_topology_version <= group.topology_version,
        group.update(target, session_id, we_are_initiator, true, my_peer_id, built_ms).1 is Ok,
        again_ms - told_ms < route_state::SAVED_ROUTE_VERSION_TTL_MS,
        group.peers.finite(),
    ensures
        ({
            let (after, update) = group.update(target, session_id, we_are_initiator, true, my_peer_id, built_ms);
            let told = after.with_session(
                target,
                after.session(target).told(update->Ok_0.peer_info_versions, update->Ok_0.topology_version, told_ms),
            );
            let again = told.update(target, session_id, we_are_initiator, false, my_peer_id, again_ms).1;
            let knew = group.session(target).knows_topology(group.topology_version, again_ms);
            &&& again matches Ok(next) ==> next.request.peer_infos is None && next.peer_info_versions.len() == 0
            &&& update->Ok_0.request.conn_info is Some || knew ==> (again matches Ok(next)
                && next.request.conn_info is None && next.topology_version is None)
        }),
{
    let (after, update) = group.update(target, session_id, we_are_initiator, true, my_peer_id, built_ms);
    let first = update->Ok_0;
    let asked = group.asked(target, session_id, built_ms);
    let told = after.with_session(
        target,
        after.session(target).told(first.peer_info_versions, first.topology_version, told_ms),
    );
    let second = told.asked(target, session_id, again_ms);
    let members = group.peers.insert(my_peer_id).insert(target);
    collections::lemma_ascending_list_exists(members);
    let relevant = asked.relevant_peers(target, my_peer_id);
    assert(relevant == second.relevant_peers(target, my_peer_id));
    assert(relevant.to_set().contains(my_peer_id));
    assert(relevant.len() > 0);
    let due = asked.due_peers(target, true, my_peer_id, built_ms);
    let p = |id: u32| second.is_due(id, target, false, my_peer_id, again_ms);
    let q = |id: u32| asked.is_due(id, target, true, my_peer_id, built_ms);
    let saved = told.session(target).peer_info_ver_map;
    assert forall|i: int| 0 <= i < relevant.len() implies !p(#[trigger] relevant[i]) by {
        let id = relevant[i];
        if q(id) {
            relevant.lemma_filter_contains(q, i);
            assert(due.contains(id));
            let j = choose|j: int| 0 <= j < due.len() && due[j] == id;
            assert(first.peer_info_versions[j].0 == id);
            lemma_saved_versions(
                after.session(target).peer_info_ver_map,
                first.peer_info_versions,
                told_ms,
                j,
            );
            assert(saved_entry(saved, first.peer_info_versions[j], told_ms));
            assert(second.session(target).told_version(id, again_ms) == saved[id].version);
        }
    }
    relevant.lemma_all_neg_filter_empty(p);
    assert(second.due_peers(target, false, my_peer_id, again_ms).len() == 0);
    if first.request.conn_info is Some || group.session(target).knows_topology(group.topology_version, again_ms) {
        assert(second.sessions[target].knows_topology(second.topology_version, again_ms));
    }
}

/// What a peer was told long ago is told again, even if nothing has changed.
pub proof fn law_old_versions_are_told_again(
    group: RouteGroupView,
    target: u32,
    my_peer_id: u32,
    clock_ms: u64,
    peer_id: u32,
)
    requires
        peer_id != target,
        group.published(peer_id, my_peer_id) is Some,
        ({
            let saved = group.session(target).peer_info_ver_map;
            saved.contains_key(peer_id) ==> clock_ms - saved[peer_id].touched_at_ms
                >= route_state::SAVED_ROUTE_VERSION_TTL_MS
        }),
    ensures
        group.is_due(peer_id, target, false, my_peer_id, clock_ms),
{
}

} // verus!
