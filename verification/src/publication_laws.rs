//! What holds of what peers publish of themselves, and of what the relay publishes.
use vstd::prelude::*;

use crate::error::EdgeError;
use crate::proto::{Ipv4Addr, RoutePeerInfoView, SyncRouteInfoRequestView, Timestamp};
use crate::route_state;
use crate::route_state::{RouteGroupView, RouteStateView, SavedVersion, SessionView};
use crate::text;

verus! {

/// The information that a request carries.
pub open spec fn infos_of(request: SyncRouteInfoRequestView) -> Seq<RoutePeerInfoView> {
    match request.peer_infos {
        Some(infos) => infos,
        None => Seq::empty(),
    }
}

/// The group once a peer has opened its request.
pub open spec fn opened(
    group: RouteGroupView,
    from: u32,
    request: SyncRouteInfoRequestView,
    clock_ms: u64,
) -> RouteGroupView {
    group.with_session(from, group.session(from).joined(request.my_session_id, !request.is_initiator, clock_ms))
}

/// Two sessions tell the same, but for what they remember of one peer, which one of them
/// may have forgotten.
pub open spec fn same_but_for(before: SessionView, after: SessionView, peer_id: u32) -> bool {
    &&& after.my_session_id == before.my_session_id
    &&& after.dst_session_id == before.dst_session_id
    &&& after.we_are_initiator == before.we_are_initiator
    &&& after.foreign_net_ver == before.foreign_net_ver
    &&& after.last_touch_ms == before.last_touch_ms
    &&& after.last_topology_version == before.last_topology_version
    &&& after.last_topology_touch_ms == before.last_topology_touch_ms
    &&& forall|other: u32| #[trigger]
        after.peer_info_ver_map.contains_key(other) ==> before.peer_info_ver_map.contains_key(other)
            && after.peer_info_ver_map[other] == before.peer_info_ver_map[other]
    &&& forall|other: u32| #[trigger]
        before.peer_info_ver_map.contains_key(other) && other != peer_id ==> after.peer_info_ver_map.contains_key(
            other,
        )
}

/// What taking in information leaves as it was.
pub proof fn lemma_absorbing_keeps(group: RouteGroupView, from: u32, infos: Seq<RoutePeerInfoView>, clock_ms: u64)
    ensures
        ({
            let after = route_state::absorbed(group, from, infos, clock_ms).group;
            &&& after.peers == group.peers
            &&& after.authenticated_peer_keys == group.authenticated_peer_keys
            &&& after.peer_conn_versions == group.peer_conn_versions
            &&& after.topology_version == group.topology_version
            &&& after.cached_conn_bitmap == group.cached_conn_bitmap
            &&& after.cached_conn_peer_list == group.cached_conn_peer_list
            &&& after.my_info == group.my_info
            &&& after.my_info_version == group.my_info_version
            &&& group.peer_infos.contains_key(from) ==> after.peer_infos.contains_key(from)
            &&& after.sessions.dom() == group.sessions.dom()
            &&& forall|peer_id: u32| #[trigger]
                after.sessions.contains_key(peer_id) ==> same_but_for(
                    group.sessions[peer_id],
                    after.sessions[peer_id],
                    from,
                )
        }),
    decreases infos.len(),
{
    if infos.len() > 0 {
        lemma_absorbing_keeps(group, from, infos.drop_last(), clock_ms);
        let before = route_state::absorbed(group, from, infos.drop_last(), clock_ms);
        let after = before.with_info(from, infos.last(), clock_ms);
        assert(after.group.sessions.dom() =~= before.group.sessions.dom());
        assert forall|peer_id: u32| #[trigger] after.group.sessions.contains_key(peer_id) implies same_but_for(
            group.sessions[peer_id],
            after.group.sessions[peer_id],
            from,
        ) by {
            assert(same_but_for(group.sessions[peer_id], before.group.sessions[peer_id], from));
        }
    }
}

proof fn lemma_new_instance_is_forgotten(
    group: RouteGroupView,
    from: u32,
    infos: Seq<RoutePeerInfoView>,
    clock_ms: u64,
)
    requires
        group.peer_infos.contains_key(from),
    ensures
        ({
            let after = route_state::absorbed(group, from, infos, clock_ms).group;
            &&& after.peer_infos.contains_key(from)
            &&& after.peer_infos[from].inst_id != group.peer_infos[from].inst_id ==> forall|other: u32| #[trigger]
                after.sessions.contains_key(other) ==> !after.sessions[other].peer_info_ver_map.contains_key(from)
        }),
    decreases infos.len(),
{
    if infos.len() > 0 {
        lemma_new_instance_is_forgotten(group, from, infos.drop_last(), clock_ms);
    }
}

/// When a peer has started anew, what it publishes then is due for every other peer,
/// whatever version of it they were told before: nobody counts as told of the new
/// instance.
pub proof fn law_new_instance_is_due_for_all(
    group: RouteGroupView,
    from: u32,
    request: SyncRouteInfoRequestView,
    my_peer_id: u32,
    clock_ms: u64,
    other: u32,
    later_ms: u64,
)
    requires
        group.peer_infos.contains_key(from),
        other != from,
        ({
            let after = group.handled(from, request, my_peer_id, clock_ms).0;
            after.peer_infos[from].inst_id != group.peer_infos[from].inst_id
        }),
    ensures
        ({
            let after = group.handled(from, request, my_peer_id, clock_ms).0;
            &&& !after.session(other).peer_info_ver_map.contains_key(from)
            &&& after.session(other).told_version(from, later_ms) == 0
            &&& after.is_due(from, other, false, my_peer_id, later_ms)
        }),
{
    lemma_new_instance_is_forgotten(opened(group, from, request, clock_ms), from, infos_of(request), clock_ms);
}

/// What a peer publishes of itself replaces what was known of it exactly if nothing was
/// known, the peer has started anew, or the version is higher. It is kept as it was sent,
/// with the time at which it came in, and the answer says whether anything has changed.
/// The topology changes only when a peer publishes for the first time.
pub proof fn law_newer_information_replaces(
    group: RouteGroupView,
    from: u32,
    request: SyncRouteInfoRequestView,
    info: RoutePeerInfoView,
    my_peer_id: u32,
    clock_ms: u64,
)
    requires
        request.peer_infos == Some(seq![info]),
        info.peer_id == from,
        group.authenticated_peer_keys.contains_key(from),
        group.authenticated_peer_keys[from] == info.noise_static_pubkey,
    ensures
        ({
            let (after, outcome) = group.handled(from, request, my_peer_id, clock_ms);
            let current = group.peer_infos[from];
            let is_first = !group.peer_infos.contains_key(from);
            let is_newer = is_first || current.inst_id != info.inst_id || current.version < info.version;
            &&& outcome is Ok
            &&& outcome->Ok_0.route_changed == is_newer
            &&& after.peer_infos.contains_key(from)
            &&& !is_newer ==> after.peer_infos[from] == current
            &&& is_newer ==> after.peer_infos[from].last_update == Some(
                Timestamp { seconds: (clock_ms / 1000) as i64, nanos: 0 },
            )
            &&& is_newer ==> after.peer_infos[from] == RoutePeerInfoView {
                last_update: after.peer_infos[from].last_update,
                ..info
            }
            &&& is_first <==> after.topology_version != group.topology_version
        }),
{
    let joined = opened(group, from, request, clock_ms);
    let infos = infos_of(request);
    assert(infos.drop_last() =~= Seq::empty());
    assert(route_state::absorbed(joined, from, infos.drop_last(), clock_ms) == (route_state::Absorbed {
        group: joined,
        changed: false,
        is_new: false,
        error: None,
    }));
    assert(infos.last() == info);
    lemma_absorbing_keeps(joined, from, infos, clock_ms);
}

proof fn lemma_absorbing_refuses(group: RouteGroupView, from: u32, infos: Seq<RoutePeerInfoView>, clock_ms: u64)
    ensures
        ({
            let taken = route_state::absorbed(group, from, infos, clock_ms);
            let keys = group.authenticated_peer_keys;
            let is_own = exists|i: int| 0 <= i < infos.len() && (#[trigger] infos[i]).peer_id == from;
            let is_forged = exists|i: int|
                0 <= i < infos.len() && (#[trigger] infos[i]).peer_id == from && infos[i].noise_static_pubkey
                    != keys[from];
            &&& taken.group.authenticated_peer_keys == keys
            &&& taken.error == if !keys.contains_key(from) {
                if is_own {
                    Some(EdgeError::RoutePeerUnauthenticated)
                } else {
                    None
                }
            } else if is_forged {
                Some(EdgeError::RouteKeyMismatch)
            } else {
                None
            }
            &&& !is_own ==> taken.group == group && !taken.changed && !taken.is_new
            &&& taken.is_new ==> taken.changed
        }),
    decreases infos.len(),
{
    if infos.len() > 0 {
        let earlier = infos.drop_last();
        lemma_absorbing_refuses(group, from, earlier, clock_ms);
        let keys = group.authenticated_peer_keys;
        assert forall|i: int| 0 <= i < earlier.len() implies #[trigger] infos[i] == earlier[i] by {}
        if exists|i: int| 0 <= i < earlier.len() && (#[trigger] earlier[i]).peer_id == from {
            let i = choose|i: int| 0 <= i < earlier.len() && (#[trigger] earlier[i]).peer_id == from;
            assert(infos[i].peer_id == from);
        }
        if exists|i: int|
            0 <= i < earlier.len() && (#[trigger] earlier[i]).peer_id == from && earlier[i].noise_static_pubkey
                != keys[from] {
            let i = choose|i: int|
                0 <= i < earlier.len() && (#[trigger] earlier[i]).peer_id == from && earlier[i].noise_static_pubkey
                    != keys[from];
            assert(infos[i].peer_id == from && infos[i].noise_static_pubkey != keys[from]);
        }
        let last = infos.len() - 1;
        assert(infos[last] == infos.last());
        if exists|i: int| 0 <= i < infos.len() && (#[trigger] infos[i]).peer_id == from {
            let i = choose|i: int| 0 <= i < infos.len() && (#[trigger] infos[i]).peer_id == from;
            if i < last {
                assert(earlier[i].peer_id == from);
            }
        }
        if exists|i: int|
            0 <= i < infos.len() && (#[trigger] infos[i]).peer_id == from && infos[i].noise_static_pubkey
                != keys[from] {
            let i = choose|i: int|
                0 <= i < infos.len() && (#[trigger] infos[i]).peer_id == from && infos[i].noise_static_pubkey
                    != keys[from];
            if i < last {
                assert(earlier[i].peer_id == from && earlier[i].noise_static_pubkey != keys[from]);
            }
        }
    }
}

/// Only the first information of a peer is news of a peer.
pub proof fn lemma_news_of_a_peer(group: RouteGroupView, from: u32, infos: Seq<RoutePeerInfoView>, clock_ms: u64)
    ensures
        ({
            let taken = route_state::absorbed(group, from, infos, clock_ms);
            taken.is_new <==> !group.peer_infos.contains_key(from) && taken.group.peer_infos.contains_key(from)
        }),
    decreases infos.len(),
{
    if infos.len() > 0 {
        lemma_news_of_a_peer(group, from, infos.drop_last(), clock_ms);
        lemma_absorbing_keeps(group, from, infos.drop_last(), clock_ms);
    }
}

/// A request is refused exactly if the peer publishes itself without having authenticated,
/// or under another key than the one that it authenticated with. Information of other
/// peers is passed over: alone it is neither refused nor taken in.
pub proof fn law_publication_needs_the_right_key(
    group: RouteGroupView,
    from: u32,
    request: SyncRouteInfoRequestView,
    my_peer_id: u32,
    clock_ms: u64,
)
    ensures
        ({
            let (after, outcome) = group.handled(from, request, my_peer_id, clock_ms);
            let infos = infos_of(request);
            let keys = group.authenticated_peer_keys;
            let is_own = exists|i: int| 0 <= i < infos.len() && (#[trigger] infos[i]).peer_id == from;
            let is_forged = exists|i: int|
                0 <= i < infos.len() && (#[trigger] infos[i]).peer_id == from && infos[i].noise_static_pubkey
                    != keys[from];
            &&& !keys.contains_key(from) && is_own <==> outcome == Err::<route_state::RouteSyncOutcome, EdgeError>(
                EdgeError::RoutePeerUnauthenticated,
            )
            &&& keys.contains_key(from) && is_forged <==> outcome == Err::<route_state::RouteSyncOutcome, EdgeError>(
                EdgeError::RouteKeyMismatch,
            )
            &&& outcome is Err ==> (!keys.contains_key(from) && is_own) || (keys.contains_key(from) && is_forged)
            &&& !is_own ==> outcome is Ok && !outcome->Ok_0.route_changed && after.peer_infos == group.peer_infos
                && after.topology_version == group.topology_version
        }),
{
    lemma_absorbing_refuses(opened(group, from, request, clock_ms), from, infos_of(request), clock_ms);
}

/// A request opens or continues the session that it names: the relay answers with the
/// session of its own last update, and takes the part that the peer leaves it. A session
/// under another name starts over; one under the same name goes on.
pub proof fn law_request_opens_its_session(
    group: RouteGroupView,
    from: u32,
    request: SyncRouteInfoRequestView,
    my_peer_id: u32,
    clock_ms: u64,
)
    ensures
        ({
            let (after, outcome) = group.handled(from, request, my_peer_id, clock_ms);
            let before = group.session(from);
            let now = after.session(from);
            let is_same = before.dst_session_id == Some(request.my_session_id);
            &&& after.sessions.contains_key(from)
            &&& now.dst_session_id == Some(request.my_session_id)
            &&& now.my_session_id == before.my_session_id
            &&& now.we_are_initiator == !request.is_initiator
            &&& now.last_touch_ms == clock_ms
            &&& is_same ==> now.last_topology_version == before.last_topology_version
            &&& now.last_topology_touch_ms == before.last_topology_touch_ms
            &&& !is_same ==> now.last_topology_version == 0
            &&& !is_same ==> forall|other: u32| !#[trigger] now.peer_info_ver_map.contains_key(other)
            &&& is_same ==> forall|other: u32|
                other != from ==> (#[trigger] now.peer_info_ver_map.contains_key(other)
                    <==> before.peer_info_ver_map.contains_key(other))
            &&& forall|other: u32| #[trigger]
                now.peer_info_ver_map.contains_key(other) ==> now.peer_info_ver_map[other]
                    == before.peer_info_ver_map[other]
            &&& outcome matches Ok(answer) ==> {
                &&& answer.session_changed == !is_same
                &&& answer.response.error is None
                &&& answer.response.is_initiator == !request.is_initiator
                &&& before.my_session_id is Some ==> Some(answer.response.session_id) == before.my_session_id
                &&& before.my_session_id is None ==> answer.response.session_id == 1
            }
        }),
{
    let joined = opened(group, from, request, clock_ms);
    lemma_absorbing_keeps(joined, from, infos_of(request), clock_ms);
    let taken = route_state::absorbed(joined, from, infos_of(request), clock_ms).group;
    assert(joined.sessions.contains_key(from));
    assert(taken.sessions.contains_key(from));
    assert(same_but_for(joined.sessions[from], taken.sessions[from], from));
    let before = group.session(from);
    if before.dst_session_id == Some(request.my_session_id) {
        let now = taken.sessions[from];
        assert(joined.sessions[from].peer_info_ver_map == before.peer_info_ver_map);
        assert forall|other: u32| other != from implies (#[trigger] now.peer_info_ver_map.contains_key(other)
            <==> before.peer_info_ver_map.contains_key(other)) by {
            assert(joined.sessions[from].peer_info_ver_map.contains_key(other)
                <==> before.peer_info_ver_map.contains_key(other));
        }
    }
    assert(group.handled(from, request, my_peer_id, clock_ms).0.sessions == taken.sessions);
}

/// A request leaves the sessions of other peers as they are, except that they forget what
/// was told of a peer that has started anew; it makes and drops none of them.
pub proof fn law_request_keeps_other_sessions(
    group: RouteGroupView,
    from: u32,
    request: SyncRouteInfoRequestView,
    my_peer_id: u32,
    clock_ms: u64,
    other: u32,
)
    requires
        other != from,
    ensures
        ({
            let after = group.handled(from, request, my_peer_id, clock_ms).0;
            &&& after.sessions.contains_key(other) <==> group.sessions.contains_key(other)
            &&& group.sessions.contains_key(other) ==> same_but_for(
                group.sessions[other],
                after.sessions[other],
                from,
            )
        }),
{
    let joined = opened(group, from, request, clock_ms);
    lemma_absorbing_keeps(joined, from, infos_of(request), clock_ms);
    let taken = route_state::absorbed(joined, from, infos_of(request), clock_ms).group;
    assert(group.handled(from, request, my_peer_id, clock_ms).0.sessions == taken.sessions);
    assert(joined.sessions.contains_key(other) <==> group.sessions.contains_key(other));
    assert(taken.sessions.contains_key(other) <==> joined.sessions.dom().contains(other));
}

/// A request is refused, and changes nothing, if it names another peer than the one that
/// has sent it.
pub proof fn law_request_is_in_own_name(
    state: RouteStateView,
    key: Seq<char>,
    from: u32,
    request: SyncRouteInfoRequestView,
    words: Seq<u32>,
    clock_ms: u64,
)
    ensures
        request.my_peer_id != from ==> state.synced(key, from, request, words, clock_ms) == (
            state,
            Err::<route_state::RouteSyncOutcome, EdgeError>(EdgeError::RoutePeerMismatch),
        ),
        request.my_peer_id == from ==> {
            let (after, outcome) = state.synced(key, from, request, words, clock_ms);
            &&& after.groups.contains_key(key)
            &&& (after.groups[key], outcome) == state.group(key, words).handled(
                from,
                request,
                state.my_peer_id,
                clock_ms,
            )
        },
{
}

/// A change of what the relay publishes is due for every peer that was told all before: the
/// version goes up with each change, and the changed field alone has a new value.
pub proof fn law_changed_field_is_due(
    state: RouteStateView,
    key: Seq<char>,
    field: Seq<char>,
    value: Seq<char>,
    words: Seq<u32>,
    target: u32,
    clock_ms: u64,
)
    requires
        state.group(key, words).my_info_version < u32::MAX,
        state.group(key, words).my_info.version == state.group(key, words).my_info_version,
        state.with_field(key, field, value, words).1 is Ok,
    ensures
        ({
            let before = state.group(key, words);
            let after = state.with_field(key, field, value, words).0.groups[key];
            let told = before.session(target).told_version(state.my_peer_id, clock_ms);
            &&& after.my_info.version == before.my_info.version + 1
            &&& after.my_info_version == after.my_info.version
            &&& target != state.my_peer_id && told <= before.my_info.version ==> after.is_due(
                state.my_peer_id,
                target,
                false,
                state.my_peer_id,
                clock_ms,
            )
            &&& field == "hostname"@ ==> after.my_info == RoutePeerInfoView {
                hostname: Some(value),
                version: after.my_info.version,
                ..before.my_info
            }
            &&& field == "network_length"@ ==> Some(after.my_info.network_length) == text::parsed_u32(value)
                && after.my_info == RoutePeerInfoView {
                network_length: after.my_info.network_length,
                version: after.my_info.version,
                ..before.my_info
            }
            &&& field == "ipv4_addr"@ ==> text::parsed_u32(value) is Some && after.my_info == RoutePeerInfoView {
                ipv4_addr: Some(Ipv4Addr { addr: text::parsed_u32(value)->0 }),
                version: after.my_info.version,
                ..before.my_info
            }
            &&& after == RouteGroupView {
                my_info: after.my_info,
                my_info_version: after.my_info_version,
                ..before
            }
        }),
{
    lemma_field_names();
}

/// A field is changed exactly if it is one of three, and a number is given where one is
/// wanted; what is refused leaves all that is published as it was.
pub proof fn law_refused_field_changes_nothing(
    state: RouteStateView,
    key: Seq<char>,
    field: Seq<char>,
    value: Seq<char>,
    words: Seq<u32>,
)
    ensures
        ({
            let (after, outcome) = state.with_field(key, field, value, words);
            let is_number = text::parsed_u32(value) is Some;
            &&& field == "hostname"@ ==> outcome is Ok
            &&& field == "network_length"@ ==> (outcome is Ok <==> is_number)
            &&& field == "ipv4_addr"@ ==> (outcome is Ok <==> is_number)
            &&& field == "network_length"@ && !is_number ==> outcome == Err::<(), EdgeError>(
                EdgeError::InvalidNetworkLength,
            )
            &&& field == "ipv4_addr"@ && !is_number ==> outcome == Err::<(), EdgeError>(EdgeError::InvalidIpv4Addr)
            &&& field != "hostname"@ && field != "network_length"@ && field != "ipv4_addr"@ <==> outcome == Err::<
                (),
                EdgeError,
            >(EdgeError::UnknownField)
            &&& outcome is Err ==> after.group(key, words) == state.group(key, words)
        }),
{
    lemma_field_names();
}

/// The names of the fields are different.
proof fn lemma_field_names()
    ensures
        "hostname"@ != "network_length"@,
        "hostname"@ != "ipv4_addr"@,
        "network_length"@ != "ipv4_addr"@,
{
    reveal_strlit("hostname");
    reveal_strlit("network_length");
    reveal_strlit("ipv4_addr");
    assert("hostname"@.len() == 8);
    assert("network_length"@.len() == 14);
    assert("ipv4_addr"@.len() == 9);
}

/// The relay publishes the key that it is given, if it has the right length; the change is
/// due for every peer that was told all before.
pub proof fn law_published_key_is_due(
    state: RouteStateView,
    key: Seq<char>,
    public_key: Seq<u8>,
    words: Seq<u32>,
    target: u32,
    clock_ms: u64,
)
    ensures
        ({
            let before = state.group(key, words);
            let (next, outcome) = state.with_noise_key(key, public_key, words);
            let after = next.groups[key];
            let told = before.session(target).told_version(state.my_peer_id, clock_ms);
            &&& outcome is Ok <==> public_key.len() == 32
            &&& outcome is Err ==> next == state && outcome == Err::<(), EdgeError>(EdgeError::NoiseKeyLength)
            &&& outcome is Ok ==> after.my_info.noise_static_pubkey == public_key
            &&& outcome is Ok ==> after == RouteGroupView {
                my_info: RoutePeerInfoView {
                    noise_static_pubkey: public_key,
                    version: after.my_info.version,
                    ..before.my_info
                },
                my_info_version: after.my_info_version,
                ..before
            }
            &&& outcome is Ok ==> after.my_info.version == after.my_info_version
            &&& outcome is Ok && before.my_info_version < u32::MAX ==> after.my_info_version
                == before.my_info_version + 1
            &&& outcome is Ok && before.my_info_version < u32::MAX && before.my_info.version == before.my_info_version
                && target != state.my_peer_id && told <= before.my_info.version ==> after.is_due(
                state.my_peer_id,
                target,
                false,
                state.my_peer_id,
                clock_ms,
            )
        }),
{
}

/// What a peer has taken in counts as told from then on: of each peer in the update at
/// least the version in it, and the topology in it; what the update does not name stays as
/// it was, and no other session changes.
pub proof fn law_acknowledgement_is_remembered(
    state: RouteStateView,
    key: Seq<char>,
    peer_id: u32,
    versions: Seq<(u32, u32)>,
    topology_version: Option<u64>,
    words: Seq<u32>,
    clock_ms: u64,
    named: u32,
    other: u32,
)
    requires
        other != peer_id,
    ensures
        ({
            let before = state.group(key, words);
            let after = state.committed(key, peer_id, versions, topology_version, words, clock_ms).groups[key];
            let was = before.session(peer_id);
            let now = after.session(peer_id);
            let is_named = exists|i: int| 0 <= i < versions.len() && (#[trigger] versions[i]).0 == named;
            &&& after.sessions.contains_key(peer_id)
            &&& after.session(other) == before.session(other)
            &&& after == RouteGroupView { sessions: after.sessions, ..before }
            &&& now.my_session_id == was.my_session_id
            &&& now.dst_session_id == was.dst_session_id
            &&& now.we_are_initiator == was.we_are_initiator
            &&& now.last_touch_ms == clock_ms
            &&& now.peer_info_ver_map.contains_key(named) <==> was.peer_info_ver_map.contains_key(named) || is_named
            &&& !is_named && was.peer_info_ver_map.contains_key(named) ==> now.peer_info_ver_map[named]
                == was.peer_info_ver_map[named]
            &&& is_named ==> now.peer_info_ver_map[named].touched_at_ms == clock_ms
            &&& is_named && was.peer_info_ver_map.contains_key(named) ==> now.peer_info_ver_map[named].version
                >= was.peer_info_ver_map[named].version
            &&& forall|i: int|
                0 <= i < versions.len() && (#[trigger] versions[i]).0 == named ==> now.peer_info_ver_map[named].version
                    >= versions[i].1
            &&& is_named ==> {
                ||| was.peer_info_ver_map.contains_key(named) && now.peer_info_ver_map[named].version
                    == was.peer_info_ver_map[named].version
                ||| exists|i: int|
                    0 <= i < versions.len() && (#[trigger] versions[i]).0 == named
                        && now.peer_info_ver_map[named].version == versions[i].1
            }
            &&& topology_version is None ==> now.last_topology_version == was.last_topology_version
                && now.last_topology_touch_ms == was.last_topology_touch_ms
            &&& topology_version matches Some(version) ==> now.last_topology_touch_ms == clock_ms
                && now.last_topology_version >= version && now.last_topology_version >= was.last_topology_version && (
            now.last_topology_version == version || now.last_topology_version == was.last_topology_version)
        }),
{
    lemma_versions_are_saved(state.group(key, words).session(peer_id).peer_info_ver_map, versions, clock_ms, named);
}

proof fn lemma_versions_are_saved(
    saved: Map<u32, SavedVersion>,
    versions: Seq<(u32, u32)>,
    clock_ms: u64,
    named: u32,
)
    ensures
        ({
            let now = route_state::saved_versions(saved, versions, clock_ms);
            let is_named = exists|i: int| 0 <= i < versions.len() && (#[trigger] versions[i]).0 == named;
            &&& now.contains_key(named) <==> saved.contains_key(named) || is_named
            &&& !is_named && saved.contains_key(named) ==> now[named] == saved[named]
            &&& is_named ==> now[named].touched_at_ms == clock_ms
            &&& is_named && saved.contains_key(named) ==> now[named].version >= saved[named].version
            &&& forall|i: int|
                0 <= i < versions.len() && (#[trigger] versions[i]).0 == named ==> now[named].version >= versions[i].1
            &&& is_named ==> {
                ||| saved.contains_key(named) && now[named].version == saved[named].version
                ||| exists|i: int|
                    0 <= i < versions.len() && (#[trigger] versions[i]).0 == named && now[named].version
                        == versions[i].1
            }
        }),
    decreases versions.len(),
{
    if versions.len() > 0 {
        let earlier = versions.drop_last();
        let last = versions.len() - 1;
        lemma_versions_are_saved(saved, earlier, clock_ms, named);
        assert forall|i: int| 0 <= i < earlier.len() implies #[trigger] versions[i] == earlier[i] by {}
        if exists|i: int| 0 <= i < earlier.len() && (#[trigger] earlier[i]).0 == named {
            let i = choose|i: int| 0 <= i < earlier.len() && (#[trigger] earlier[i]).0 == named;
            assert(versions[i].0 == named);
        }
        if exists|i: int| 0 <= i < versions.len() && (#[trigger] versions[i]).0 == named {
            let i = choose|i: int| 0 <= i < versions.len() && (#[trigger] versions[i]).0 == named;
            if i < last {
                assert(earlier[i].0 == named);
            }
        }
        let before = route_state::saved_versions(saved, earlier, clock_ms);
        let now = route_state::saved_versions(saved, versions, clock_ms);
        assert forall|i: int| 0 <= i < versions.len() && (#[trigger] versions[i]).0 == named implies now[named].version
            >= versions[i].1 by {
            if i < last {
                assert(earlier[i].0 == named);
                assert(before[named].version >= earlier[i].1);
            }
        }
        if exists|i: int|
            0 <= i < earlier.len() && (#[trigger] earlier[i]).0 == named && before[named].version == earlier[i].1 {
            let i = choose|i: int|
                0 <= i < earlier.len() && (#[trigger] earlier[i]).0 == named && before[named].version == earlier[i].1;
            assert(versions[i].0 == named && versions[i].1 == before[named].version);
        }
        assert(versions[last] == versions.last());
    }
}

/// An answer names the session that the peer uses: under another name it starts over,
/// under the same name all that was told stays told. No other session changes.
pub proof fn law_answer_opens_its_session(
    state: RouteStateView,
    key: Seq<char>,
    peer_id: u32,
    session_id: u64,
    we_are_initiator: bool,
    words: Seq<u32>,
    clock_ms: u64,
    other: u32,
)
    requires
        other != peer_id,
    ensures
        ({
            let before = state.group(key, words);
            let after = state.acked(key, peer_id, session_id, we_are_initiator, words, clock_ms).groups[key];
            let was = before.session(peer_id);
            let now = after.session(peer_id);
            let is_same = was.dst_session_id == Some(session_id);
            &&& after.sessions.contains_key(peer_id)
            &&& after.session(other) == before.session(other)
            &&& after == RouteGroupView { sessions: after.sessions, ..before }
            &&& now.dst_session_id == Some(session_id)
            &&& now.we_are_initiator == we_are_initiator
            &&& now.last_touch_ms == clock_ms
            &&& now.my_session_id == was.my_session_id
            &&& now.last_topology_touch_ms == was.last_topology_touch_ms
            &&& is_same ==> now.peer_info_ver_map == was.peer_info_ver_map && now.last_topology_version
                == was.last_topology_version
            &&& !is_same ==> now.peer_info_ver_map.dom() =~= Set::empty() && now.last_topology_version == 0
        }),
{
}

/// Of several informations in one request each is taken in in turn, on top of those before
/// it: one more information of the peer itself replaces what is known then exactly if it is
/// newer, and one of another peer changes nothing.
pub proof fn law_informations_are_taken_in_turn(
    group: RouteGroupView,
    from: u32,
    request: SyncRouteInfoRequestView,
    info: RoutePeerInfoView,
    my_peer_id: u32,
    clock_ms: u64,
)
    requires
        request.peer_infos is Some,
        group.handled(from, request, my_peer_id, clock_ms).1 is Ok,
        info.peer_id == from ==> group.authenticated_peer_keys.contains_key(from)
            && group.authenticated_peer_keys[from] == info.noise_static_pubkey,
    ensures
        ({
            let longer = SyncRouteInfoRequestView { peer_infos: Some(request.peer_infos->0.push(info)), ..request };
            let (before, earlier) = group.handled(from, request, my_peer_id, clock_ms);
            let (after, outcome) = group.handled(from, longer, my_peer_id, clock_ms);
            let current = before.peer_infos[from];
            let is_newer = info.peer_id == from && (!before.peer_infos.contains_key(from) || current.inst_id
                != info.inst_id || current.version < info.version);
            &&& outcome is Ok
            &&& outcome->Ok_0.route_changed == (earlier->Ok_0.route_changed || is_newer)
            &&& outcome->Ok_0.session_changed == earlier->Ok_0.session_changed
            &&& !is_newer ==> after.peer_infos == before.peer_infos
            &&& is_newer ==> after.peer_infos.contains_key(from) && after.peer_infos[from] == RoutePeerInfoView {
                last_update: Some(Timestamp { seconds: (clock_ms / 1000) as i64, nanos: 0 }),
                ..info
            }
            &&& forall|other: u32|
                other != from ==> (#[trigger] after.peer_infos.contains_key(other) <==> before.peer_infos.contains_key(
                    other,
                )) && after.peer_infos[other] == before.peer_infos[other]
        }),
{
    let infos = request.peer_infos->0;
    let longer = infos.push(info);
    let joined = opened(group, from, request, clock_ms);
    assert(longer.drop_last() =~= infos);
    assert(longer.last() == info);
    lemma_absorbing_keeps(joined, from, infos, clock_ms);
}

/// A network of which nothing is known has no members, no sessions and no topology but the
/// first; the relay publishes itself there under its id.
pub proof fn law_new_network_is_empty(state: RouteStateView, key: Seq<char>, words: Seq<u32>)
    requires
        !state.groups.contains_key(key),
    ensures
        ({
            let group = state.group(key, words);
            &&& forall|id: u32| !#[trigger] group.peers.contains(id)
            &&& forall|id: u32| !#[trigger] group.peer_infos.contains_key(id)
            &&& forall|id: u32| !#[trigger] group.authenticated_peer_keys.contains_key(id)
            &&& forall|id: u32| !#[trigger] group.sessions.contains_key(id)
            &&& forall|id: u32| #[trigger] group.conn_version(id) == 1
            &&& group.topology_version == 1
            &&& group.cached_conn_bitmap is None
            &&& group.cached_conn_peer_list is None
            &&& group.my_info.peer_id == state.my_peer_id
            &&& group.my_info.version == group.my_info_version
            &&& group.my_info_version == 1
            &&& group.my_info.inst_id matches Some(id) && id.part1 == words[0] && id.part2 == words[1] && id.part3
                == words[2] && id.part4 == words[3]
            &&& group.my_info.peer_route_id == words[4] * 0x1_0000_0000 + words[5]
            &&& group.my_info.feature_flag matches Some(flag) && flag.is_public_server && flag.support_conn_list_sync
                && flag.disable_p2p && !flag.avoid_relay_data
        }),
{
}

/// A number is given in digits, after at most one plus sign; each digit counts ten times as
/// much as the one behind it, and a number that does not fit is none.
pub proof fn law_numbers_are_decimal(digits: Seq<char>, digit: char)
    requires
        digits.len() > 0,
        forall|i: int| 0 <= i < digits.len() ==> '0' <= (#[trigger] digits[i]) <= '9',
        '0' <= digit <= '9',
    ensures
        ({
            let value = text::parsed_u32(digits);
            let longer = text::parsed_u32(digits.push(digit));
            &&& text::parsed_u32(seq!['+'] + digits) == value
            &&& text::parsed_u32(seq![digit]) == Some((digit as u32 - '0' as u32) as u32)
            &&& longer is Some ==> value is Some && longer->0 == 10 * value->0 + (digit as u32 - '0' as u32)
            &&& value is Some && 10 * value->0 + (digit as u32 - '0' as u32) <= u32::MAX ==> longer is Some
            &&& text::parsed_u32(Seq::empty()) is None
            &&& text::parsed_u32(seq!['+']) is None
        }),
{
    let longer = digits.push(digit);
    assert(longer.drop_last() =~= digits);
    assert(text::all_digits(digits));
    assert(text::all_digits(longer));
    assert((seq!['+'] + digits).skip(1) =~= digits);
    assert(seq![digit].drop_last() =~= Seq::<char>::empty());
    reveal_with_fuel(text::digits_value, 2);
    assert(seq!['+'].skip(1) =~= Seq::<char>::empty());
    assert(digits[0] != '+');
    assert(longer[0] == digits[0]);
}

/// A text with any other character is no number.
pub proof fn law_other_texts_are_no_numbers(value: Seq<char>, i: int)
    requires
        0 <= i < value.len(),
        !('0' <= value[i] <= '9'),
        i > 0 || value[i] != '+',
    ensures
        text::parsed_u32(value) is None,
{
    if value[0] == '+' {
        assert(value.skip(1)[i - 1] == value[i]);
    }
}

} // verus!
