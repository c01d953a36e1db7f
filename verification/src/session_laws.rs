//! What holds of the sessions as a whole, whatever connections use them.
use vstd::prelude::*;

use crate::crypto;
use crate::error::EdgeError;
use crate::packet;
use crate::proto::SessionAction;
use crate::replay;
use crate::secure;
use crate::secure::PeerView;
use crate::session;
use crate::session::{SelectionView, SessionKeyView, Sessions, StoredView};
use crate::traffic;
use crate::traffic::TrafficView;

verus! {

/// What is done with the sessions: a connection sends or receives a packet, or a peer
/// that connects asks for its session, gets a new one, joins it, leaves it or is bound to
/// its key.
pub enum Use {
    Encrypted { peer: PeerView, bytes: Seq<u8>, clock_ms: u64 },
    Decrypted { peer: PeerView, bytes: Seq<u8>, clock_ms: u64 },
    Asked { key: SessionKeyView, generation: Option<u32>, client_algorithm: Seq<char>, clock_ms: u64 },
    Created { key: SessionKeyView, client_algorithm: Seq<char>, root_key: Seq<u8>, clock_ms: u64 },
    Attached { key: SessionKeyView, clock_ms: u64 },
    Detached { key: SessionKeyView, clock_ms: u64 },
    Confirmed { key: SessionKeyView, remote_public_key: Seq<u8>, clock_ms: u64 },
}

impl Use {
    /// The sessions afterwards.
    pub open spec fn applied(self, sessions: Sessions) -> Sessions {
        match self {
            Use::Encrypted { peer, bytes, clock_ms } => secure::packet_encrypted(peer, sessions, bytes, clock_ms).1,
            Use::Decrypted { peer, bytes, clock_ms } => secure::packet_decrypted(peer, sessions, bytes, clock_ms).1,
            Use::Asked { key, generation, client_algorithm, clock_ms } => session::reused(
                sessions,
                key,
                generation,
                client_algorithm,
                clock_ms,
            ).0,
            Use::Created { key, client_algorithm, root_key, clock_ms } => sessions.insert(
                key,
                StoredView::created(client_algorithm, root_key, clock_ms),
            ),
            Use::Attached { key, clock_ms } => session::joined(sessions, key, clock_ms).0,
            Use::Detached { key, clock_ms } => session::left(sessions, key, clock_ms),
            Use::Confirmed { key, remote_public_key, clock_ms } => session::bound(
                sessions,
                key,
                remote_public_key,
                clock_ms,
            ).0,
        }
    }

    /// Whether a session is made anew.
    pub open spec fn creates(self, session_key: SessionKeyView) -> bool {
        self matches Use::Created { key, .. } && key == session_key
    }

    /// Whether a connection of a session sends a packet.
    pub open spec fn sends_in(self, session_key: SessionKeyView) -> bool {
        self matches Use::Encrypted { peer, .. } && peer.session_key == Some(session_key)
    }

    /// The direction of the packet that is sent.
    pub open spec fn direction(self) -> int {
        let header = packet::header_of(self->Encrypted_bytes);
        crypto::direction_of(header.from_peer_id, header.to_peer_id)
    }
}

/// The sessions once the first `count` uses have been made of them.
pub open spec fn after_uses(sessions: Sessions, uses: Seq<Use>, count: nat) -> Sessions
    decreases count,
{
    if count == 0 {
        sessions
    } else {
        uses[count - 1].applied(after_uses(sessions, uses, (count - 1) as nat))
    }
}

/// The encrypted packet that goes out at `index`, where a connection sends one.
pub open spec fn packet_at(sessions: Sessions, uses: Seq<Use>, index: int) -> Result<Seq<u8>, EdgeError> {
    secure::packet_encrypted(
        uses[index]->Encrypted_peer,
        after_uses(sessions, uses, index as nat),
        uses[index]->Encrypted_bytes,
        uses[index]->Encrypted_clock_ms,
    ).2
}

/// Before the use at `index`, a session has neither used nor seen the last epoch.
pub open spec fn epochs_are_left(sessions: Sessions, uses: Seq<Use>, key: SessionKeyView, index: int) -> bool {
    let before = after_uses(sessions, uses, index as nat)[key].traffic;
    before.rx.latest_epoch(before.send_epoch) < u32::MAX
}

/// A session goes on: it has the same root key, and its packets are numbered on.
pub open spec fn goes_on(before: StoredView, after: StoredView, direction: int) -> bool {
    &&& after.root_key == before.root_key
    &&& after.traffic.send_seq.len() == 2
    &&& traffic::no_earlier(before.traffic, after.traffic, direction)
}

proof fn lemma_session_goes_on(sessions: Sessions, action: Use, key: SessionKeyView, direction: int)
    requires
        !action.creates(key),
        0 <= direction < 2,
        action.applied(sessions).contains_key(key),
        sessions[key].traffic.send_seq.len() == 2,
        sessions[key].traffic.rx.latest_epoch(sessions[key].traffic.send_epoch) < u32::MAX,
    ensures
        sessions.contains_key(key),
        goes_on(sessions[key], action.applied(sessions)[key], direction),
{
}

proof fn lemma_sessions_go_on(
    sessions: Sessions,
    uses: Seq<Use>,
    key: SessionKeyView,
    direction: int,
    from: nat,
    to: nat,
)
    requires
        from <= to <= uses.len(),
        0 <= direction < 2,
        forall|i: int| from <= i < to ==> !(#[trigger] uses[i]).creates(key),
        forall|i: int| from <= i < to ==> #[trigger] epochs_are_left(sessions, uses, key, i),
        after_uses(sessions, uses, from)[key].traffic.send_seq.len() == 2,
        after_uses(sessions, uses, to).contains_key(key),
    ensures
        after_uses(sessions, uses, from).contains_key(key),
        goes_on(after_uses(sessions, uses, from)[key], after_uses(sessions, uses, to)[key], direction),
    decreases to,
{
    if from < to {
        let index = to - 1;
        let before = after_uses(sessions, uses, index as nat);
        assert(epochs_are_left(sessions, uses, key, index));
        assert(!uses[index].creates(key));
        if !before.contains_key(key) {
            lemma_absent_stays_absent(before, uses[index], key);
        }
        lemma_sessions_go_on(sessions, uses, key, direction, from, index as nat);
        lemma_session_goes_on(before, uses[index], key, direction);
    }
}

proof fn lemma_absent_stays_absent(sessions: Sessions, action: Use, key: SessionKeyView)
    requires
        !action.creates(key),
        !sessions.contains_key(key),
    ensures
        !action.applied(sessions).contains_key(key),
{
}

proof fn lemma_sessions_keep_directions(sessions: Sessions, uses: Seq<Use>, key: SessionKeyView, count: nat)
    requires
        session::is_valid(sessions),
        count <= uses.len(),
        after_uses(sessions, uses, count).contains_key(key),
    ensures
        after_uses(sessions, uses, count)[key].traffic.send_seq.len() == 2,
    decreases count,
{
    if count > 0 {
        let index = count - 1;
        let before = after_uses(sessions, uses, index as nat);
        if before.contains_key(key) {
            lemma_sessions_keep_directions(sessions, uses, key, index as nat);
        } else if !uses[index].creates(key) {
            lemma_absent_stays_absent(before, uses[index], key);
        }
    }
}

/// A packet that a connection of a session sends carries the next number of the session
/// in its nonce, and the session goes on with the number after that.
proof fn lemma_packet_takes_a_number(sessions: Sessions, action: Use, key: SessionKeyView)
    requires
        action.sends_in(key),
        sessions[key].traffic.send_seq.len() == 2,
        secure::packet_encrypted(
            action->Encrypted_peer,
            sessions,
            action->Encrypted_bytes,
            action->Encrypted_clock_ms,
        ).2 is Ok,
    ensures
        sessions.contains_key(key),
        ({
            let packet = secure::packet_encrypted(
                action->Encrypted_peer,
                sessions,
                action->Encrypted_bytes,
                action->Encrypted_clock_ms,
            ).2->Ok_0;
            let now = sessions[key].traffic.rotated(action->Encrypted_clock_ms);
            let after = action.applied(sessions)[key].traffic;
            let d = action.direction();
            &&& traffic::nonce_part(packet.skip(packet::HEADER_SIZE as int)) == traffic::nonce_of(
                now.send_epoch,
                now.send_seq[d],
            )
            &&& after.send_epoch == now.send_epoch
            &&& after.send_seq.len() == 2
            &&& after.send_seq[d] == now.send_seq[d] + 1
        }),
{
    let bytes = action->Encrypted_bytes;
    let header = packet::header_of(bytes);
    let text = bytes.skip(packet::HEADER_SIZE as int);
    let stored = sessions[key];
    let (after, outcome) = stored.traffic.encrypted(
        stored.root_key,
        "aes-gcm"@,
        action.direction(),
        text,
        action->Encrypted_clock_ms,
    );
    let payload = outcome->Ok_0;
    traffic::law_payload_carries_its_nonce(
        stored.traffic,
        stored.root_key,
        "aes-gcm"@,
        action.direction(),
        text,
        action->Encrypted_clock_ms,
    );
    let encrypted = secure::encrypted_header(header);
    packet::law_header_round_trip(encrypted, payload);
    assert((encrypted.encoded() + payload).skip(packet::HEADER_SIZE as int) =~= payload);
}

/// No two packets that connections of one session send in one direction have the same
/// nonce, whatever else is done with the sessions in between, by these connections or
/// others, and however often the session is synchronized anew; both are sent under the
/// same root key. That holds as long as the session is not made anew in between and the last
/// epoch has not been reached.
pub proof fn law_packets_of_a_session_have_their_own_nonces(
    sessions: Sessions,
    uses: Seq<Use>,
    key: SessionKeyView,
    first: int,
    second: int,
)
    requires
        session::is_valid(sessions),
        0 <= first < second < uses.len(),
        forall|i: int| first < i < second ==> !(#[trigger] uses[i]).creates(key),
        forall|i: int| first <= i <= second ==> #[trigger] epochs_are_left(sessions, uses, key, i),
        uses[first].sends_in(key),
        uses[second].sends_in(key),
        uses[first].direction() == uses[second].direction(),
        packet_at(sessions, uses, first) is Ok,
        packet_at(sessions, uses, second) is Ok,
    ensures
        after_uses(sessions, uses, first as nat)[key].root_key == after_uses(sessions, uses, second as nat)[key].root_key,
        traffic::nonce_part(packet_at(sessions, uses, first)->Ok_0.skip(packet::HEADER_SIZE as int))
            != traffic::nonce_part(packet_at(sessions, uses, second)->Ok_0.skip(packet::HEADER_SIZE as int)),
{
    let d = uses[first].direction();
    let before = after_uses(sessions, uses, first as nat);
    let between = after_uses(sessions, uses, (first + 1) as nat);
    let later = after_uses(sessions, uses, second as nat);
    assert(before.contains_key(key) && later.contains_key(key));
    lemma_sessions_keep_directions(sessions, uses, key, first as nat);
    lemma_packet_takes_a_number(before, uses[first], key);
    assert(epochs_are_left(sessions, uses, key, first));
    assert(epochs_are_left(sessions, uses, key, second));
    assert(between == uses[first].applied(before));
    lemma_session_goes_on(before, uses[first], key, d);
    lemma_sessions_go_on(sessions, uses, key, d, (first + 1) as nat, second as nat);
    lemma_packet_takes_a_number(later, uses[second], key);
    let one = before[key].traffic.rotated(uses[first]->Encrypted_clock_ms);
    let two = later[key].traffic.rotated(uses[second]->Encrypted_clock_ms);
    assert(two.send_epoch > one.send_epoch || two.send_seq[d] > one.send_seq[d]);
    if traffic::nonce_of(one.send_epoch, one.send_seq[d]) == traffic::nonce_of(two.send_epoch, two.send_seq[d]) {
        traffic::law_nonce_is_unique(one.send_epoch, one.send_seq[d], two.send_epoch, two.send_seq[d]);
    }
}

/// A session is kept as long as a connection uses it, or if it was used within the last
/// minute.
pub open spec fn is_in_use(session: StoredView, clock_ms: u64) -> bool {
    session.attachments > 0 || clock_ms - session.last_touch_ms < 60_000
}

/// The generation that a peer is told is that of its session, so that the peer joins the
/// session when it asks again with the generation that it was told, with the same cipher
/// and in time: it goes on with the root key that it has, and nothing of the session
/// changes but the time of its last use.
pub proof fn law_told_generation_joins(
    sessions: Sessions,
    key: SessionKeyView,
    generation: Option<u32>,
    client_algorithm: Seq<char>,
    clock_ms: u64,
    again_ms: u64,
)
    requires
        session::reused(sessions, key, generation, client_algorithm, clock_ms).1 matches Ok(Some(_)),
        ({
            let after = session::reused(sessions, key, generation, client_algorithm, clock_ms).0;
            is_in_use(after[key], again_ms)
        }),
    ensures
        ({
            let (after, choice) = session::reused(sessions, key, generation, client_algorithm, clock_ms);
            let told = choice->Ok_0->0;
            let (later, again) = session::reused(after, key, Some(told.generation), client_algorithm, again_ms);
            &&& after.contains_key(key)
            &&& told.generation == after[key].generation
            &&& told.generation == sessions[key].generation
            &&& told.session_root_key == after[key].root_key
            &&& again matches Ok(Some(joining)) && joining.action == SessionAction::Join && joining.generation
                == told.generation && joining.session_root_key == told.session_root_key
                && joining.root_key_for_peer is None
            &&& later.contains_key(key)
            &&& later[key] == StoredView { last_touch_ms: again_ms, ..after[key] }
        }),
{
}

/// A peer that gets a new session is told a generation with which it joins that session
/// later, in time and with the same cipher, and the root key that the session uses.
pub proof fn law_created_session_is_joined(
    sessions: Sessions,
    key: SessionKeyView,
    client_algorithm: Seq<char>,
    root_key: Seq<u8>,
    clock_ms: u64,
    again_ms: u64,
)
    requires
        again_ms - clock_ms < 60_000,
    ensures
        ({
            let after = sessions.insert(key, StoredView::created(client_algorithm, root_key, clock_ms));
            let told = session::created_selection(root_key);
            let again = session::reused(after, key, Some(told.generation), client_algorithm, again_ms).1;
            &&& told.action == SessionAction::Create
            &&& told.root_key_for_peer == Some(root_key)
            &&& told.session_root_key == root_key
            &&& told.initial_epoch == after[key].traffic.send_epoch
            &&& after[key].root_key == root_key
            &&& after[key].remote_public_key is None
            &&& after[key].attachments == 0
            &&& after[key].traffic.is_shaped()
            &&& after[key].traffic.send_seq == seq![0u64, 0u64]
            &&& !after[key].traffic.rx.grace.valid
            &&& forall|d: int, i: int| 0 <= d < 2 && 0 <= i < 2 ==> !(#[trigger] after[key].traffic.rx.slots[d][i]).valid
            &&& again matches Ok(Some(joining)) && joining.action == SessionAction::Join && joining.session_root_key
                == root_key
        }),
{
    replay::law_slots_begin_in_order(replay::RxView::blank(), 0, 0);
}

/// What a peer gets that asks for its session is decided by what the relay keeps of it: a
/// session in use with another cipher is refused, one with the generation that the peer
/// knows is joined, any other is synchronized, and without a session in use the peer gets
/// a new one, as long as there is room among the sessions in use.
pub proof fn law_choice_follows_the_session(
    sessions: Sessions,
    key: SessionKeyView,
    generation: Option<u32>,
    client_algorithm: Seq<char>,
    clock_ms: u64,
)
    ensures
        ({
            let (after, choice) = session::reused(sessions, key, generation, client_algorithm, clock_ms);
            let stored = sessions[key];
            if sessions.contains_key(key) && is_in_use(stored, clock_ms) {
                if stored.client_algorithm != client_algorithm {
                    &&& choice == Err::<Option<SelectionView>, EdgeError>(EdgeError::AlgorithmChanged)
                    &&& after[key] == stored
                } else {
                    &&& choice matches Ok(Some(told)) && told.session_root_key == stored.root_key
                        && if generation == Some(stored.generation) {
                        told.action == SessionAction::Join && told.root_key_for_peer is None
                    } else {
                        told.action == SessionAction::Sync && told.root_key_for_peer == Some(stored.root_key)
                    }
                    &&& after.contains_key(key)
                    &&& after[key].last_touch_ms == clock_ms
                    &&& after[key].attachments == stored.attachments
                }
            } else {
                &&& !after.contains_key(key)
                &&& choice == if after.dom().len() >= 2_048 {
                    Err::<Option<SelectionView>, EdgeError>(EdgeError::SessionCapacityExceeded)
                } else {
                    Ok(None)
                }
            }
        }),
{
}

/// When a peer asks for its session, the sessions of others that are not in use any more
/// are dropped, and all others stay as they are.
pub proof fn law_asking_keeps_other_sessions(
    sessions: Sessions,
    key: SessionKeyView,
    generation: Option<u32>,
    client_algorithm: Seq<char>,
    clock_ms: u64,
    other: SessionKeyView,
)
    requires
        other != key,
    ensures
        ({
            let after = session::reused(sessions, key, generation, client_algorithm, clock_ms).0;
            &&& after.contains_key(other) <==> sessions.contains_key(other) && is_in_use(sessions[other], clock_ms)
            &&& after.contains_key(other) ==> after[other] == sessions[other]
        }),
{
}

/// A session that is synchronized keeps its keys and its ends, and starts over under an
/// epoch that is later than all that were used or seen, of which the peer is told. What
/// was received before stays known for the grace, so that what is still on its way is
/// taken in once.
pub proof fn law_synchronized_session_starts_over(
    sessions: Sessions,
    key: SessionKeyView,
    generation: Option<u32>,
    client_algorithm: Seq<char>,
    clock_ms: u64,
)
    requires
        session::reused(sessions, key, generation, client_algorithm, clock_ms).1 matches Ok(Some(told)) && told.action
            == SessionAction::Sync,
    ensures
        ({
            let (after, choice) = session::reused(sessions, key, generation, client_algorithm, clock_ms);
            let told = choice->Ok_0->0;
            let before = sessions[key];
            let now = after[key];
            let last = before.traffic.rx.latest_epoch(before.traffic.send_epoch);
            &&& now.root_key == before.root_key
            &&& now.generation == before.generation
            &&& now.client_algorithm == before.client_algorithm
            &&& now.remote_public_key == before.remote_public_key
            &&& told.initial_epoch == now.traffic.send_epoch
            &&& last < u32::MAX ==> now.traffic.send_epoch > before.traffic.send_epoch
            &&& last < u32::MAX ==> forall|d: int, i: int|
                0 <= d < 2 && 0 <= i < 2 && (#[trigger] before.traffic.rx.slots[d][i]).valid
                    ==> now.traffic.send_epoch > before.traffic.rx.slots[d][i].epoch
            &&& now.traffic.send_seq == seq![0u64, 0u64]
            &&& now.traffic.send_packets_since_epoch == 0
            &&& now.traffic.send_epoch_started_ms == clock_ms
            &&& now.traffic.decrypt_fail_count == 0
            &&& now.traffic.rx.grace.valid
            &&& now.traffic.rx.grace.slots == before.traffic.rx.slots
            &&& clock_ms + 5_000 <= u64::MAX ==> now.traffic.rx.grace.expires_at_ms
                == clock_ms + 5_000
            &&& forall|d: int, i: int| 0 <= d < 2 && 0 <= i < 2 ==> !(#[trigger] now.traffic.rx.slots[d][i]).valid
        }),
{
    let before = sessions[key];
    let slots = before.traffic.rx.slots;
    assert forall|d: int, i: int| 0 <= d < 2 && 0 <= i < 2 && (#[trigger] slots[d][i]).valid
        implies before.traffic.rx.latest_epoch(before.traffic.send_epoch) >= slots[d][i].epoch by {
        assert(d == 0 || d == 1);
        assert(i == 0 || i == 1);
    }
}

/// A session that a connection has joined is not dropped, however long it is silent; once
/// every connection that joined has left, it stays for another minute after the last one
/// left, and not longer.
pub proof fn law_joined_session_stays(
    sessions: Sessions,
    key: SessionKeyView,
    joined_ms: u64,
    left_ms: u64,
    later_ms: u64,
)
    requires
        session::joined(sessions, key, joined_ms).1 is Ok,
    ensures
        ({
            let during = session::joined(sessions, key, joined_ms).0;
            let after = session::left(during, key, left_ms);
            &&& during.contains_key(key)
            &&& is_in_use(during[key], later_ms)
            &&& during[key].attachments == sessions[key].attachments + 1
            &&& during[key].last_touch_ms == joined_ms
            &&& during[key] == StoredView {
                attachments: during[key].attachments,
                last_touch_ms: during[key].last_touch_ms,
                ..sessions[key]
            }
            &&& after.contains_key(key)
            &&& after[key] == StoredView { last_touch_ms: left_ms, ..sessions[key] }
            &&& sessions[key].attachments == 0 ==> (is_in_use(after[key], later_ms) <==> later_ms - left_ms
                < 60_000)
            &&& forall|other: SessionKeyView|
                other != key ==> (#[trigger] after.contains_key(other) <==> sessions.contains_key(other))
                    && after[other] == sessions[other]
        }),
{
}

/// A connection can join every session that is there, but for one with as many
/// connections as can be counted; a session that is gone cannot be joined, left, bound or
/// written.
pub proof fn law_missing_session_is_reported(
    sessions: Sessions,
    key: SessionKeyView,
    remote_public_key: Seq<u8>,
    packets: TrafficView,
    clock_ms: u64,
)
    ensures
        session::joined(sessions, key, clock_ms).1 is Ok <==> sessions.contains_key(key) && sessions[key].attachments
            < u32::MAX,
        sessions.contains_key(key) && sessions[key].attachments == u32::MAX ==> session::joined(
            sessions,
            key,
            clock_ms,
        ) == (sessions, Err::<(), EdgeError>(EdgeError::AttachmentsExhausted)),
        !sessions.contains_key(key) ==> {
            &&& session::joined(sessions, key, clock_ms) == (
                sessions,
                Err::<(), EdgeError>(EdgeError::SessionLostAttaching),
            )
            &&& session::left(sessions, key, clock_ms) == sessions
            &&& session::persisted(sessions, key, packets, clock_ms) == (
                sessions,
                Err::<(), EdgeError>(EdgeError::SessionLostSaving),
            )
            &&& session::bound(sessions, key, remote_public_key, clock_ms) == (
                sessions,
                Err::<(), EdgeError>(EdgeError::SessionLostAuthenticating),
            )
        },
{
}

/// Leaving a session that no connection uses leaves the count at zero.
pub proof fn law_count_never_falls_below_zero(sessions: Sessions, key: SessionKeyView, clock_ms: u64)
    requires
        sessions.contains_key(key),
    ensures
        ({
            let after = session::left(sessions, key, clock_ms);
            &&& after[key].attachments == if sessions[key].attachments == 0 {
                0int
            } else {
                sessions[key].attachments - 1
            }
            &&& after[key].last_touch_ms == clock_ms
        }),
{
}

/// A session is bound to the first key that its peer authenticates with: from then on that
/// key alone is taken, and any other one is refused and changes nothing.
pub proof fn law_session_is_bound_to_its_first_key(
    sessions: Sessions,
    key: SessionKeyView,
    first: Seq<u8>,
    other: Seq<u8>,
    first_ms: u64,
    other_ms: u64,
)
    requires
        sessions.contains_key(key),
        sessions[key].remote_public_key is None,
        first != other,
    ensures
        ({
            let (after, outcome) = session::bound(sessions, key, first, first_ms);
            &&& outcome is Ok
            &&& after[key] == StoredView { remote_public_key: Some(first), last_touch_ms: first_ms, ..sessions[key] }
            &&& session::bound(after, key, first, other_ms).1 is Ok
            &&& session::bound(after, key, first, other_ms).0[key].remote_public_key == Some(first)
            &&& session::bound(after, key, other, other_ms) == (
                after,
                Err::<(), EdgeError>(EdgeError::RemoteKeyChanged),
            )
            &&& forall|another: SessionKeyView|
                another != key ==> (#[trigger] after.contains_key(another) <==> sessions.contains_key(another))
                    && after[another] == sessions[another]
        }),
{
}

/// What is kept of the packets of a session is what the next connection loads, and nothing
/// else of the session changes but the time of its last use.
pub proof fn law_kept_packets_are_loaded(
    sessions: Sessions,
    key: SessionKeyView,
    packets: TrafficView,
    clock_ms: u64,
)
    requires
        sessions.contains_key(key),
    ensures
        ({
            let (after, outcome) = session::persisted(sessions, key, packets, clock_ms);
            &&& outcome is Ok
            &&& after[key] == StoredView { traffic: packets, last_touch_ms: clock_ms, ..sessions[key] }
            &&& forall|other: SessionKeyView|
                other != key ==> (#[trigger] after.contains_key(other) <==> sessions.contains_key(other))
                    && after[other] == sessions[other]
        }),
{
}

/// A peer that joins its session changes nothing of it but the time of its last use, and
/// goes on from where the session is.
pub proof fn law_joining_goes_on(
    sessions: Sessions,
    key: SessionKeyView,
    generation: Option<u32>,
    client_algorithm: Seq<char>,
    clock_ms: u64,
)
    requires
        session::reused(sessions, key, generation, client_algorithm, clock_ms).1 matches Ok(Some(told)) && told.action
            == SessionAction::Join,
    ensures
        ({
            let (after, choice) = session::reused(sessions, key, generation, client_algorithm, clock_ms);
            let told = choice->Ok_0->0;
            &&& sessions.contains_key(key)
            &&& generation == Some(sessions[key].generation)
            &&& sessions[key].client_algorithm == client_algorithm
            &&& after[key] == StoredView { last_touch_ms: clock_ms, ..sessions[key] }
            &&& told.generation == sessions[key].generation
            &&& told.initial_epoch == 0
        }),
{
}

} // verus!
