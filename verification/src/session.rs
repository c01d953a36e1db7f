//! The secure sessions that a relay keeps for its peers.
//!
//! A session outlives the connections that use it: a peer that reconnects joins
//! its session, or synchronizes it, and only a peer without one gets a new
//! session.
use vstd::prelude::*;

use crate::bytes;
use crate::collections;
use crate::collections::{Duplicate, MapKey, VecMap};
use crate::crypto;
use crate::error::EdgeError;
use crate::proto::SessionAction;
use crate::text;
use crate::traffic::{Traffic, TrafficView};

verus! {

pub const SESSION_IDLE_MS: u64 = 60_000;

pub const SYNC_RX_GRACE_AFTER_MS: u64 = 5_000;

pub const MAX_STORED_SESSIONS: usize = 2_048;

/// The two ends of a session, and the network that it belongs to.
#[derive(Debug)]
pub struct SessionKey {
    pub network_name: String,
    pub peer_id: u32,
    pub server_peer_id: u32,
    pub server_public_key: [u8; 32],
}

#[verifier::ext_equal]
pub struct SessionKeyView {
    pub network_name: Seq<char>,
    pub peer_id: u32,
    pub server_peer_id: u32,
    pub server_public_key: Seq<u8>,
}

impl View for SessionKey {
    type V = SessionKeyView;

    open spec fn view(&self) -> SessionKeyView {
        SessionKeyView {
            network_name: self.network_name@,
            peer_id: self.peer_id,
            server_peer_id: self.server_peer_id,
            server_public_key: self.server_public_key@,
        }
    }
}

impl Duplicate for SessionKey {
    fn duplicate(&self) -> (r: Self) {
        SessionKey {
            network_name: self.network_name.clone(),
            peer_id: self.peer_id,
            server_peer_id: self.server_peer_id,
            server_public_key: self.server_public_key,
        }
    }
}

impl MapKey for SessionKey {
    fn same(&self, other: &Self) -> (r: bool) {
        self.peer_id == other.peer_id && self.server_peer_id == other.server_peer_id && self.network_name
            == other.network_name && bytes::same_bytes(&self.server_public_key, &other.server_public_key)
    }
}

struct StoredSession {
    root_key: [u8; 32],
    generation: u32,
    traffic: Traffic,
    client_algorithm: String,
    remote_public_key: Option<[u8; 32]>,
    last_touch_ms: u64,
    attachments: u32,
}

#[verifier::ext_equal]
pub struct StoredView {
    pub root_key: Seq<u8>,
    pub generation: u32,
    pub traffic: TrafficView,
    pub client_algorithm: Seq<char>,
    pub remote_public_key: Option<Seq<u8>>,
    pub last_touch_ms: u64,
    pub attachments: u32,
}

impl View for StoredSession {
    type V = StoredView;

    closed spec fn view(&self) -> StoredView {
        StoredView {
            root_key: self.root_key@,
            generation: self.generation,
            traffic: self.traffic@,
            client_algorithm: self.client_algorithm@,
            remote_public_key: collections::option_view(self.remote_public_key),
            last_touch_ms: self.last_touch_ms,
            attachments: self.attachments,
        }
    }
}

/// The sessions, by their ends.
pub type Sessions = Map<SessionKeyView, StoredView>;

/// `a + b`, as far as it can be written.
pub open spec fn capped_sum(a: u64, b: u64) -> u64 {
    if a + b > u64::MAX {
        u64::MAX
    } else {
        (a + b) as u64
    }
}

impl StoredView {
    /// A new session.
    pub open spec fn created(client_algorithm: Seq<char>, root_key: Seq<u8>, clock_ms: u64) -> StoredView {
        StoredView {
            root_key,
            generation: 1,
            traffic: TrafficView::initial(clock_ms),
            client_algorithm,
            remote_public_key: None,
            last_touch_ms: clock_ms,
            attachments: 0,
        }
    }

    pub open spec fn touched(self, clock_ms: u64) -> StoredView {
        StoredView { last_touch_ms: clock_ms, ..self }
    }

    /// The session with one more connection.
    pub open spec fn attached(self, clock_ms: u64) -> StoredView {
        StoredView { attachments: (self.attachments + 1) as u32, ..self.touched(clock_ms) }
    }

    /// The session with one connection less.
    pub open spec fn detached(self, clock_ms: u64) -> StoredView {
        StoredView {
            attachments: if self.attachments == 0 {
                0
            } else {
                (self.attachments - 1) as u32
            },
            ..self.touched(clock_ms)
        }
    }

    /// The session once the peer has lost track of it.
    pub open spec fn synchronized(self, clock_ms: u64) -> StoredView {
        StoredView {
            traffic: self.traffic.synchronized(clock_ms, capped_sum(clock_ms, SYNC_RX_GRACE_AFTER_MS)),
            ..self.touched(clock_ms)
        }
    }
}

/// There are finitely many sessions, and the packet state of each is in shape.
pub open spec fn is_valid(sessions: Sessions) -> bool {
    &&& sessions.dom().finite()
    &&& forall|key: SessionKeyView| #[trigger] sessions.contains_key(key) ==> sessions[key].traffic.is_shaped()
}

/// Whether a session is kept: it has a connection, or had one lately.
pub open spec fn alive(clock_ms: u64) -> spec_fn(SessionKeyView, StoredView) -> bool {
    |key: SessionKeyView, session: StoredView|
        session.attachments > 0 || clock_ms - session.last_touch_ms < SESSION_IDLE_MS
}

/// What becomes of a peer's session when the peer connects.
#[derive(Debug, Clone, Copy)]
pub struct SessionSelection {
    pub action: SessionAction,
    pub generation: u32,
    pub root_key_for_peer: Option<[u8; 32]>,
    pub session_root_key: [u8; 32],
    pub initial_epoch: u32,
}

#[verifier::ext_equal]
pub struct SelectionView {
    pub action: SessionAction,
    pub generation: u32,
    pub root_key_for_peer: Option<Seq<u8>>,
    pub session_root_key: Seq<u8>,
    pub initial_epoch: u32,
}

impl View for SessionSelection {
    type V = SelectionView;

    open spec fn view(&self) -> SelectionView {
        SelectionView {
            action: self.action,
            generation: self.generation,
            root_key_for_peer: collections::option_view(self.root_key_for_peer),
            session_root_key: self.session_root_key@,
            initial_epoch: self.initial_epoch,
        }
    }
}

/// The choice of a peer that gets a new session.
pub open spec fn created_selection(root_key: Seq<u8>) -> SelectionView {
    SelectionView {
        action: SessionAction::Create,
        generation: 1,
        root_key_for_peer: Some(root_key),
        session_root_key: root_key,
        initial_epoch: 0,
    }
}

/// The sessions once a peer has asked for one, and its choice; no choice means
/// that the peer needs a new session.
pub open spec fn reused(
    sessions: Sessions,
    key: SessionKeyView,
    generation: Option<u32>,
    client_algorithm: Seq<char>,
    clock_ms: u64,
) -> (Sessions, Result<Option<SelectionView>, EdgeError>) {
    let kept = collections::kept(sessions, alive(clock_ms));
    let session = kept[key];
    if !kept.contains_key(key) {
        (
            kept,
            if kept.dom().len() >= MAX_STORED_SESSIONS {
                Err(EdgeError::SessionCapacityExceeded)
            } else {
                Ok(None)
            },
        )
    } else if session.client_algorithm != client_algorithm {
        (kept, Err(EdgeError::AlgorithmChanged))
    } else if generation == Some(session.generation) {
        (
            kept.insert(key, session.touched(clock_ms)),
            Ok(
                Some(
                    SelectionView {
                        action: SessionAction::Join,
                        generation: session.generation,
                        root_key_for_peer: None,
                        session_root_key: session.root_key,
                        initial_epoch: 0,
                    },
                ),
            ),
        )
    } else {
        let synchronized = session.synchronized(clock_ms);
        (
            kept.insert(key, synchronized),
            Ok(
                Some(
                    SelectionView {
                        action: SessionAction::Sync,
                        generation: session.generation,
                        root_key_for_peer: Some(session.root_key),
                        session_root_key: session.root_key,
                        initial_epoch: synchronized.traffic.send_epoch,
                    },
                ),
            ),
        )
    }
}

/// The sessions once a connection was to join one, and whether it did.
pub open spec fn joined(sessions: Sessions, key: SessionKeyView, clock_ms: u64) -> (Sessions, Result<(), EdgeError>) {
    if !sessions.contains_key(key) {
        (sessions, Err(EdgeError::SessionLostAttaching))
    } else if sessions[key].attachments == u32::MAX {
        (sessions, Err(EdgeError::AttachmentsExhausted))
    } else {
        (sessions.insert(key, sessions[key].attached(clock_ms)), Ok(()))
    }
}

/// The sessions once a connection has left one.
pub open spec fn left(sessions: Sessions, key: SessionKeyView, clock_ms: u64) -> Sessions {
    if sessions.contains_key(key) {
        sessions.insert(key, sessions[key].detached(clock_ms))
    } else {
        sessions
    }
}

/// The sessions once the packet state of one was to be kept, and whether it was.
pub open spec fn persisted(sessions: Sessions, key: SessionKeyView, traffic: TrafficView, clock_ms: u64) -> (
    Sessions,
    Result<(), EdgeError>,
) {
    if sessions.contains_key(key) {
        (sessions.insert(key, StoredView { traffic, ..sessions[key].touched(clock_ms) }), Ok(()))
    } else {
        (sessions, Err(EdgeError::SessionLostSaving))
    }
}

/// The sessions once one was to be bound to the key of its peer, and whether it was.
pub open spec fn bound(sessions: Sessions, key: SessionKeyView, remote_public_key: Seq<u8>, clock_ms: u64) -> (
    Sessions,
    Result<(), EdgeError>,
) {
    if !sessions.contains_key(key) {
        (sessions, Err(EdgeError::SessionLostAuthenticating))
    } else if sessions[key].remote_public_key matches Some(current) && current != remote_public_key {
        (sessions, Err(EdgeError::RemoteKeyChanged))
    } else {
        (
            sessions.insert(
                key,
                StoredView { remote_public_key: Some(remote_public_key), ..sessions[key].touched(clock_ms) },
            ),
            Ok(()),
        )
    }
}

/// The view of a choice, of no choice, or of an error.
pub open spec fn choice_view(r: Result<Option<SessionSelection>, EdgeError>) -> Result<Option<SelectionView>, EdgeError> {
    match r {
        Ok(Some(selection)) => Ok(Some(selection@)),
        Ok(None) => Ok(None),
        Err(error) => Err(error),
    }
}

/// The secure sessions of a relay.
pub struct SessionStore {
    sessions: VecMap<SessionKey, StoredSession>,
}

impl View for SessionStore {
    type V = Sessions;

    closed spec fn view(&self) -> Sessions {
        self.sessions@
    }
}

/// Every store is valid.
pub proof fn lemma_stores_are_valid()
    ensures
        forall|store: SessionStore| is_valid(#[trigger] store@),
{
    assert forall|store: SessionStore| is_valid(#[trigger] store@) by {
        let p = |session: StoredView| session.traffic.is_shaped();
        assert forall|session: StoredSession| p(#[trigger] session@) by {
            session.traffic.lemma_shaped();
        }
        store.sessions.lemma_values(p);
    }
}

impl SessionStore {
    pub fn new() -> (r: Self)
        ensures
            r@ == Map::<SessionKeyView, StoredView>::empty(),
            is_valid(r@),
    {
        SessionStore { sessions: VecMap::new() }
    }

    fn prune(&mut self, clock_ms: u64)
        ensures
            final(self)@ == collections::kept(old(self)@, alive(clock_ms)),
    {
        let is_kept = |key: &SessionKey, session: &StoredSession| -> (r: bool)
            ensures
                r == alive(clock_ms)(key@, session@),
        {
            session.attachments > 0 || clock_ms.saturating_sub(session.last_touch_ms) < SESSION_IDLE_MS
        };
        self.sessions.retain(is_kept, Ghost(alive(clock_ms)));
    }

    /// The session that a peer can go on with, if there is one.
    pub fn reuse_session(
        &mut self,
        key: &SessionKey,
        a_session_generation: Option<u32>,
        client_algorithm: &str,
        clock_ms: u64,
    ) -> (r: Result<Option<SessionSelection>, EdgeError>)
        ensures
            (final(self)@, choice_view(r)) == reused(
                old(self)@,
                key@,
                a_session_generation,
                client_algorithm@,
                clock_ms,
            ),
            is_valid(final(self)@),
    {
        proof {
            lemma_stores_are_valid();
        }
        self.prune(clock_ms);
        let count: usize = self.sessions.len();
        let session = match self.sessions.get_mut(key) {
            Some(session) => session,
            None => {
                if count >= MAX_STORED_SESSIONS {
                    return Err(EdgeError::SessionCapacityExceeded);
                }
                return Ok(None);
            },
        };
        if !text::same_text(session.client_algorithm.as_str(), client_algorithm) {
            assert(final(self)@ =~= collections::kept(old(self)@, alive(clock_ms)));
            return Err(EdgeError::AlgorithmChanged);
        }
        session.last_touch_ms = clock_ms;
        let joins = match a_session_generation {
            Some(generation) => generation == session.generation,
            None => false,
        };
        if joins {
            return Ok(
                Some(
                    SessionSelection {
                        action: SessionAction::Join,
                        generation: session.generation,
                        root_key_for_peer: None,
                        session_root_key: session.root_key,
                        initial_epoch: 0,
                    },
                ),
            );
        }
        session.traffic.synchronize(clock_ms, clock_ms.saturating_add(SYNC_RX_GRACE_AFTER_MS));
        Ok(
            Some(
                SessionSelection {
                    action: SessionAction::Sync,
                    generation: session.generation,
                    root_key_for_peer: Some(session.root_key),
                    session_root_key: session.root_key,
                    initial_epoch: session.traffic.send_epoch(),
                },
            ),
        )
    }

    /// A new session with a given root key.
    pub fn create_session(&mut self, key: &SessionKey, client_algorithm: &str, root_key: [u8; 32], clock_ms: u64) -> (r:
        SessionSelection)
        ensures
            r@ == created_selection(root_key@),
            final(self)@ == old(self)@.insert(
                key@,
                StoredView::created(client_algorithm@, root_key@, clock_ms),
            ),
            is_valid(final(self)@),
    {
        proof {
            lemma_stores_are_valid();
        }
        self.sessions.insert(
            key.duplicate(),
            StoredSession {
                root_key,
                generation: 1,
                traffic: Traffic::new(clock_ms),
                client_algorithm: client_algorithm.to_string(),
                remote_public_key: None,
                last_touch_ms: clock_ms,
                attachments: 0,
            },
        );
        SessionSelection {
            action: SessionAction::Create,
            generation: 1,
            root_key_for_peer: Some(root_key),
            session_root_key: root_key,
            initial_epoch: 0,
        }
    }

    /// The session of a peer that connects: its former one, or a new one with a
    /// random root key.
    pub fn upsert_session(
        &mut self,
        key: &SessionKey,
        a_session_generation: Option<u32>,
        client_algorithm: &str,
        clock_ms: u64,
    ) -> (r: Result<SessionSelection, EdgeError>)
        ensures
            ({
                let (sessions, choice) = reused(
                    old(self)@,
                    key@,
                    a_session_generation,
                    client_algorithm@,
                    clock_ms,
                );
                match choice {
                    Err(error) => r == Err::<SessionSelection, EdgeError>(error) && final(self)@ == sessions,
                    Ok(Some(selection)) => (r matches Ok(chosen) && chosen@ == selection) && final(self)@ == sessions,
                    Ok(None) => match r {
                        Ok(chosen) => chosen@ == created_selection(chosen.session_root_key@) && final(self)@
                            == sessions.insert(
                            key@,
                            StoredView::created(client_algorithm@, chosen.session_root_key@, clock_ms),
                        ),
                        Err(error) => error is Random && final(self)@ == sessions,
                    },
                }
            }),
            is_valid(final(self)@),
    {
        proof {
            lemma_stores_are_valid();
        }
        match self.reuse_session(key, a_session_generation, client_algorithm, clock_ms) {
            Ok(Some(selection)) => Ok(selection),
            Ok(None) => match crypto::random_bytes::<32>() {
                Ok(root_key) => Ok(self.create_session(key, client_algorithm, root_key, clock_ms)),
                Err(error) => Err(error),
            },
            Err(error) => Err(error),
        }
    }

    /// Counts one more connection of a session.
    pub fn attach_session(&mut self, key: &SessionKey, clock_ms: u64) -> (r: Result<(), EdgeError>)
        ensures
            if !old(self)@.contains_key(key@) {
                r == Err::<(), EdgeError>(EdgeError::SessionLostAttaching) && final(self)@ == old(self)@
            } else if old(self)@[key@].attachments == u32::MAX {
                r == Err::<(), EdgeError>(EdgeError::AttachmentsExhausted) && final(self)@ == old(self)@
            } else {
                r is Ok && final(self)@ == old(self)@.insert(key@, old(self)@[key@].attached(clock_ms))
            },
            (final(self)@, r) == joined(old(self)@, key@, clock_ms),
            is_valid(final(self)@),
    {
        proof {
            lemma_stores_are_valid();
        }
        match self.sessions.get_mut(key) {
            Some(session) => {
                if session.attachments == u32::MAX {
                    assert(final(self)@ =~= old(self)@);
                    return Err(EdgeError::AttachmentsExhausted);
                }
                session.attachments = session.attachments + 1;
                session.last_touch_ms = clock_ms;
                Ok(())
            },
            None => Err(EdgeError::SessionLostAttaching),
        }
    }

    /// Counts one connection of a session less.
    pub fn detach_session(&mut self, key: &SessionKey, clock_ms: u64)
        ensures
            final(self)@ == if old(self)@.contains_key(key@) {
                old(self)@.insert(key@, old(self)@[key@].detached(clock_ms))
            } else {
                old(self)@
            },
            final(self)@ == left(old(self)@, key@, clock_ms),
            is_valid(final(self)@),
    {
        proof {
            lemma_stores_are_valid();
        }
        if let Some(session) = self.sessions.get_mut(key) {
            session.attachments = session.attachments.saturating_sub(1);
            session.last_touch_ms = clock_ms;
        }
    }

    /// The root key and the packet state of a session.
    pub fn load_session_state(&self, key: &SessionKey) -> (r: Result<([u8; 32], Traffic), EdgeError>)
        ensures
            match r {
                Ok(state) => self@.contains_key(key@) && state.0@ == self@[key@].root_key && state.1@
                    == self@[key@].traffic,
                Err(error) => !self@.contains_key(key@) && error == EdgeError::SessionLostLoading,
            },
            is_valid(self@),
    {
        proof {
            lemma_stores_are_valid();
        }
        match self.sessions.get(key) {
            Some(session) => Ok((session.root_key, session.traffic)),
            None => Err(EdgeError::SessionLostLoading),
        }
    }

    /// Keeps the packet state of a session.
    pub fn persist_session_state(&mut self, key: &SessionKey, traffic: Traffic, clock_ms: u64) -> (r: Result<
        (),
        EdgeError,
    >)
        ensures
            if old(self)@.contains_key(key@) {
                r is Ok && final(self)@ == old(self)@.insert(
                    key@,
                    StoredView { traffic: traffic@, ..old(self)@[key@].touched(clock_ms) },
                )
            } else {
                r == Err::<(), EdgeError>(EdgeError::SessionLostSaving) && final(self)@ == old(self)@
            },
            (final(self)@, r) == persisted(old(self)@, key@, traffic@, clock_ms),
            is_valid(final(self)@),
    {
        proof {
            lemma_stores_are_valid();
        }
        match self.sessions.get_mut(key) {
            Some(session) => {
                session.traffic = traffic;
                session.last_touch_ms = clock_ms;
                Ok(())
            },
            None => Err(EdgeError::SessionLostSaving),
        }
    }

    /// Binds a session to the key that its peer authenticated with.
    pub fn confirm_session_public_key(&mut self, key: &SessionKey, remote_public_key: [u8; 32], clock_ms: u64) -> (r:
        Result<(), EdgeError>)
        ensures
            if !old(self)@.contains_key(key@) {
                r == Err::<(), EdgeError>(EdgeError::SessionLostAuthenticating) && final(self)@ == old(self)@
            } else if old(self)@[key@].remote_public_key matches Some(current) && current != remote_public_key@ {
                r == Err::<(), EdgeError>(EdgeError::RemoteKeyChanged) && final(self)@ == old(self)@
            } else {
                r is Ok && final(self)@ == old(self)@.insert(
                    key@,
                    StoredView {
                        remote_public_key: Some(remote_public_key@),
                        ..old(self)@[key@].touched(clock_ms)
                    },
                )
            },
            (final(self)@, r) == bound(old(self)@, key@, remote_public_key@, clock_ms),
            is_valid(final(self)@),
    {
        proof {
            lemma_stores_are_valid();
        }
        match self.sessions.get_mut(key) {
            Some(session) => {
                if let Some(current) = &session.remote_public_key {
                    if !bytes::same_bytes(current, &remote_public_key) {
                        assert(final(self)@ =~= old(self)@);
                        return Err(EdgeError::RemoteKeyChanged);
                    }
                }
                session.remote_public_key = Some(remote_public_key);
                session.last_touch_ms = clock_ms;
                Ok(())
            },
            None => Err(EdgeError::SessionLostAuthenticating),
        }
    }
}

/// A session with a connection is never dropped, however long it is silent; it
/// changes only when its own peer connects.
pub proof fn law_attached_sessions_stay(
    sessions: Sessions,
    key: SessionKeyView,
    generation: Option<u32>,
    client_algorithm: Seq<char>,
    clock_ms: u64,
    other: SessionKeyView,
)
    requires
        other != key,
        sessions.contains_key(other),
        sessions[other].attachments > 0,
    ensures
        ({
            let after = reused(sessions, key, generation, client_algorithm, clock_ms).0;
            after.contains_key(other) && after[other] == sessions[other]
        }),
{
}

/// A connection that comes and goes leaves the session as it was, but for the time at
/// which it was last used.
pub proof fn law_detaching_undoes_attaching(session: StoredView, attached_ms: u64, detached_ms: u64)
    requires
        session.attachments < u32::MAX,
    ensures
        session.attached(attached_ms).detached(detached_ms) == session.touched(detached_ms),
        session.attached(attached_ms).attachments > 0,
{
}

/// The number of sessions stays within its limit.
pub proof fn law_session_count_is_bounded(
    sessions: Sessions,
    key: SessionKeyView,
    generation: Option<u32>,
    client_algorithm: Seq<char>,
    clock_ms: u64,
    root_key: Seq<u8>,
)
    requires
        sessions.dom().finite(),
        sessions.dom().len() <= MAX_STORED_SESSIONS,
    ensures
        ({
            let (after, choice) = reused(sessions, key, generation, client_algorithm, clock_ms);
            let created = after.insert(key, StoredView::created(client_algorithm, root_key, clock_ms));
            &&& after.dom().len() <= MAX_STORED_SESSIONS
            &&& choice == Ok::<Option<SelectionView>, EdgeError>(None) ==> created.dom().len() <= MAX_STORED_SESSIONS
        }),
{
    let kept = collections::kept(sessions, alive(clock_ms));
    assert(kept.dom().subset_of(sessions.dom()));
    vstd::set_lib::lemma_len_subset(kept.dom(), sessions.dom());
    vstd::set_lib::lemma_set_subset_finite(sessions.dom(), kept.dom());
    if kept.contains_key(key) {
        assert(kept.dom().insert(key) =~= kept.dom());
    }
}

/// A peer that reconnects in time, knowing its session, goes on with the same root
/// key and the same packet state.
pub proof fn law_known_session_is_joined(
    sessions: Sessions,
    key: SessionKeyView,
    clock_ms: u64,
)
    requires
        sessions.contains_key(key),
        alive(clock_ms)(key, sessions[key]),
    ensures
        ({
            let session = sessions[key];
            let (after, choice) = reused(
                sessions,
                key,
                Some(session.generation),
                session.client_algorithm,
                clock_ms,
            );
            &&& choice matches Ok(Some(selection)) && selection.action == SessionAction::Join
                && selection.session_root_key == session.root_key && selection.root_key_for_peer is None
            &&& after[key].root_key == session.root_key
            &&& after[key].traffic == session.traffic
        }),
{
}

/// A peer that reconnects in time without knowing its session is told the root key
/// of that session, and a new epoch.
pub proof fn law_forgotten_session_is_synchronized(
    sessions: Sessions,
    key: SessionKeyView,
    generation: Option<u32>,
    clock_ms: u64,
)
    requires
        sessions.contains_key(key),
        alive(clock_ms)(key, sessions[key]),
        generation != Some(sessions[key].generation),
    ensures
        ({
            let session = sessions[key];
            let (after, choice) = reused(sessions, key, generation, session.client_algorithm, clock_ms);
            &&& choice matches Ok(Some(selection)) && selection.action == SessionAction::Sync
                && selection.root_key_for_peer == Some(session.root_key) && selection.initial_epoch
                == after[key].traffic.send_epoch
            &&& after[key].root_key == session.root_key
            &&& after[key].remote_public_key == session.remote_public_key
            &&& session.traffic.rx.latest_epoch(session.traffic.send_epoch) < u32::MAX
                ==> after[key].traffic.send_epoch > session.traffic.send_epoch
        }),
{
}

/// A peer that has no session, or whose session has been idle for too long, gets a
/// new one as long as there is room.
pub proof fn law_unknown_peer_gets_a_session(
    sessions: Sessions,
    key: SessionKeyView,
    generation: Option<u32>,
    client_algorithm: Seq<char>,
    clock_ms: u64,
)
    requires
        sessions.dom().finite(),
        sessions.dom().len() < MAX_STORED_SESSIONS,
        !sessions.contains_key(key) || !alive(clock_ms)(key, sessions[key]),
    ensures
        reused(sessions, key, generation, client_algorithm, clock_ms).1 == Ok::<Option<SelectionView>, EdgeError>(
            None,
        ),
{
    let kept = collections::kept(sessions, alive(clock_ms));
    assert(kept.dom().subset_of(sessions.dom()));
    vstd::set_lib::lemma_len_subset(kept.dom(), sessions.dom());
}

} // verus!
