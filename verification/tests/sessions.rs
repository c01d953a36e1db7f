use easytier_edge::error::EdgeError;
use easytier_edge::proto::SessionAction;
use easytier_edge::session::{SessionKey, SessionStore};

fn key(peer_id: u32) -> SessionKey {
    SessionKey {
        network_name: "office".to_string(),
        peer_id,
        server_peer_id: 1,
        server_public_key: [4; 32],
    }
}

#[test]
fn first_connection_creates_a_session() {
    let mut store = SessionStore::new();
    let chosen = store.upsert_session(&key(7), None, "aes-gcm", 1_000).unwrap();
    assert_eq!(chosen.action, SessionAction::Create);
    assert_eq!((chosen.generation, chosen.initial_epoch), (1, 0));
    assert_eq!(chosen.root_key_for_peer, Some(chosen.session_root_key));
    let (root_key, traffic) = store.load_session_state(&key(7)).unwrap();
    assert_eq!(root_key, chosen.session_root_key);
    assert_eq!(traffic.send_epoch(), 0);
    assert_eq!(store.load_session_state(&key(8)).unwrap_err(), EdgeError::SessionLostLoading);
}

#[test]
fn known_generation_joins() {
    let mut store = SessionStore::new();
    store.create_session(&key(7), "aes-gcm", [9; 32], 1_000);
    let chosen = store.upsert_session(&key(7), Some(1), "aes-gcm", 2_000).unwrap();
    assert_eq!(chosen.action, SessionAction::Join);
    assert_eq!(chosen.session_root_key, [9; 32]);
    assert_eq!(chosen.root_key_for_peer, None);
    assert_eq!((chosen.generation, chosen.initial_epoch), (1, 0));
}

#[test]
fn unknown_generation_synchronizes() {
    let mut store = SessionStore::new();
    store.create_session(&key(7), "aes-gcm", [9; 32], 1_000);
    let (_, mut traffic) = store.load_session_state(&key(7)).unwrap();
    assert_eq!(traffic.judge(Ok(vec![]), 4, 1, 0, 1_500), Ok(Some(vec![])));
    store.persist_session_state(&key(7), traffic, 1_500).unwrap();
    let chosen = store.upsert_session(&key(7), Some(2), "aes-gcm", 2_000).unwrap();
    assert_eq!(chosen.action, SessionAction::Sync);
    assert_eq!(chosen.root_key_for_peer, Some([9; 32]));
    assert_eq!(chosen.initial_epoch, 5);
    let chosen = store.upsert_session(&key(7), None, "aes-gcm", 2_000).unwrap();
    assert_eq!(chosen.action, SessionAction::Sync);
    assert_eq!(chosen.initial_epoch, 6);
}

#[test]
fn algorithm_belongs_to_the_session() {
    let mut store = SessionStore::new();
    store.create_session(&key(7), "aes-gcm", [9; 32], 1_000);
    assert_eq!(
        store.upsert_session(&key(7), Some(1), "chacha20", 2_000).unwrap_err(),
        EdgeError::AlgorithmChanged
    );
}

#[test]
fn idle_session_is_dropped_unless_attached() {
    let mut store = SessionStore::new();
    store.create_session(&key(7), "aes-gcm", [9; 32], 1_000);
    store.create_session(&key(8), "aes-gcm", [8; 32], 1_000);
    store.attach_session(&key(8), 1_000).unwrap();
    assert!(matches!(store.reuse_session(&key(7), Some(1), "aes-gcm", 60_999), Ok(Some(_))));
    assert!(matches!(store.reuse_session(&key(7), Some(1), "aes-gcm", 120_999), Ok(None)));
    assert!(matches!(store.reuse_session(&key(8), Some(1), "aes-gcm", 120_999), Ok(Some(_))));
    store.detach_session(&key(8), 121_000);
    assert!(matches!(store.reuse_session(&key(8), Some(1), "aes-gcm", 181_000), Ok(None)));
    assert_eq!(store.attach_session(&key(8), 0).unwrap_err(), EdgeError::SessionLostAttaching);
}

#[test]
fn attached_connections_are_counted() {
    let mut store = SessionStore::new();
    store.create_session(&key(7), "aes-gcm", [9; 32], 0);
    store.attach_session(&key(7), 0).unwrap();
    store.attach_session(&key(7), 0).unwrap();
    store.detach_session(&key(7), 0);
    assert!(matches!(store.reuse_session(&key(7), Some(1), "aes-gcm", 100_000), Ok(Some(_))));
    store.detach_session(&key(7), 100_000);
    store.detach_session(&key(7), 100_000);
    assert!(matches!(store.reuse_session(&key(7), Some(1), "aes-gcm", 160_000), Ok(None)));
}

#[test]
fn store_holds_2048_sessions() {
    let mut store = SessionStore::new();
    for peer in 0..2_048 {
        store.create_session(&key(peer), "aes-gcm", [9; 32], 1_000);
    }
    assert_eq!(
        store.upsert_session(&key(5_000), None, "aes-gcm", 2_000).unwrap_err(),
        EdgeError::SessionCapacityExceeded
    );
    assert!(matches!(store.upsert_session(&key(3), Some(1), "aes-gcm", 2_000), Ok(_)));
    assert!(matches!(store.upsert_session(&key(5_000), None, "aes-gcm", 61_000), Ok(_)));
}

#[test]
fn session_is_bound_to_one_key() {
    let mut store = SessionStore::new();
    assert_eq!(
        store.confirm_session_public_key(&key(7), [1; 32], 0),
        Err(EdgeError::SessionLostAuthenticating)
    );
    store.create_session(&key(7), "aes-gcm", [9; 32], 0);
    assert_eq!(store.confirm_session_public_key(&key(7), [1; 32], 0), Ok(()));
    assert_eq!(store.confirm_session_public_key(&key(7), [1; 32], 0), Ok(()));
    assert_eq!(
        store.confirm_session_public_key(&key(7), [2; 32], 0),
        Err(EdgeError::RemoteKeyChanged)
    );
}

#[test]
fn saving_needs_a_session() {
    let mut store = SessionStore::new();
    store.create_session(&key(7), "aes-gcm", [9; 32], 0);
    let (_, traffic) = store.load_session_state(&key(7)).unwrap();
    assert_eq!(
        store.persist_session_state(&key(8), traffic, 0),
        Err(EdgeError::SessionLostSaving)
    );
    let mut elsewhere = key(7);
    elsewhere.network_name = "home".to_string();
    assert_eq!(
        store.persist_session_state(&elsewhere, traffic, 0),
        Err(EdgeError::SessionLostSaving)
    );
    assert_eq!(store.persist_session_state(&key(7), traffic, 0), Ok(()));
}
