use easytier_edge::error::EdgeError;
use easytier_edge::replay::{ReplayWindow256, RxState};
use easytier_edge::traffic::{frame_payload, packet_nonce, Traffic};

#[test]
fn window_takes_each_number_once() {
    let mut window = ReplayWindow256::new();
    assert!(window.can_accept(5));
    assert!(window.accept(5));
    assert!(!window.can_accept(5));
    assert!(!window.accept(5));
    assert!(window.accept(3));
    assert!(!window.accept(3));
    assert!(window.accept(9));
    assert!(!window.accept(5));
    assert!(!window.accept(3));
    assert!(window.accept(4));
}

#[test]
fn window_is_256_numbers_wide() {
    let mut window = ReplayWindow256::new();
    assert!(window.accept(1000));
    assert!(!window.can_accept(744));
    assert!(window.can_accept(745));
    assert!(window.accept(745));
    assert!(window.accept(1001));
    assert!(!window.can_accept(745));
    assert!(window.can_accept(746));
}

#[test]
fn window_shifts_by_bytes_and_bits() {
    for shift in [1u64, 7, 8, 9, 16, 63, 64, 100, 200, 255] {
        let mut window = ReplayWindow256::new();
        for seq in [1000u64, 999, 990, 950, 900] {
            assert!(window.accept(seq));
        }
        assert!(window.accept(1000 + shift));
        for seq in 745..1000 + shift {
            let taken = [1000, 999, 990, 950, 900].contains(&seq);
            let inside = 1000 + shift - seq < 256;
            assert_eq!(window.can_accept(seq), inside && !taken, "shift {shift}, number {seq}");
        }
    }
}

#[test]
fn window_forgets_after_a_long_jump() {
    let mut window = ReplayWindow256::new();
    assert!(window.accept(1));
    assert!(window.accept(u64::MAX));
    assert!(!window.can_accept(1));
    assert!(window.can_accept(u64::MAX - 1));
    assert!(!window.can_accept(u64::MAX));
}

#[test]
fn epochs_follow_each_other() {
    let mut rx = RxState::new();
    assert!(rx.precheck_replay(0, 100, 1, 0));
    assert!(rx.commit_replay(5, 1, 0, 10));
    assert!(!rx.precheck_replay(0, 5, 1, 0));
    assert!(rx.precheck_replay(0, 5, 2, 0));
    assert!(rx.precheck_replay(0, 8, 1, 0));
    assert!(!rx.precheck_replay(0, 9, 1, 0));
    assert!(rx.precheck_replay(6, 9, 1, 0));
    assert!(!rx.precheck_replay(0, 4, 1, 0));
    assert!(rx.commit_replay(6, 1, 0, 11));
    assert!(rx.commit_replay(5, 2, 0, 12));
    assert!(!rx.commit_replay(5, 1, 0, 12));
    assert!(rx.commit_replay(7, 1, 0, 13));
    assert!(!rx.commit_replay(5, 3, 0, 14));
    assert!(rx.precheck_replay(0, 5, 1, 1));
}

#[test]
fn idle_epochs_are_dropped() {
    let mut rx = RxState::new();
    assert!(rx.commit_replay(5, 1, 0, 1_000));
    rx.evict_old_rx_slots(31_000);
    assert!(!rx.precheck_replay(0, 5, 1, 0));
    rx.evict_old_rx_slots(31_001);
    assert!(rx.precheck_replay(0, 5, 1, 0));
}

#[test]
fn former_epochs_have_a_grace() {
    let mut rx = RxState::new();
    assert!(rx.commit_replay(5, 1, 0, 1_000));
    assert_eq!(rx.latest_epoch(3), 5);
    assert_eq!(rx.latest_epoch(9), 9);
    rx.synchronize(6_000);
    assert!(!rx.precheck_replay(0, 5, 1, 0));
    assert!(rx.commit_replay(5, 2, 0, 1_500));
    assert!(!rx.commit_replay(5, 2, 0, 1_500));
    rx.evict_old_rx_slots(5_999);
    assert!(!rx.precheck_replay(0, 5, 2, 0));
    rx.evict_old_rx_slots(6_000);
    assert!(rx.precheck_replay(0, 5, 2, 0));
}

#[test]
fn payload_is_framed_with_tag_and_nonce() {
    assert_eq!(
        packet_nonce(0x0102_0304, 0x0506_0708_090a_0b0c),
        [1, 2, 3, 4, 5, 6, 7, 8, 9, 10, 11, 12]
    );
    assert_eq!(frame_payload(vec![9], &[1; 16], &[2; 12]), {
        let mut expected = vec![9];
        expected.extend([1; 16]);
        expected.extend([2; 12]);
        expected
    });
}

#[test]
fn payload_is_decrypted_once() {
    let root = [6u8; 32];
    let mut sender = Traffic::new(1_000);
    let mut receiver = Traffic::new(1_000);
    let first = sender.encrypt_payload(&root, "aes-gcm", 0, b"one", 1_000).unwrap();
    let second = sender.encrypt_payload(&root, "aes-gcm", 0, b"two", 1_000).unwrap();
    assert_eq!(first.len(), 3 + 28);
    assert_ne!(first, second);
    assert_eq!(&first[19..], &packet_nonce(0, 0));
    assert_eq!(&second[19..], &packet_nonce(0, 1));
    assert_eq!(
        receiver.decrypt_payload(&root, "aes-gcm", 0, &second, 1_001),
        Ok(Some(b"two".to_vec()))
    );
    assert_eq!(
        receiver.decrypt_payload(&root, "aes-gcm", 0, &first, 1_001),
        Ok(Some(b"one".to_vec()))
    );
    assert_eq!(receiver.decrypt_payload(&root, "aes-gcm", 0, &second, 1_001), Ok(None));
}

#[test]
fn repeated_failures_are_reported() {
    let root = [6u8; 32];
    let mut receiver = Traffic::new(0);
    let broken = vec![1u8; 40];
    for _ in 0..9 {
        assert_eq!(receiver.decrypt_payload(&root, "aes-gcm", 0, &broken, 5), Ok(None));
    }
    assert_eq!(
        receiver.decrypt_payload(&root, "aes-gcm", 0, &broken, 5),
        Err(EdgeError::DecryptionFailed)
    );
    let mut sender = Traffic::new(0);
    let good = sender.encrypt_payload(&root, "aes-gcm", 0, b"x", 0).unwrap();
    assert_eq!(
        receiver.decrypt_payload(&root, "aes-gcm", 0, &good, 5),
        Ok(Some(b"x".to_vec()))
    );
    assert_eq!(receiver.decrypt_payload(&root, "aes-gcm", 0, &broken, 5), Ok(None));
    assert_eq!(
        receiver.decrypt_payload(&root, "aes-gcm", 0, &[0; 27], 5),
        Err(EdgeError::PayloadTooShort)
    );
}

#[test]
fn outcome_is_judged() {
    let mut receiver = Traffic::new(0);
    assert_eq!(receiver.judge(Ok(vec![1]), 0, 7, 1, 5), Ok(Some(vec![1])));
    assert_eq!(receiver.judge(Ok(vec![1]), 0, 7, 1, 5), Ok(None));
    assert_eq!(receiver.judge(Err(EdgeError::DecryptionFailed), 0, 8, 1, 5), Ok(None));
}

#[test]
fn epoch_rotates_with_time_and_packets() {
    let mut traffic = Traffic::new(1_000);
    traffic.maybe_rotate_epoch(600_999);
    assert_eq!(traffic.send_epoch(), 0);
    traffic.maybe_rotate_epoch(601_000);
    assert_eq!(traffic.send_epoch(), 1);
    for _ in 0..999_999 {
        traffic.maybe_rotate_epoch(601_000);
    }
    assert_eq!(traffic.send_epoch(), 1);
    traffic.maybe_rotate_epoch(601_000);
    assert_eq!(traffic.send_epoch(), 2);
}

#[test]
fn shuffled_packets_are_delivered_once_each() {
    let root = [6u8; 32];
    let mut sender = Traffic::new(1_000);
    let mut receiver = Traffic::new(1_000);
    let payloads: Vec<Vec<u8>> = (0..40u8)
        .map(|n| sender.encrypt_payload(&root, "chacha20", 1, &[n], 1_000).unwrap())
        .collect();
    for (i, a) in payloads.iter().enumerate() {
        for b in &payloads[..i] {
            assert_ne!(a[a.len() - 12..], b[b.len() - 12..]);
        }
    }
    let mut delivered = vec![0; 40];
    for round in 0..3 {
        for i in 0..40 {
            let at = (i * 7 + round) % 40;
            if let Some(text) = receiver.decrypt_payload(&root, "chacha20", 1, &payloads[at], 2_000).unwrap() {
                delivered[text[0] as usize] += 1;
            }
        }
    }
    assert_eq!(delivered, vec![1; 40]);
}

#[test]
fn directions_count_for_themselves() {
    let root = [6u8; 32];
    let mut sender = Traffic::new(0);
    for direction in [0, 1] {
        let payload = sender.encrypt_payload(&root, "aes-gcm", direction, b"x", 0).unwrap();
        assert_eq!(&payload[payload.len() - 12..], &packet_nonce(0, 0));
    }
    assert_eq!(
        sender.encrypt_payload(&root, "none", 0, b"x", 0),
        Err(EdgeError::UnsupportedAlgorithm)
    );
    let payload = sender.encrypt_payload(&root, "aes-gcm", 0, b"x", 0).unwrap();
    assert_eq!(&payload[payload.len() - 12..], &packet_nonce(0, 2));
}

#[test]
fn synchronized_session_uses_new_nonces() {
    let root = [6u8; 32];
    let mut traffic = Traffic::new(1_000);
    let first = traffic.encrypt_payload(&root, "aes-gcm", 0, b"one", 1_000).unwrap();
    traffic.synchronize(2_000, 7_000);
    let second = traffic.encrypt_payload(&root, "aes-gcm", 0, b"two", 2_000).unwrap();
    traffic.synchronize(3_000, 8_000);
    let third = traffic.encrypt_payload(&root, "aes-gcm", 0, b"six", 3_000).unwrap();
    assert_eq!(&first[19..], &packet_nonce(0, 0));
    assert_eq!(&second[19..], &packet_nonce(1, 0));
    assert_eq!(&third[19..], &packet_nonce(2, 0));
}

#[test]
fn repeat_is_dropped_while_older_epochs_go() {
    let root = [6u8; 32];
    let mut sender = Traffic::new(0);
    let old = sender.encrypt_payload(&root, "aes-gcm", 0, b"old", 1_000).unwrap();
    let new = sender.encrypt_payload(&root, "aes-gcm", 0, b"new", 600_000).unwrap();
    assert_eq!(&new[19..], &packet_nonce(1, 1));
    let mut receiver = Traffic::new(0);
    assert_eq!(receiver.decrypt_payload(&root, "aes-gcm", 0, &old, 1_000), Ok(Some(b"old".to_vec())));
    assert_eq!(receiver.decrypt_payload(&root, "aes-gcm", 0, &new, 20_000), Ok(Some(b"new".to_vec())));
    assert_eq!(receiver.decrypt_payload(&root, "aes-gcm", 0, &new, 32_000), Ok(None));
    assert_eq!(receiver.decrypt_payload(&root, "aes-gcm", 0, &old, 32_000), Ok(None));
}

#[test]
fn window_accepts_exactly_the_new() {
    let mut window = ReplayWindow256::new();
    let mut taken: Vec<u64> = vec![];
    for offered in [300, 44, 45, 300, 310, 53, 54, 55, 54, 1_000, 745, 744, 999, 311] {
        let highest = taken.iter().max().copied().unwrap_or(0);
        let is_new = !taken.contains(&offered) && (taken.is_empty() || offered + 256 > highest);
        assert_eq!(window.can_accept(offered), is_new);
        assert_eq!(window.accept(offered), is_new);
        if is_new {
            taken.push(offered);
        }
    }
    assert_eq!(taken, vec![300, 45, 310, 55, 1_000, 745, 999]);
}
