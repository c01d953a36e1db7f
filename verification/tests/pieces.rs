use easytier_edge::error::EdgeError;
use easytier_edge::fragments::{MergedPacket, PendingRpcs};
use easytier_edge::proto::{RpcDescriptor, RpcPacket};

fn descriptor() -> RpcDescriptor {
    RpcDescriptor {
        domain_name: "office".to_string(),
        proto_name: "peer_rpc".to_string(),
        service_name: "OspfRouteRpc".to_string(),
        method_index: 1,
    }
}

fn piece(transaction_id: i64, total_pieces: u32, piece_idx: u32, body: &[u8]) -> RpcPacket {
    RpcPacket {
        from_peer: 7,
        to_peer: 1,
        transaction_id,
        descriptor: Some(descriptor()),
        body: body.to_vec(),
        is_request: true,
        total_pieces,
        piece_idx,
        trace_id: piece_idx as i32 + 40,
        compression_info: None,
    }
}

fn error_of(r: Result<MergedPacket, EdgeError>) -> EdgeError {
    match r {
        Ok(_) => panic!("the packet was taken"),
        Err(error) => error,
    }
}

fn is_pending(r: Result<MergedPacket, EdgeError>) -> bool {
    matches!(r, Ok(MergedPacket::Pending))
}

fn whole(r: Result<MergedPacket, EdgeError>) -> RpcPacket {
    match r {
        Ok(MergedPacket::Complete(packet)) => packet,
        Ok(MergedPacket::Pending) => panic!("pieces are missing"),
        Err(error) => panic!("{}", error.message()),
    }
}

#[test]
fn single_packets_pass_through() {
    let mut pending = PendingRpcs::new();
    assert_eq!(whole(pending.merge_packet("office", 7, piece(1, 1, 0, &[1]), 0)).body, vec![1]);
    assert_eq!(whole(pending.merge_packet("office", 7, piece(1, 0, 0, &[2]), 0)).total_pieces, 0);
    assert_eq!(pending.pending_bytes(), 0);
}

#[test]
fn pieces_come_in_any_order() {
    let mut pending = PendingRpcs::new();
    assert!(is_pending(pending.merge_packet("office", 7, piece(5, 3, 2, &[6, 7]), 100)));
    assert!(is_pending(pending.merge_packet("office", 7, piece(5, 3, 0, &[1, 2, 3]), 9_000)));
    assert_eq!(pending.pending_bytes(), 5);
    assert_eq!(pending.pending_pieces(), 3);
    let packet = whole(pending.merge_packet("office", 7, piece(5, 3, 1, &[4, 5]), 18_000));
    assert_eq!(packet.body, vec![1, 2, 3, 4, 5, 6, 7]);
    assert_eq!((packet.total_pieces, packet.piece_idx, packet.trace_id), (1, 0, 40));
    assert_eq!((pending.pending_bytes(), pending.pending_pieces()), (0, 0));
}

#[test]
fn repeated_piece_replaces_the_former() {
    let mut pending = PendingRpcs::new();
    assert!(is_pending(pending.merge_packet("office", 7, piece(5, 2, 1, &[1, 1, 1]), 0)));
    assert!(is_pending(pending.merge_packet("office", 7, piece(5, 2, 1, &[9]), 0)));
    assert_eq!(pending.pending_bytes(), 1);
    assert_eq!(whole(pending.merge_packet("office", 7, piece(5, 2, 0, &[8]), 0)).body, vec![8, 9]);
}

#[test]
fn misnumbered_pieces_are_refused() {
    let mut pending = PendingRpcs::new();
    for (total, index) in [(0, 1), (2, 2), (32_769, 0), (1, 1)] {
        assert_eq!(
            error_of(pending.merge_packet("office", 7, piece(1, total, index, &[]), 0)),
            EdgeError::InvalidFragment
        );
    }
    let mut nameless = piece(1, 2, 0, &[]);
    nameless.descriptor = None;
    assert_eq!(
        error_of(pending.merge_packet("office", 7, nameless, 0)),
        EdgeError::MissingFirstDescriptor
    );
    let mut nameless = piece(1, 2, 1, &[]);
    nameless.descriptor = None;
    assert!(is_pending(pending.merge_packet("office", 7, nameless, 0)));
}

#[test]
fn changed_piece_count_drops_the_transaction() {
    let mut pending = PendingRpcs::new();
    assert!(is_pending(pending.merge_packet("office", 7, piece(1, 3, 0, &[1]), 0)));
    assert_eq!(
        error_of(pending.merge_packet("office", 7, piece(1, 2, 1, &[1]), 0)),
        EdgeError::PieceCountChanged
    );
    assert_eq!((pending.pending_bytes(), pending.pending_pieces()), (0, 0));
}

#[test]
fn a_peer_has_64_transactions_in_pieces() {
    let mut pending = PendingRpcs::new();
    for id in 0..64 {
        assert!(is_pending(pending.merge_packet("office", 7, piece(id, 2, 0, &[1]), 0)));
    }
    assert_eq!(
        error_of(pending.merge_packet("office", 7, piece(64, 2, 0, &[1]), 0)),
        EdgeError::TooManyPendingTransactions
    );
    assert!(is_pending(pending.merge_packet("office", 8, piece(64, 2, 0, &[1]), 0)));
    assert!(is_pending(pending.merge_packet("home", 7, piece(64, 2, 0, &[1]), 0)));
    assert_eq!(whole(pending.merge_packet("office", 7, piece(63, 2, 1, &[2]), 0)).body, vec![1, 2]);
    assert!(is_pending(pending.merge_packet("office", 7, piece(64, 2, 0, &[1]), 0)));
}

#[test]
fn declared_pieces_are_bounded() {
    let mut pending = PendingRpcs::new();
    assert!(is_pending(pending.merge_packet("office", 7, piece(1, 32_767, 0, &[1]), 0)));
    assert_eq!(
        error_of(pending.merge_packet("office", 7, piece(2, 2, 0, &[1]), 0)),
        EdgeError::PendingPieceLimit
    );
    pending.remove_peer("office", 7);
    assert!(is_pending(pending.merge_packet("office", 7, piece(2, 32_768, 0, &[1]), 0)));
    assert_eq!(pending.pending_pieces(), 32_768);
}

#[test]
fn buffered_bytes_are_bounded() {
    let mut pending = PendingRpcs::new();
    let half = vec![0u8; 16 * 1024 * 1024];
    assert!(is_pending(pending.merge_packet("office", 7, piece(1, 2, 0, &half), 0)));
    assert!(is_pending(pending.merge_packet("office", 8, piece(1, 2, 0, &half), 0)));
    assert_eq!(pending.pending_bytes(), 32 * 1024 * 1024);
    assert_eq!(
        error_of(pending.merge_packet("office", 9, piece(1, 2, 0, &[1]), 0)),
        EdgeError::PendingByteLimit
    );
    assert_eq!(pending.pending_pieces(), 4);
    assert_eq!(
        error_of(pending.merge_packet("office", 7, piece(1, 2, 1, &[1]), 0)),
        EdgeError::PendingByteLimit
    );
    assert_eq!(pending.pending_bytes(), 16 * 1024 * 1024);
}

#[test]
fn stale_transactions_are_dropped() {
    let mut pending = PendingRpcs::new();
    assert!(is_pending(pending.merge_packet("office", 7, piece(1, 2, 0, &[1]), 1_000)));
    pending.clean_pending(10_999);
    assert_eq!(pending.pending_pieces(), 2);
    pending.clean_pending(11_000);
    assert_eq!(pending.pending_pieces(), 0);
    assert!(is_pending(pending.merge_packet("office", 7, piece(1, 2, 0, &[1]), 20_000)));
    assert!(is_pending(pending.merge_packet("office", 8, piece(1, 2, 0, &[1]), 30_000)));
    assert_eq!(pending.pending_pieces(), 2);
}

#[test]
fn removed_peer_has_no_pieces() {
    let mut pending = PendingRpcs::new();
    assert!(is_pending(pending.merge_packet("office", 7, piece(1, 2, 0, &[1]), 0)));
    assert!(is_pending(pending.merge_packet("office", 8, piece(1, 2, 0, &[1]), 0)));
    assert!(is_pending(pending.merge_packet("home", 7, piece(1, 2, 0, &[1]), 0)));
    pending.remove_peer("office", 7);
    assert_eq!(pending.pending_pieces(), 4);
    assert!(is_pending(pending.merge_packet("office", 7, piece(1, 2, 1, &[1]), 0)));
    assert_eq!(whole(pending.merge_packet("home", 7, piece(1, 2, 1, &[2]), 0)).body, vec![1, 2]);
}

#[test]
fn message_survives_other_traffic() {
    let mut pending = PendingRpcs::new();
    assert!(is_pending(pending.merge_packet("office", 7, piece(5, 3, 2, &[6, 7]), 0)));
    assert!(is_pending(pending.merge_packet("office", 7, piece(6, 3, 0, &[9]), 1_000)));
    assert!(is_pending(pending.merge_packet("home", 7, piece(5, 3, 0, &[8]), 1_000)));
    assert!(is_pending(pending.merge_packet("office", 7, piece(5, 3, 2, &[6, 7]), 2_000)));
    assert!(is_pending(pending.merge_packet("office", 7, piece(5, 3, 0, &[1]), 3_000)));
    assert_eq!(error_of(pending.merge_packet("office", 7, piece(6, 4, 1, &[9]), 4_000)), EdgeError::PieceCountChanged);
    assert!(is_pending(pending.merge_packet("office", 7, piece(5, 3, 0, &[1]), 12_000)));
    let packet = whole(pending.merge_packet("office", 7, piece(5, 3, 1, &[2, 3]), 13_000));
    assert_eq!(packet.body, vec![1, 2, 3, 6, 7]);
    assert_eq!((packet.transaction_id, packet.is_request, packet.trace_id), (5, true, 40));
}

#[test]
fn last_body_of_a_repeated_piece_counts() {
    let mut pending = PendingRpcs::new();
    let mut head = piece(5, 3, 0, &[1, 1, 1]);
    head.trace_id = 90;
    assert!(is_pending(pending.merge_packet("office", 7, head, 0)));
    assert!(is_pending(pending.merge_packet("office", 7, piece(5, 3, 2, &[6]), 0)));
    assert!(is_pending(pending.merge_packet("office", 7, piece(6, 3, 2, &[9]), 0)));
    assert!(is_pending(pending.merge_packet("office", 7, piece(5, 3, 0, &[2]), 0)));
    assert!(is_pending(pending.merge_packet("office", 7, piece(5, 3, 2, &[7, 7]), 0)));
    assert_eq!(pending.pending_bytes(), 4);
    let packet = whole(pending.merge_packet("office", 7, piece(5, 3, 1, &[3]), 0));
    assert_eq!(packet.body, vec![2, 3, 7, 7]);
    assert_eq!(packet.trace_id, 40);
}
