use easytier_edge::error::EdgeError;
use easytier_edge::packet::{parse_packet, split_packet, PacketHeader};
use easytier_edge::{build_packet, inspect_packet, prepare_forward, prepare_pong};

fn header() -> PacketHeader {
    PacketHeader {
        from_peer_id: 0x0403_0201,
        to_peer_id: 0x0807_0605,
        packet_type: 9,
        flags: 0,
        forward_counter: 11,
        reserved: 12,
        len: 0x1211_100f,
    }
}

#[test]
fn header_is_written_little_endian() {
    assert_eq!(
        header().to_bytes(),
        vec![1, 2, 3, 4, 5, 6, 7, 8, 9, 0, 11, 12, 0x0f, 0x10, 0x11, 0x12]
    );
}

#[test]
fn header_is_read_as_it_was_written() {
    assert_eq!(PacketHeader::from_bytes(&header().to_bytes()), Ok(header()));
}

#[test]
fn short_header_is_refused() {
    let error = PacketHeader::from_bytes(&[0; 15]).unwrap_err();
    assert_eq!(error, EdgeError::HeaderTooShort { len: 15 });
    assert_eq!(error.message(), "header too short: 15 < 16");
    assert_eq!(parse_packet(&[]), Err(EdgeError::HeaderTooShort { len: 0 }));
}

#[test]
fn built_packet_is_inspected() {
    let packet = build_packet(1, 2, 4, &[9, 8, 7]).unwrap();
    assert_eq!(packet.len(), 19);
    assert_eq!(inspect_packet(&packet), Ok(vec![1, 2, 4, 0, 1, 0, 3]));
    let (header, payload) = split_packet(&packet).unwrap();
    assert_eq!(header.packet_type, 4);
    assert_eq!(payload, &[9, 8, 7]);
}

#[test]
fn wrong_length_is_refused() {
    let mut packet = build_packet(1, 2, 4, &[9, 8, 7]).unwrap();
    packet.push(0);
    let error = inspect_packet(&packet).unwrap_err();
    assert_eq!(
        error,
        EdgeError::PayloadLengthMismatch { payload_len: 4, expected_len: 3 }
    );
    assert_eq!(error.message(), "payload length mismatch: 4 != 3");
}

#[test]
fn encrypted_payload_counts_its_tail() {
    let mut packet = build_packet(1, 2, 4, &[0; 30]).unwrap();
    packet[9] = 1;
    packet[12] = 2;
    assert_eq!(parse_packet(&packet).unwrap().len, 2);
    packet[12] = 30;
    assert_eq!(
        parse_packet(&packet),
        Err(EdgeError::PayloadLengthMismatch { payload_len: 30, expected_len: 58 })
    );
}

#[test]
fn forwarding_counts_hops() {
    let mut packet = build_packet(1, 2, 1, &[5]).unwrap();
    let first = prepare_forward(&packet).unwrap();
    assert_eq!(first[10], 2);
    assert_eq!(&first[..10], &packet[..10]);
    assert_eq!(&first[11..], &packet[11..]);
    let mut hops = 0;
    let refused = loop {
        match prepare_forward(&packet) {
            Ok(next) => {
                packet = next;
                hops += 1;
            }
            Err(error) => break error,
        }
    };
    assert_eq!(hops, 7);
    assert_eq!(packet[10], 8);
    assert_eq!(refused, EdgeError::HopLimitExceeded);
    assert_eq!(refused.message(), "EasyTier forwarding hop limit exceeded");
}

#[test]
fn ping_becomes_pong() {
    let ping = build_packet(1, 2, 4, &[5]).unwrap();
    let pong = prepare_pong(&ping).unwrap();
    assert_eq!(pong[8], 5);
    assert_eq!(&pong[..8], &ping[..8]);
    assert_eq!(&pong[9..], &ping[9..]);
    assert_eq!(prepare_pong(&pong), Err(EdgeError::NotPing));
    assert_eq!(
        EdgeError::NotPing.message(),
        "only an EasyTier Ping packet can become Pong"
    );
}
