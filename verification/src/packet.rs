//! The EasyTier frame: a fixed header followed by the payload.
//!
//! An encrypted payload ends with an authentication tag and a nonce, which the
//! length field does not count.
use vstd::prelude::*;

use crate::bytes;
use crate::error::EdgeError;

verus! {

pub const HEADER_SIZE: usize = 16;

pub const AEAD_TAIL_SIZE: usize = 28;

pub const ENCRYPTED_FLAG: u8 = 0x01;

pub const MAX_FORWARD_HOPS: u8 = 7;

const PACKET_TYPE_PING: u8 = 4;

const PACKET_TYPE_PONG: u8 = 5;

#[derive(Debug, Clone, Copy, PartialEq, Eq, Structural)]
pub struct PacketHeader {
    pub from_peer_id: u32,
    pub to_peer_id: u32,
    pub packet_type: u8,
    pub flags: u8,
    pub forward_counter: u8,
    pub reserved: u8,
    pub len: u32,
}

/// The header that the first sixteen bytes of `bytes` hold.
pub open spec fn header_of(bytes: Seq<u8>) -> PacketHeader {
    PacketHeader {
        from_peer_id: bytes::u32_of_le(bytes.subrange(0, 4)),
        to_peer_id: bytes::u32_of_le(bytes.subrange(4, 8)),
        packet_type: bytes[8],
        flags: bytes[9],
        forward_counter: bytes[10],
        reserved: bytes[11],
        len: bytes::u32_of_le(bytes.subrange(12, 16)),
    }
}

impl PacketHeader {
    /// The sixteen bytes of a header.
    pub open spec fn encoded(self) -> Seq<u8> {
        bytes::u32_le(self.from_peer_id) + bytes::u32_le(self.to_peer_id) + seq![
            self.packet_type,
            self.flags,
            self.forward_counter,
            self.reserved,
        ] + bytes::u32_le(self.len)
    }

    /// Whether the payload carries a tag and a nonce.
    pub open spec fn is_encrypted(self) -> bool {
        self.flags & ENCRYPTED_FLAG != 0
    }

    /// The number of bytes that follow the header.
    pub open spec fn payload_size(self) -> int {
        self.len + if self.is_encrypted() {
            AEAD_TAIL_SIZE as int
        } else {
            0
        }
    }

    pub fn from_bytes(bytes: &[u8]) -> (r: Result<Self, EdgeError>)
        ensures
            r == (if bytes@.len() < HEADER_SIZE {
                Err(EdgeError::HeaderTooShort { len: bytes.len() })
            } else {
                Ok(header_of(bytes@))
            }),
    {
        if bytes.len() < HEADER_SIZE {
            return Err(EdgeError::HeaderTooShort { len: bytes.len() });
        }
        Ok(
            PacketHeader {
                from_peer_id: bytes::get_u32_le(bytes, 0),
                to_peer_id: bytes::get_u32_le(bytes, 4),
                packet_type: bytes[8],
                flags: bytes[9],
                forward_counter: bytes[10],
                reserved: bytes[11],
                len: bytes::get_u32_le(bytes, 12),
            },
        )
    }

    pub fn to_bytes(&self) -> (r: Vec<u8>)
        ensures
            r@ == self.encoded(),
            r@.len() == HEADER_SIZE,
    {
        let mut buf: Vec<u8> = Vec::new();
        bytes::put_u32_le(&mut buf, self.from_peer_id);
        bytes::put_u32_le(&mut buf, self.to_peer_id);
        buf.push(self.packet_type);
        buf.push(self.flags);
        buf.push(self.forward_counter);
        buf.push(self.reserved);
        bytes::put_u32_le(&mut buf, self.len);
        assert(buf@ =~= self.encoded());
        buf
    }

    pub fn encrypted(&self) -> (r: bool)
        ensures
            r == self.is_encrypted(),
    {
        self.flags & ENCRYPTED_FLAG != 0
    }
}

/// `bytes` is a header followed by as many bytes as the header announces.
pub open spec fn is_packet(bytes: Seq<u8>) -> bool {
    &&& bytes.len() >= HEADER_SIZE
    &&& bytes.len() - HEADER_SIZE == header_of(bytes).payload_size()
}

/// What reading `bytes` as a packet gives.
pub open spec fn parsed_packet(bytes: Seq<u8>) -> Result<PacketHeader, EdgeError> {
    if bytes.len() < HEADER_SIZE {
        Err(EdgeError::HeaderTooShort { len: bytes.len() as usize })
    } else if bytes.len() - HEADER_SIZE != header_of(bytes).payload_size() {
        Err(
            EdgeError::PayloadLengthMismatch {
                payload_len: (bytes.len() - HEADER_SIZE) as usize,
                expected_len: header_of(bytes).payload_size() as u64,
            },
        )
    } else {
        Ok(header_of(bytes))
    }
}

pub fn parse_packet(bytes: &[u8]) -> (r: Result<PacketHeader, EdgeError>)
    ensures
        r == parsed_packet(bytes@),
        r is Ok <==> is_packet(bytes@),
{
    if bytes.len() < HEADER_SIZE {
        return Err(EdgeError::HeaderTooShort { len: bytes.len() });
    }
    let header = PacketHeader::from_bytes(bytes)?;
    let payload_len: usize = bytes.len() - HEADER_SIZE;
    let expected_len: u64 = header.len as u64 + if header.encrypted() {
        AEAD_TAIL_SIZE as u64
    } else {
        0
    };
    if payload_len as u64 != expected_len {
        return Err(EdgeError::PayloadLengthMismatch { payload_len, expected_len });
    }
    Ok(header)
}

/// The fields of the header, in the order of the frame.
pub fn inspect_packet(bytes: &[u8]) -> (r: Result<Vec<u32>, EdgeError>)
    ensures
        match (parsed_packet(bytes@), r) {
            (Ok(header), Ok(fields)) => fields@ == seq![
                header.from_peer_id,
                header.to_peer_id,
                header.packet_type as u32,
                header.flags as u32,
                header.forward_counter as u32,
                header.reserved as u32,
                header.len,
            ],
            (Err(expected), Err(error)) => error == expected,
            _ => false,
        },
{
    match parse_packet(bytes) {
        Ok(header) => {
            let mut fields: Vec<u32> = Vec::new();
            fields.push(header.from_peer_id);
            fields.push(header.to_peer_id);
            fields.push(header.packet_type as u32);
            fields.push(header.flags as u32);
            fields.push(header.forward_counter as u32);
            fields.push(header.reserved as u32);
            fields.push(header.len);
            assert(fields@ =~= seq![
                header.from_peer_id,
                header.to_peer_id,
                header.packet_type as u32,
                header.flags as u32,
                header.forward_counter as u32,
                header.reserved as u32,
                header.len,
            ]);
            Ok(fields)
        },
        Err(error) => Err(error),
    }
}

/// The clear packet that carries `payload` for the first time.
pub open spec fn built_packet(from_peer_id: u32, to_peer_id: u32, packet_type: u8, payload: Seq<u8>) -> Seq<u8> {
    PacketHeader {
        from_peer_id,
        to_peer_id,
        packet_type,
        flags: 0,
        forward_counter: 1,
        reserved: 0,
        len: payload.len() as u32,
    }.encoded() + payload
}

pub fn build_packet(from_peer_id: u32, to_peer_id: u32, packet_type: u8, payload: &[u8]) -> (r: Result<
    Vec<u8>,
    EdgeError,
>)
    ensures
        payload@.len() <= u32::MAX ==> (r matches Ok(packet) && packet@ == built_packet(
            from_peer_id,
            to_peer_id,
            packet_type,
            payload@,
        )),
        payload@.len() > u32::MAX ==> r == Err::<Vec<u8>, EdgeError>(EdgeError::PayloadTooLong),
{
    if payload.len() as u64 > u32::MAX as u64 {
        return Err(EdgeError::PayloadTooLong);
    }
    Ok(wrap_packet(from_peer_id, to_peer_id, packet_type, payload))
}

/// `bytes` with the hop counter one higher.
pub open spec fn forwarded(bytes: Seq<u8>) -> Seq<u8> {
    bytes.update(10, (bytes[10] + 1) as u8)
}

pub fn prepare_forward(bytes: &[u8]) -> (r: Result<Vec<u8>, EdgeError>)
    ensures
        match (parsed_packet(bytes@), r) {
            (Ok(header), Ok(packet)) => header.forward_counter <= MAX_FORWARD_HOPS && packet@ == forwarded(bytes@),
            (Ok(header), Err(error)) => header.forward_counter > MAX_FORWARD_HOPS && error
                == EdgeError::HopLimitExceeded,
            (Err(expected), Err(error)) => error == expected,
            (Err(_), Ok(_)) => false,
        },
{
    match parse_packet(bytes) {
        Ok(header) => {
            if header.forward_counter > MAX_FORWARD_HOPS {
                return Err(EdgeError::HopLimitExceeded);
            }
            let mut packet = vstd::slice::slice_to_vec(bytes);
            packet[10] = header.forward_counter + 1;
            Ok(packet)
        },
        Err(error) => Err(error),
    }
}

/// `bytes` with the type of a Pong.
pub open spec fn ponged(bytes: Seq<u8>) -> Seq<u8> {
    bytes.update(8, 5u8)
}

/// A packet that asks for a Pong.
pub open spec fn is_ping(bytes: Seq<u8>) -> bool {
    is_packet(bytes) && header_of(bytes).packet_type == 4
}

pub fn prepare_pong(bytes: &[u8]) -> (r: Result<Vec<u8>, EdgeError>)
    ensures
        match (parsed_packet(bytes@), r) {
            (Ok(_), Ok(packet)) => is_ping(bytes@) && packet@ == ponged(bytes@),
            (Ok(_), Err(error)) => !is_ping(bytes@) && error == EdgeError::NotPing,
            (Err(expected), Err(error)) => error == expected,
            (Err(_), Ok(_)) => false,
        },
{
    match parse_packet(bytes) {
        Ok(header) => {
            if header.packet_type != PACKET_TYPE_PING {
                return Err(EdgeError::NotPing);
            }
            let mut packet = vstd::slice::slice_to_vec(bytes);
            packet[8] = PACKET_TYPE_PONG;
            Ok(packet)
        },
        Err(error) => Err(error),
    }
}

/// The header of a packet, and what follows it.
pub fn split_packet(bytes: &[u8]) -> (r: Result<(PacketHeader, &[u8]), EdgeError>)
    ensures
        match (parsed_packet(bytes@), r) {
            (Ok(header), Ok(parts)) => parts.0 == header && parts.1@ == bytes@.skip(HEADER_SIZE as int),
            (Err(expected), Err(error)) => error == expected,
            _ => false,
        },
{
    match parse_packet(bytes) {
        Ok(header) => {
            let payload = vstd::slice::slice_subrange(bytes, HEADER_SIZE, bytes.len());
            assert(payload@ =~= bytes@.skip(HEADER_SIZE as int));
            Ok((header, payload))
        },
        Err(error) => Err(error),
    }
}

pub fn wrap_packet(from: u32, to: u32, packet_type: u8, payload: &[u8]) -> (r: Vec<u8>)
    requires
        payload@.len() <= u32::MAX,
    ensures
        r@ == built_packet(from, to, packet_type, payload@),
{
    join_header_payload(
        PacketHeader {
            from_peer_id: from,
            to_peer_id: to,
            packet_type,
            flags: 0,
            forward_counter: 1,
            reserved: 0,
            len: payload.len() as u32,
        },
        payload,
    )
}

pub fn join_header_payload(header: PacketHeader, payload: &[u8]) -> (r: Vec<u8>)
    ensures
        r@ == header.encoded() + payload@,
{
    let mut output = header.to_bytes();
    bytes::put_bytes(&mut output, payload);
    output
}

/// Reading a header gives back what was written, whatever follows it.
pub proof fn law_header_round_trip(header: PacketHeader, rest: Seq<u8>)
    ensures
        header.encoded().len() == HEADER_SIZE,
        header_of(header.encoded() + rest) == header,
{
    let s = header.encoded() + rest;
    bytes::lemma_u32_le_inverse(header.from_peer_id);
    bytes::lemma_u32_le_inverse(header.to_peer_id);
    bytes::lemma_u32_le_inverse(header.len);
    assert(s.subrange(0, 4) =~= bytes::u32_le(header.from_peer_id));
    assert(s.subrange(4, 8) =~= bytes::u32_le(header.to_peer_id));
    assert(s.subrange(12, 16) =~= bytes::u32_le(header.len));
}

/// Writing the header that was read gives back its sixteen bytes.
pub proof fn law_header_bytes_round_trip(bytes: Seq<u8>)
    requires
        bytes.len() >= HEADER_SIZE,
    ensures
        header_of(bytes).encoded() == bytes.take(HEADER_SIZE as int),
{
    bytes::lemma_u32_of_le_inverse(bytes.subrange(0, 4));
    bytes::lemma_u32_of_le_inverse(bytes.subrange(4, 8));
    bytes::lemma_u32_of_le_inverse(bytes.subrange(12, 16));
    let e = header_of(bytes).encoded();
    assert(e.len() == 16);
    assert forall|i: int| 0 <= i < 16 implies e[i] == bytes.take(16)[i] by {
        if i < 4 {
            assert(bytes.subrange(0, 4)[i] == bytes[i]);
        } else if i < 8 {
            assert(bytes.subrange(4, 8)[i - 4] == bytes[i]);
        } else if i >= 12 {
            assert(bytes.subrange(12, 16)[i - 12] == bytes[i]);
        }
    }
    assert(e =~= bytes.take(16));
}

/// A header joined with a payload of the announced size is a packet with that
/// header and that payload.
pub proof fn law_join_split(header: PacketHeader, payload: Seq<u8>)
    requires
        payload.len() == header.payload_size(),
    ensures
        parsed_packet(header.encoded() + payload) == Ok::<PacketHeader, EdgeError>(header),
        (header.encoded() + payload).skip(HEADER_SIZE as int) == payload,
{
    law_header_round_trip(header, payload);
    assert((header.encoded() + payload).skip(16) =~= payload);
}

/// A built packet is read back with the peers, the type and the payload that it
/// was built from; it is clear, and has gone one hop.
pub proof fn law_build_parse(from_peer_id: u32, to_peer_id: u32, packet_type: u8, payload: Seq<u8>)
    requires
        payload.len() <= u32::MAX,
    ensures
        parsed_packet(built_packet(from_peer_id, to_peer_id, packet_type, payload)) == Ok::<
            PacketHeader,
            EdgeError,
        >(
            PacketHeader {
                from_peer_id,
                to_peer_id,
                packet_type,
                flags: 0,
                forward_counter: 1,
                reserved: 0,
                len: payload.len() as u32,
            },
        ),
        built_packet(from_peer_id, to_peer_id, packet_type, payload).skip(HEADER_SIZE as int) == payload,
{
    let header = PacketHeader {
        from_peer_id,
        to_peer_id,
        packet_type,
        flags: 0,
        forward_counter: 1,
        reserved: 0,
        len: payload.len() as u32,
    };
    assert(0u8 & 1u8 == 0u8) by (bit_vector);
    law_join_split(header, payload);
}

/// Forwarding changes nothing but the hop counter: the result is a packet with
/// the same peers, type, flags, length and payload.
pub proof fn law_forward_keeps_packet(bytes: Seq<u8>)
    requires
        is_packet(bytes),
        header_of(bytes).forward_counter <= MAX_FORWARD_HOPS,
    ensures
        is_packet(forwarded(bytes)),
        header_of(forwarded(bytes)) == (PacketHeader {
            forward_counter: (header_of(bytes).forward_counter + 1) as u8,
            ..header_of(bytes)
        }),
        forwarded(bytes).skip(HEADER_SIZE as int) == bytes.skip(HEADER_SIZE as int),
{
    let f = forwarded(bytes);
    assert(f.subrange(0, 4) =~= bytes.subrange(0, 4));
    assert(f.subrange(4, 8) =~= bytes.subrange(4, 8));
    assert(f.subrange(12, 16) =~= bytes.subrange(12, 16));
    assert(f.skip(16) =~= bytes.skip(16));
}

/// `bytes` after `hops` forwardings.
pub open spec fn forwarded_times(bytes: Seq<u8>, hops: nat) -> Seq<u8>
    decreases hops,
{
    if hops == 0 {
        bytes
    } else {
        forwarded(forwarded_times(bytes, (hops - 1) as nat))
    }
}

/// A packet that can be forwarded comes to the hop limit: as many forwardings
/// as its counter leaves succeed, and then the counter stands above the limit,
/// where no further forwarding is allowed.
pub proof fn law_forward_hop_budget(bytes: Seq<u8>, hops: nat)
    requires
        is_packet(bytes),
        hops + header_of(bytes).forward_counter <= MAX_FORWARD_HOPS + 1,
    ensures
        is_packet(forwarded_times(bytes, hops)),
        header_of(forwarded_times(bytes, hops)).forward_counter == header_of(bytes).forward_counter + hops,
        header_of(forwarded_times(bytes, hops)).forward_counter > MAX_FORWARD_HOPS <==> hops
            == MAX_FORWARD_HOPS + 1 - header_of(bytes).forward_counter,
    decreases hops,
{
    if hops > 0 {
        law_forward_hop_budget(bytes, (hops - 1) as nat);
        law_forward_keeps_packet(forwarded_times(bytes, (hops - 1) as nat));
    }
}

/// A Pong differs from its Ping in the type alone, and is no Ping itself.
pub proof fn law_pong_keeps_packet(bytes: Seq<u8>)
    requires
        is_ping(bytes),
    ensures
        is_packet(ponged(bytes)),
        !is_ping(ponged(bytes)),
        header_of(ponged(bytes)) == (PacketHeader { packet_type: 5, ..header_of(bytes) }),
        ponged(bytes).skip(HEADER_SIZE as int) == bytes.skip(HEADER_SIZE as int),
{
    let p = ponged(bytes);
    assert(p.subrange(0, 4) =~= bytes.subrange(0, 4));
    assert(p.subrange(4, 8) =~= bytes.subrange(4, 8));
    assert(p.subrange(12, 16) =~= bytes.subrange(12, 16));
    assert(p.skip(16) =~= bytes.skip(16));
}

} // verus!
