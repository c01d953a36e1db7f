//! The packets of a session: encryption, decryption and key epochs.
//!
//! An encrypted payload is the ciphertext, the tag and the nonce; the nonce is the
//! epoch and the sequence number.
use vstd::prelude::*;

use crate::bytes;
use crate::crypto;
use crate::error::EdgeError;
use crate::replay;
use crate::replay::{RxState, RxView};

verus! {

pub const ROTATE_AFTER_PACKETS: u64 = 1_000_000;

pub const ROTATE_AFTER_MS: u64 = 600_000;

pub const DECRYPT_FAIL_THRESHOLD: u32 = 10;

/// The bytes behind the ciphertext: the tag and the nonce.
pub const TAIL_SIZE: usize = 28;

/// What a session remembers of its packets.
#[derive(Debug, Clone, Copy)]
pub struct Traffic {
    send_epoch: u32,
    send_seq: [u64; 2],
    send_epoch_started_ms: u64,
    send_packets_since_epoch: u64,
    rx: RxState,
    decrypt_fail_count: u32,
}

#[verifier::ext_equal]
pub struct TrafficView {
    pub send_epoch: u32,
    pub send_seq: Seq<u64>,
    pub send_epoch_started_ms: u64,
    pub send_packets_since_epoch: u64,
    pub rx: RxView,
    pub decrypt_fail_count: u32,
}

impl View for Traffic {
    type V = TrafficView;

    closed spec fn view(&self) -> TrafficView {
        TrafficView {
            send_epoch: self.send_epoch,
            send_seq: self.send_seq@,
            send_epoch_started_ms: self.send_epoch_started_ms,
            send_packets_since_epoch: self.send_packets_since_epoch,
            rx: self.rx@,
            decrypt_fail_count: self.decrypt_fail_count,
        }
    }
}

/// The epoch after `epoch`.
pub open spec fn next_epoch(epoch: u32) -> u32 {
    if epoch == u32::MAX {
        0
    } else {
        (epoch + 1) as u32
    }
}

fn increment(epoch: u32) -> (r: u32)
    ensures
        r == next_epoch(epoch),
{
    if epoch == u32::MAX {
        0
    } else {
        epoch + 1
    }
}

/// The nonce of a packet.
pub open spec fn nonce_of(epoch: u32, seq: u64) -> Seq<u8> {
    bytes::u32_be(epoch) + bytes::u64_be(seq)
}

/// The parts of an encrypted payload.
pub open spec fn ciphertext_of(payload: Seq<u8>) -> Seq<u8> {
    payload.take(payload.len() - TAIL_SIZE)
}

pub open spec fn tag_of(payload: Seq<u8>) -> Seq<u8> {
    payload.subrange(payload.len() - TAIL_SIZE, payload.len() - crypto::AEAD_NONCE_SIZE)
}

pub open spec fn nonce_part(payload: Seq<u8>) -> Seq<u8> {
    payload.skip(payload.len() - crypto::AEAD_NONCE_SIZE)
}

pub open spec fn epoch_of(payload: Seq<u8>) -> u32 {
    bytes::u32_of_be(nonce_part(payload).subrange(0, 4))
}

pub open spec fn sequence_of(payload: Seq<u8>) -> u64 {
    bytes::u64_of_be(nonce_part(payload).subrange(4, 12))
}

/// What decrypting a payload gives, whatever was received before.
pub open spec fn opened_payload(root_key: Seq<u8>, algorithm: Seq<char>, direction: u8, payload: Seq<u8>) -> Result<
    Seq<u8>,
    EdgeError,
> {
    crypto::opened_as(
        algorithm,
        crypto::traffic_key_of(root_key, epoch_of(payload), direction),
        nonce_part(payload),
        ciphertext_of(payload),
        tag_of(payload),
    )
}

/// The payload made of a ciphertext, a tag and a nonce.
pub open spec fn framed(ciphertext: Seq<u8>, tag: Seq<u8>, nonce: Seq<u8>) -> Seq<u8> {
    ciphertext + tag + nonce
}

impl TrafficView {
    /// There is a number for each direction, and the windows are in shape.
    pub open spec fn is_shaped(self) -> bool {
        self.send_seq.len() == 2 && replay::is_shaped(self.rx)
    }

    /// A session in which nothing was sent or received.
    pub open spec fn initial(clock_ms: u64) -> TrafficView {
        TrafficView {
            send_epoch: 0,
            send_seq: seq![0u64, 0u64],
            send_epoch_started_ms: clock_ms,
            send_packets_since_epoch: 0,
            rx: RxView::blank(),
            decrypt_fail_count: 0,
        }
    }

    /// The session before one more packet is sent: after many packets or a long
    /// time a new epoch begins.
    pub open spec fn rotated(self, clock_ms: u64) -> TrafficView {
        let packets = if self.send_packets_since_epoch == u64::MAX {
            u64::MAX
        } else {
            (self.send_packets_since_epoch + 1) as u64
        };
        if packets < ROTATE_AFTER_PACKETS && clock_ms - self.send_epoch_started_ms < ROTATE_AFTER_MS {
            TrafficView { send_packets_since_epoch: packets, ..self }
        } else {
            TrafficView {
                send_epoch: next_epoch(self.send_epoch),
                send_epoch_started_ms: clock_ms,
                send_packets_since_epoch: 0,
                ..self
            }
        }
    }

    /// The session once a packet has been encrypted, and the payload.
    pub open spec fn encrypted(
        self,
        root_key: Seq<u8>,
        algorithm: Seq<char>,
        direction: int,
        plaintext: Seq<u8>,
        clock_ms: u64,
    ) -> (TrafficView, Result<Seq<u8>, EdgeError>) {
        let now = self.rotated(clock_ms);
        let seq = now.send_seq[direction];
        let nonce = nonce_of(now.send_epoch, seq);
        let key = crypto::traffic_key_of(root_key, now.send_epoch, direction as u8);
        if seq == u64::MAX {
            (now, Err(EdgeError::SequenceExhausted))
        } else {
            (
                TrafficView { send_seq: now.send_seq.update(direction, (seq + 1) as u64), ..now },
                match crypto::sealed_as(algorithm, key, nonce, plaintext) {
                    Ok(sealed) => Ok(framed(sealed.0, sealed.1, nonce)),
                    Err(error) => Err(error),
                },
            )
        }
    }

    /// Without what was idle for too long.
    pub open spec fn evicted(self, clock_ms: u64) -> TrafficView {
        TrafficView { rx: self.rx.evicted(clock_ms), ..self }
    }

    /// The session once an admitted packet has been decrypted with a given
    /// outcome, and what is handed on: the text of a new packet, or nothing. After
    /// too many failures in a row the failure itself is reported.
    pub open spec fn judged(
        self,
        outcome: Result<Seq<u8>, EdgeError>,
        epoch: u32,
        seq: u64,
        direction: int,
        clock_ms: u64,
    ) -> (TrafficView, Result<Option<Seq<u8>>, EdgeError>) {
        match outcome {
            Ok(plaintext) => {
                let (rx, is_new) = self.rx.committed(epoch, seq, direction, clock_ms);
                (
                    TrafficView { rx, decrypt_fail_count: 0, ..self },
                    Ok(
                        if is_new {
                            Some(plaintext)
                        } else {
                            None
                        },
                    ),
                )
            },
            Err(error) => {
                let failures = if self.decrypt_fail_count == u32::MAX {
                    u32::MAX
                } else {
                    (self.decrypt_fail_count + 1) as u32
                };
                (
                    TrafficView { decrypt_fail_count: failures, ..self },
                    if failures >= DECRYPT_FAIL_THRESHOLD {
                        Err(error)
                    } else {
                        Ok(None)
                    },
                )
            },
        }
    }

    /// The session once a payload has come in, and what is handed on.
    pub open spec fn decrypted(
        self,
        root_key: Seq<u8>,
        algorithm: Seq<char>,
        direction: int,
        payload: Seq<u8>,
        clock_ms: u64,
    ) -> (TrafficView, Result<Option<Seq<u8>>, EdgeError>) {
        let epoch = epoch_of(payload);
        let seq = sequence_of(payload);
        let now = self.evicted(clock_ms);
        if payload.len() < TAIL_SIZE {
            (self, Err(EdgeError::PayloadTooShort))
        } else if !now.rx.admits(now.send_epoch, epoch, seq, direction) {
            (now, Ok(None))
        } else {
            now.judged(
                opened_payload(root_key, algorithm, direction as u8, payload),
                epoch,
                seq,
                direction,
                clock_ms,
            )
        }
    }

    /// The session once it has been synchronized anew: a new epoch, later than all
    /// that were used, and a grace for what is still on its way.
    pub open spec fn synchronized(self, clock_ms: u64, expires_at_ms: u64) -> TrafficView {
        TrafficView {
            send_epoch: next_epoch(self.rx.latest_epoch(self.send_epoch)),
            send_seq: seq![0u64, 0u64],
            send_epoch_started_ms: clock_ms,
            send_packets_since_epoch: 0,
            rx: self.rx.synchronized(expires_at_ms),
            decrypt_fail_count: 0,
        }
    }
}

/// The text, or why there is none.
pub open spec fn text_view(r: Result<Vec<u8>, EdgeError>) -> Result<Seq<u8>, EdgeError> {
    match r {
        Ok(text) => Ok(text@),
        Err(error) => Err(error),
    }
}

/// The text of a new packet, nothing, or an error.
pub open spec fn delivery_view(r: Result<Option<Vec<u8>>, EdgeError>) -> Result<Option<Seq<u8>>, EdgeError> {
    match r {
        Ok(Some(text)) => Ok(Some(text@)),
        Ok(None) => Ok(None),
        Err(error) => Err(error),
    }
}

/// Puts a payload together.
pub fn frame_payload(ciphertext: Vec<u8>, tag: &[u8; 16], nonce: &[u8; 12]) -> (r: Vec<u8>)
    ensures
        r@ == framed(ciphertext@, tag@, nonce@),
{
    let mut output = ciphertext;
    bytes::put_bytes(&mut output, tag);
    bytes::put_bytes(&mut output, nonce);
    output
}

/// The nonce of a packet.
pub fn packet_nonce(epoch: u32, sequence: u64) -> (r: [u8; 12])
    ensures
        r@ == nonce_of(epoch, sequence),
{
    let mut nonce: Vec<u8> = Vec::new();
    bytes::put_u32_be(&mut nonce, epoch);
    bytes::put_u64_be(&mut nonce, sequence);
    proof {
        bytes::lemma_u32_be_inverse(epoch);
        bytes::lemma_u64_be_inverse(sequence);
        assert(nonce@ =~= nonce_of(epoch, sequence));
    }
    bytes::to_nonce(&nonce)
}

impl Traffic {
    /// Every session is in shape.
    pub proof fn lemma_shaped(self)
        ensures
            self@.is_shaped(),
    {
        self.rx.lemma_shaped();
    }

    pub fn new(clock_ms: u64) -> (r: Self)
        ensures
            r@ == TrafficView::initial(clock_ms),
            r@.is_shaped(),
    {
        let r = Traffic {
            send_epoch: 0,
            send_seq: [0u64, 0u64],
            send_epoch_started_ms: clock_ms,
            send_packets_since_epoch: 0,
            rx: RxState::new(),
            decrypt_fail_count: 0,
        };
        assert(r@ =~= TrafficView::initial(clock_ms));
        r
    }

    /// The epoch of the packets that are sent.
    pub fn send_epoch(&self) -> (r: u32)
        ensures
            r == self@.send_epoch,
    {
        self.send_epoch
    }

    pub fn synchronize(&mut self, clock_ms: u64, expires_at_ms: u64)
        ensures
            final(self)@ == old(self)@.synchronized(clock_ms, expires_at_ms),
            final(self)@.is_shaped(),
    {
        let latest: u32 = self.rx.latest_epoch(self.send_epoch);
        self.send_epoch = increment(latest);
        self.send_seq = [0u64, 0u64];
        self.send_epoch_started_ms = clock_ms;
        self.send_packets_since_epoch = 0;
        self.rx.synchronize(expires_at_ms);
        self.decrypt_fail_count = 0;
        assert(self@ =~= old(self)@.synchronized(clock_ms, expires_at_ms));
    }

    pub fn maybe_rotate_epoch(&mut self, clock_ms: u64)
        ensures
            final(self)@ == old(self)@.rotated(clock_ms),
            final(self)@.is_shaped(),
    {
        proof {
            self.rx.lemma_shaped();
        }
        self.send_packets_since_epoch = self.send_packets_since_epoch.saturating_add(1);
        if self.send_packets_since_epoch < ROTATE_AFTER_PACKETS && clock_ms.saturating_sub(self.send_epoch_started_ms)
            < ROTATE_AFTER_MS {
            return;
        }
        self.send_epoch = increment(self.send_epoch);
        self.send_epoch_started_ms = clock_ms;
        self.send_packets_since_epoch = 0;
    }

    /// Encrypts a packet. Whoever has the root key can decrypt the payload, which
    /// carries the epoch and the sequence number of the packet.
    pub fn encrypt_payload(
        &mut self,
        root_key: &[u8; 32],
        algorithm: &str,
        direction: usize,
        plaintext: &[u8],
        clock_ms: u64,
    ) -> (r: Result<Vec<u8>, EdgeError>)
        requires
            direction < 2,
            plaintext@.len() <= crypto::MAX_TEXT_LEN,
        ensures
            (final(self)@, text_view(r)) == old(self)@.encrypted(
                root_key@,
                algorithm@,
                direction as int,
                plaintext@,
                clock_ms,
            ),
            final(self)@.is_shaped(),
            r matches Ok(payload) ==> {
                &&& payload@.len() == plaintext@.len() + TAIL_SIZE
                &&& epoch_of(payload@) == old(self)@.rotated(clock_ms).send_epoch
                &&& sequence_of(payload@) == old(self)@.rotated(clock_ms).send_seq[direction as int]
                &&& opened_payload(root_key@, algorithm@, direction as u8, payload@) == Ok::<Seq<u8>, EdgeError>(
                    plaintext@,
                )
            },
    {
        self.maybe_rotate_epoch(clock_ms);
        let ghost now = self@;
        let epoch: u32 = self.send_epoch;
        let sequence: u64 = self.send_seq[direction];
        if sequence == u64::MAX {
            return Err(EdgeError::SequenceExhausted);
        }
        self.send_seq[direction] = sequence + 1;
        assert(self@ =~= (TrafficView { send_seq: now.send_seq.update(direction as int, (sequence + 1) as u64), ..now }));
        let nonce = packet_nonce(epoch, sequence);
        let key = crypto::traffic_key(root_key, epoch, direction);
        match crypto::seal(algorithm, &key, &nonce, plaintext) {
            Ok((ciphertext, tag)) => {
                let ghost text = ciphertext@;
                let payload = frame_payload(ciphertext, &tag, &nonce);
                proof {
                    assert(ciphertext_of(payload@) =~= text);
                    assert(tag_of(payload@) =~= tag@);
                    assert(nonce_part(payload@) =~= nonce@);
                    bytes::lemma_u32_be_inverse(epoch);
                    bytes::lemma_u64_be_inverse(sequence);
                    assert(nonce@.subrange(0, 4) =~= bytes::u32_be(epoch));
                    assert(nonce@.subrange(4, 12) =~= bytes::u64_be(sequence));
                }
                Ok(payload)
            },
            Err(error) => Err(error),
        }
    }

    /// Takes in the outcome of decrypting a packet that was admitted.
    pub fn judge(
        &mut self,
        outcome: Result<Vec<u8>, EdgeError>,
        epoch: u32,
        sequence: u64,
        direction: usize,
        clock_ms: u64,
    ) -> (r: Result<Option<Vec<u8>>, EdgeError>)
        requires
            direction < 2,
        ensures
            (final(self)@, delivery_view(r)) == old(self)@.judged(
                text_view(outcome),
                epoch,
                sequence,
                direction as int,
                clock_ms,
            ),
            final(self)@.is_shaped(),
    {
        proof {
            self.rx.lemma_shaped();
        }
        match outcome {
            Ok(plaintext) => {
                self.decrypt_fail_count = 0;
                if !self.rx.commit_replay(epoch, sequence, direction, clock_ms) {
                    return Ok(None);
                }
                Ok(Some(plaintext))
            },
            Err(error) => {
                self.decrypt_fail_count = self.decrypt_fail_count.saturating_add(1);
                if self.decrypt_fail_count >= DECRYPT_FAIL_THRESHOLD {
                    return Err(error);
                }
                Ok(None)
            },
        }
    }

    /// Decrypts a packet. Nothing comes out of a packet that was received before,
    /// is too far ahead or does not authenticate.
    pub fn decrypt_payload(
        &mut self,
        root_key: &[u8; 32],
        algorithm: &str,
        direction: usize,
        payload: &[u8],
        clock_ms: u64,
    ) -> (r: Result<Option<Vec<u8>>, EdgeError>)
        requires
            direction < 2,
            payload@.len() <= crypto::MAX_TEXT_LEN,
        ensures
            (final(self)@, delivery_view(r)) == old(self)@.decrypted(
                root_key@,
                algorithm@,
                direction as int,
                payload@,
                clock_ms,
            ),
            final(self)@.is_shaped(),
            r matches Ok(Some(plaintext)) ==> plaintext@.len() == payload@.len() - TAIL_SIZE,
    {
        proof {
            self.rx.lemma_shaped();
        }
        if payload.len() < TAIL_SIZE {
            return Err(EdgeError::PayloadTooShort);
        }
        let size: usize = payload.len();
        let text_len: usize = size - TAIL_SIZE;
        let ciphertext = vstd::slice::slice_subrange(payload, 0, text_len);
        let tag = bytes::to_tag(vstd::slice::slice_subrange(payload, text_len, text_len + crypto::AEAD_TAG_SIZE));
        let nonce = bytes::to_nonce(vstd::slice::slice_subrange(payload, text_len + crypto::AEAD_TAG_SIZE, size));
        proof {
            assert(ciphertext@ =~= ciphertext_of(payload@));
            assert(tag@ =~= tag_of(payload@));
            assert(nonce@ =~= nonce_part(payload@));
        }
        let epoch: u32 = bytes::get_u32_be(&nonce, 0);
        let sequence: u64 = bytes::get_u64_be(&nonce, 4);
        self.rx.evict_old_rx_slots(clock_ms);
        if !self.rx.precheck_replay(self.send_epoch, epoch, sequence, direction) {
            return Ok(None);
        }
        let key = crypto::traffic_key(root_key, epoch, direction);
        let outcome = crypto::open(algorithm, &key, &nonce, ciphertext, &tag);
        self.judge(outcome, epoch, sequence, direction, clock_ms)
    }
}

/// What one end encrypts, the other end hands on, if it has not received it before
/// and the epoch is not too far ahead. `payload` is what `encrypt_payload` says of
/// its result.
pub proof fn law_decrypts_what_was_encrypted(
    receiver: TrafficView,
    root_key: Seq<u8>,
    algorithm: Seq<char>,
    direction: int,
    payload: Seq<u8>,
    plaintext: Seq<u8>,
    clock_ms: u64,
)
    requires
        payload.len() >= TAIL_SIZE,
        opened_payload(root_key, algorithm, direction as u8, payload) == Ok::<Seq<u8>, EdgeError>(plaintext),
        receiver.evicted(clock_ms).rx.admits(
            receiver.send_epoch,
            epoch_of(payload),
            sequence_of(payload),
            direction,
        ),
    ensures
        receiver.decrypted(root_key, algorithm, direction, payload, clock_ms).1 == Ok::<
            Option<Seq<u8>>,
            EdgeError,
        >(Some(plaintext)),
        receiver.decrypted(root_key, algorithm, direction, payload, clock_ms).0.decrypt_fail_count == 0,
{
    replay::law_admitted_packet_is_new(
        receiver.evicted(clock_ms).rx,
        receiver.send_epoch,
        epoch_of(payload),
        sequence_of(payload),
        direction,
        clock_ms,
    );
}

/// A payload that comes in.
#[verifier::ext_equal]
pub struct Receipt {
    pub direction: int,
    pub payload: Seq<u8>,
    pub clock_ms: u64,
}

/// The session once the first `count` payloads have come in.
pub open spec fn after_receipts(
    receiver: TrafficView,
    root_key: Seq<u8>,
    algorithm: Seq<char>,
    receipts: Seq<Receipt>,
    count: nat,
) -> TrafficView
    decreases count,
{
    if count == 0 {
        receiver
    } else {
        let receipt = receipts[count - 1];
        after_receipts(receiver, root_key, algorithm, receipts, (count - 1) as nat).decrypted(
            root_key,
            algorithm,
            receipt.direction,
            receipt.payload,
            receipt.clock_ms,
        ).0
    }
}

/// What is handed on when the payload at `index` comes in after those before it.
pub open spec fn delivery_at(
    receiver: TrafficView,
    root_key: Seq<u8>,
    algorithm: Seq<char>,
    receipts: Seq<Receipt>,
    index: int,
) -> Result<Option<Seq<u8>>, EdgeError> {
    after_receipts(receiver, root_key, algorithm, receipts, index as nat).decrypted(
        root_key,
        algorithm,
        receipts[index].direction,
        receipts[index].payload,
        receipts[index].clock_ms,
    ).1
}

/// When the payload at `index` comes in, an epoch of a direction is still remembered.
pub open spec fn epoch_is_remembered(
    receiver: TrafficView,
    root_key: Seq<u8>,
    algorithm: Seq<char>,
    receipts: Seq<Receipt>,
    index: int,
    epoch: u32,
    direction: int,
) -> bool {
    let before = after_receipts(receiver, root_key, algorithm, receipts, index as nat);
    replay::is_remembered(before.rx, epoch, direction, receipts[index].clock_ms)
}

proof fn lemma_receipts_in_order(
    receiver: TrafficView,
    root_key: Seq<u8>,
    algorithm: Seq<char>,
    receipts: Seq<Receipt>,
    count: nat,
    epoch: u32,
    direction: int,
)
    requires
        replay::is_shaped(receiver.rx),
        0 <= direction < 2,
        replay::ordered(receiver.rx, direction),
        count <= receipts.len(),
        forall|i: int| 0 <= i < receipts.len() ==> 0 <= (#[trigger] receipts[i]).direction < 2,
        forall|i: int|
            0 <= i < count ==> #[trigger] epoch_is_remembered(
                receiver,
                root_key,
                algorithm,
                receipts,
                i,
                epoch,
                direction,
            ),
    ensures
        ({
            let rx = after_receipts(receiver, root_key, algorithm, receipts, count).rx;
            replay::is_shaped(rx) && replay::ordered(rx, direction)
        }),
    decreases count,
{
    if count > 0 {
        let index = count - 1;
        lemma_receipts_in_order(receiver, root_key, algorithm, receipts, index as nat, epoch, direction);
        assert(epoch_is_remembered(receiver, root_key, algorithm, receipts, index, epoch, direction));
        let receipt = receipts[index];
        let rx = after_receipts(receiver, root_key, algorithm, receipts, index as nat).rx;
        replay::law_eviction_keeps_order(rx, receipt.clock_ms, direction);
        replay::law_commit_keeps_order(
            rx.evicted(receipt.clock_ms),
            epoch_of(receipt.payload),
            sequence_of(receipt.payload),
            receipt.direction,
            receipt.clock_ms,
            direction,
        );
    }
}

proof fn lemma_delivered_stays_a_replay(
    receiver: TrafficView,
    root_key: Seq<u8>,
    algorithm: Seq<char>,
    receipts: Seq<Receipt>,
    first: int,
    count: nat,
)
    requires
        replay::is_shaped(receiver.rx),
        0 <= first < count <= receipts.len(),
        replay::ordered(receiver.rx, receipts[first].direction),
        forall|i: int| 0 <= i < receipts.len() ==> 0 <= (#[trigger] receipts[i]).direction < 2,
        forall|i: int|
            0 <= i < count ==> #[trigger] epoch_is_remembered(
                receiver,
                root_key,
                algorithm,
                receipts,
                i,
                epoch_of(receipts[first].payload),
                receipts[first].direction,
            ),
        delivery_at(receiver, root_key, algorithm, receipts, first) matches Ok(Some(_)),
    ensures
        replay::is_replay(
            after_receipts(receiver, root_key, algorithm, receipts, count).rx,
            epoch_of(receipts[first].payload),
            sequence_of(receipts[first].payload),
            receipts[first].direction,
        ),
    decreases count,
{
    let epoch = epoch_of(receipts[first].payload);
    let seq = sequence_of(receipts[first].payload);
    let direction = receipts[first].direction;
    let index = count - 1;
    let receipt = receipts[index];
    let rx = after_receipts(receiver, root_key, algorithm, receipts, index as nat).rx;
    let now = rx.evicted(receipt.clock_ms);
    assert(epoch_is_remembered(receiver, root_key, algorithm, receipts, index, epoch, direction));
    lemma_receipts_in_order(receiver, root_key, algorithm, receipts, index as nat, epoch, direction);
    replay::law_eviction_keeps_order(rx, receipt.clock_ms, direction);
    if index == first {
        replay::law_committed_packet_is_a_replay(now, epoch, seq, direction, receipt.clock_ms);
    } else {
        lemma_delivered_stays_a_replay(receiver, root_key, algorithm, receipts, first, index as nat);
        replay::law_eviction_keeps_replays(rx, epoch, seq, direction, receipt.clock_ms);
        replay::law_replay_stays_a_replay(
            now,
            epoch,
            seq,
            direction,
            epoch_of(receipt.payload),
            sequence_of(receipt.payload),
            receipt.direction,
            receipt.clock_ms,
        );
    }
}

/// A packet that was handed on is not handed on again, whatever comes in between, as
/// long as its epoch is remembered: the newer slot of its direction has not been idle
/// for too long. Other slots may come and go.
pub proof fn law_no_packet_is_handed_on_twice(
    receiver: TrafficView,
    root_key: Seq<u8>,
    algorithm: Seq<char>,
    receipts: Seq<Receipt>,
    first: int,
    second: int,
)
    requires
        replay::is_shaped(receiver.rx),
        0 <= first < second < receipts.len(),
        replay::ordered(receiver.rx, receipts[first].direction),
        forall|i: int| 0 <= i < receipts.len() ==> 0 <= (#[trigger] receipts[i]).direction < 2,
        forall|i: int|
            0 <= i <= second ==> #[trigger] epoch_is_remembered(
                receiver,
                root_key,
                algorithm,
                receipts,
                i,
                epoch_of(receipts[first].payload),
                receipts[first].direction,
            ),
        receipts[first].direction == receipts[second].direction,
        epoch_of(receipts[first].payload) == epoch_of(receipts[second].payload),
        sequence_of(receipts[first].payload) == sequence_of(receipts[second].payload),
        delivery_at(receiver, root_key, algorithm, receipts, first) matches Ok(Some(_)),
    ensures
        !(delivery_at(receiver, root_key, algorithm, receipts, second) matches Ok(Some(_))),
        receipts[second].payload.len() >= TAIL_SIZE ==> delivery_at(receiver, root_key, algorithm, receipts, second)
            == Ok::<Option<Seq<u8>>, EdgeError>(None),
{
    let epoch = epoch_of(receipts[first].payload);
    let seq = sequence_of(receipts[first].payload);
    let direction = receipts[first].direction;
    lemma_delivered_stays_a_replay(receiver, root_key, algorithm, receipts, first, second as nat);
    lemma_receipts_in_order(receiver, root_key, algorithm, receipts, second as nat, epoch, direction);
    assert(epoch_is_remembered(receiver, root_key, algorithm, receipts, second, epoch, direction));
    let before = after_receipts(receiver, root_key, algorithm, receipts, second as nat);
    replay::law_eviction_keeps_replays(before.rx, epoch, seq, direction, receipts[second].clock_ms);
    replay::law_replay_is_not_admitted(
        before.rx.evicted(receipts[second].clock_ms),
        before.send_epoch,
        epoch,
        seq,
        direction,
    );
}

/// The same packet again, with nothing in between, is not handed on if it comes within
/// the time for which a slot may be idle, unless the newer slot of its direction has
/// been dropped by then, or the grace after a synchronization is over.
pub proof fn law_immediate_repeat_is_dropped(
    receiver: TrafficView,
    root_key: Seq<u8>,
    algorithm: Seq<char>,
    direction: int,
    payload: Seq<u8>,
    clock_ms: u64,
    repeated_ms: u64,
)
    requires
        replay::is_shaped(receiver.rx),
        0 <= direction < 2,
        receiver.decrypted(root_key, algorithm, direction, payload, clock_ms).1 matches Ok(Some(_)),
        repeated_ms - clock_ms <= replay::RX_EPOCH_IDLE_MS,
        ({
            let rx = receiver.decrypted(root_key, algorithm, direction, payload, clock_ms).0.rx;
            &&& rx.slots[direction][0].evicted(repeated_ms) == rx.slots[direction][0]
            &&& rx.grace.valid ==> repeated_ms < rx.grace.expires_at_ms
        }),
    ensures
        receiver.decrypted(root_key, algorithm, direction, payload, clock_ms).0.decrypted(
            root_key,
            algorithm,
            direction,
            payload,
            repeated_ms,
        ).1 == Ok::<Option<Seq<u8>>, EdgeError>(None),
{
    let epoch = epoch_of(payload);
    let seq = sequence_of(payload);
    let now = receiver.rx.evicted(clock_ms);
    let after = receiver.decrypted(root_key, algorithm, direction, payload, clock_ms).0;
    replay::law_eviction_keeps_order(receiver.rx, clock_ms, direction);
    replay::law_committed_packet_is_a_replay(now, epoch, seq, direction, clock_ms);
    replay::law_fresh_replay_outlives_eviction(now, epoch, seq, direction, clock_ms, repeated_ms);
    replay::law_replay_is_not_admitted(after.rx.evicted(repeated_ms), after.send_epoch, epoch, seq, direction);
}

/// Nonces tell packets apart.
pub proof fn law_nonce_is_unique(epoch: u32, seq: u64, other_epoch: u32, other_seq: u64)
    requires
        nonce_of(epoch, seq) == nonce_of(other_epoch, other_seq),
    ensures
        epoch == other_epoch,
        seq == other_seq,
{
    bytes::lemma_u32_be_inverse(epoch);
    bytes::lemma_u32_be_inverse(other_epoch);
    bytes::lemma_u64_be_inverse(seq);
    bytes::lemma_u64_be_inverse(other_seq);
    let a = nonce_of(epoch, seq);
    assert(a.subrange(0, 4) =~= bytes::u32_be(epoch));
    assert(a.subrange(0, 4) =~= bytes::u32_be(other_epoch));
    assert(a.subrange(4, 12) =~= bytes::u64_be(seq));
    assert(a.subrange(4, 12) =~= bytes::u64_be(other_seq));
}

/// Every packet that is sent in a direction has a higher number than the one
/// before, so that no nonce is used twice under one key; the other direction is
/// not touched.
pub proof fn law_sequence_goes_up(
    sender: TrafficView,
    root_key: Seq<u8>,
    algorithm: Seq<char>,
    direction: int,
    plaintext: Seq<u8>,
    clock_ms: u64,
)
    requires
        0 <= direction < 2,
        sender.send_seq.len() == 2,
        sender.encrypted(root_key, algorithm, direction, plaintext, clock_ms).1 is Ok,
    ensures
        ({
            let after = sender.encrypted(root_key, algorithm, direction, plaintext, clock_ms).0;
            &&& after.send_seq[direction] == sender.send_seq[direction] + 1
            &&& after.send_seq[1 - direction] == sender.send_seq[1 - direction]
        }),
{
}

/// A text that is sent.
#[verifier::ext_equal]
pub struct Sending {
    pub direction: int,
    pub plaintext: Seq<u8>,
    pub clock_ms: u64,
}

/// The session once the first `count` texts have been sent.
pub open spec fn after_sendings(
    sender: TrafficView,
    root_key: Seq<u8>,
    algorithm: Seq<char>,
    sendings: Seq<Sending>,
    count: nat,
) -> TrafficView
    decreases count,
{
    if count == 0 {
        sender
    } else {
        let sending = sendings[count - 1];
        after_sendings(sender, root_key, algorithm, sendings, (count - 1) as nat).encrypted(
            root_key,
            algorithm,
            sending.direction,
            sending.plaintext,
            sending.clock_ms,
        ).0
    }
}

/// The payload that the text at `index` is sent in.
pub open spec fn payload_at(
    sender: TrafficView,
    root_key: Seq<u8>,
    algorithm: Seq<char>,
    sendings: Seq<Sending>,
    index: int,
) -> Result<Seq<u8>, EdgeError> {
    after_sendings(sender, root_key, algorithm, sendings, index as nat).encrypted(
        root_key,
        algorithm,
        sendings[index].direction,
        sendings[index].plaintext,
        sendings[index].clock_ms,
    ).1
}

proof fn lemma_sequence_grows(
    sender: TrafficView,
    root_key: Seq<u8>,
    algorithm: Seq<char>,
    sendings: Seq<Sending>,
    direction: int,
    from: nat,
    to: nat,
)
    requires
        sender.send_seq.len() == 2,
        0 <= direction < 2,
        from <= to <= sendings.len(),
        forall|i: int| 0 <= i < sendings.len() ==> 0 <= (#[trigger] sendings[i]).direction < 2,
    ensures
        ({
            let a = after_sendings(sender, root_key, algorithm, sendings, from).send_seq;
            let b = after_sendings(sender, root_key, algorithm, sendings, to).send_seq;
            a.len() == 2 && b.len() == 2 && a[direction] <= b[direction]
        }),
    decreases to,
{
    if to > 0 {
        let index = to - 1;
        let sending = sendings[index];
        assert(0 <= sending.direction < 2);
        if from < to {
            lemma_sequence_grows(sender, root_key, algorithm, sendings, direction, from, index as nat);
        } else {
            lemma_sequence_grows(sender, root_key, algorithm, sendings, direction, index as nat, index as nat);
        }
    }
}

/// The nonce of a payload that was put together is the one it was made with.
proof fn lemma_framed_nonce(ciphertext: Seq<u8>, tag: Seq<u8>, epoch: u32, seq: u64)
    ensures
        nonce_part(framed(ciphertext, tag, nonce_of(epoch, seq))) == nonce_of(epoch, seq),
{
    bytes::lemma_u32_be_inverse(epoch);
    bytes::lemma_u64_be_inverse(seq);
    assert(nonce_part(framed(ciphertext, tag, nonce_of(epoch, seq))) =~= nonce_of(epoch, seq));
}

/// A payload carries the nonce that it was encrypted with: the epoch, and the number of the
/// packet in its direction.
pub proof fn law_payload_carries_its_nonce(
    sender: TrafficView,
    root_key: Seq<u8>,
    algorithm: Seq<char>,
    direction: int,
    plaintext: Seq<u8>,
    clock_ms: u64,
)
    ensures
        sender.encrypted(root_key, algorithm, direction, plaintext, clock_ms).1 matches Ok(payload) ==> nonce_part(
            payload,
        ) == nonce_of(sender.rotated(clock_ms).send_epoch, sender.rotated(clock_ms).send_seq[direction]),
{
    let now = sender.rotated(clock_ms);
    let seq = now.send_seq[direction];
    let key = crypto::traffic_key_of(root_key, now.send_epoch, direction as u8);
    let sealed = crypto::sealed_as(algorithm, key, nonce_of(now.send_epoch, seq), plaintext);
    if sealed is Ok {
        lemma_framed_nonce(sealed->Ok_0.0, sealed->Ok_0.1, now.send_epoch, seq);
    }
}

/// As long as a session is not synchronized anew, no two packets of one direction
/// have the same nonce, so that no nonce is used twice under one key.
pub proof fn law_nonces_are_never_reused(
    sender: TrafficView,
    root_key: Seq<u8>,
    algorithm: Seq<char>,
    sendings: Seq<Sending>,
    first: int,
    second: int,
)
    requires
        sender.send_seq.len() == 2,
        forall|i: int| 0 <= i < sendings.len() ==> 0 <= (#[trigger] sendings[i]).direction < 2,
        0 <= first < second < sendings.len(),
        sendings[first].direction == sendings[second].direction,
        payload_at(sender, root_key, algorithm, sendings, first) is Ok,
        payload_at(sender, root_key, algorithm, sendings, second) is Ok,
    ensures
        nonce_part(payload_at(sender, root_key, algorithm, sendings, first)->Ok_0) != nonce_part(
            payload_at(sender, root_key, algorithm, sendings, second)->Ok_0,
        ),
{
    let d = sendings[first].direction;
    let a = after_sendings(sender, root_key, algorithm, sendings, first as nat).rotated(sendings[first].clock_ms);
    let b = after_sendings(sender, root_key, algorithm, sendings, second as nat).rotated(sendings[second].clock_ms);
    lemma_sequence_grows(sender, root_key, algorithm, sendings, d, first as nat, first as nat);
    lemma_sequence_grows(sender, root_key, algorithm, sendings, d, (first + 1) as nat, second as nat);
    assert(a.send_seq[d] < b.send_seq[d]);
    let nonce_a = nonce_of(a.send_epoch, a.send_seq[d]);
    let nonce_b = nonce_of(b.send_epoch, b.send_seq[d]);
    law_payload_carries_its_nonce(
        after_sendings(sender, root_key, algorithm, sendings, first as nat),
        root_key,
        algorithm,
        d,
        sendings[first].plaintext,
        sendings[first].clock_ms,
    );
    law_payload_carries_its_nonce(
        after_sendings(sender, root_key, algorithm, sendings, second as nat),
        root_key,
        algorithm,
        d,
        sendings[second].plaintext,
        sendings[second].clock_ms,
    );
    if nonce_a == nonce_b {
        law_nonce_is_unique(a.send_epoch, a.send_seq[d], b.send_epoch, b.send_seq[d]);
    }
}

/// What happens in a session: a text is sent, a payload comes in, or the session is
/// synchronized anew.
pub enum Step {
    Sent(Sending),
    Received(Receipt),
    Synchronized { clock_ms: u64, expires_at_ms: u64 },
}

/// The session once the first `count` steps have been taken. What is sent and what
/// comes in may use different ciphers.
pub open spec fn after_steps(
    session: TrafficView,
    root_key: Seq<u8>,
    algorithm: Seq<char>,
    peer_algorithm: Seq<char>,
    steps: Seq<Step>,
    count: nat,
) -> TrafficView
    decreases count,
{
    if count == 0 {
        session
    } else {
        let before = after_steps(session, root_key, algorithm, peer_algorithm, steps, (count - 1) as nat);
        match steps[count - 1] {
            Step::Sent(sending) => before.encrypted(
                root_key,
                algorithm,
                sending.direction,
                sending.plaintext,
                sending.clock_ms,
            ).0,
            Step::Received(receipt) => before.decrypted(
                root_key,
                peer_algorithm,
                receipt.direction,
                receipt.payload,
                receipt.clock_ms,
            ).0,
            Step::Synchronized { clock_ms, expires_at_ms } => before.synchronized(clock_ms, expires_at_ms),
        }
    }
}

/// The payload that the text at `index`, which is sent, goes out in.
pub open spec fn payload_of_step(
    session: TrafficView,
    root_key: Seq<u8>,
    algorithm: Seq<char>,
    peer_algorithm: Seq<char>,
    steps: Seq<Step>,
    index: int,
) -> Result<Seq<u8>, EdgeError> {
    let sending = steps[index]->Sent_0;
    after_steps(session, root_key, algorithm, peer_algorithm, steps, index as nat).encrypted(
        root_key,
        algorithm,
        sending.direction,
        sending.plaintext,
        sending.clock_ms,
    ).1
}

/// A later epoch or, in the same epoch, no lower number.
pub open spec fn no_earlier(a: TrafficView, b: TrafficView, direction: int) -> bool {
    b.send_epoch > a.send_epoch || (b.send_epoch == a.send_epoch && b.send_seq[direction] >= a.send_seq[direction])
}

/// Before the step at `index`, the last epoch has been neither used nor seen.
pub open spec fn epochs_are_left(
    session: TrafficView,
    root_key: Seq<u8>,
    algorithm: Seq<char>,
    peer_algorithm: Seq<char>,
    steps: Seq<Step>,
    index: int,
) -> bool {
    let before = after_steps(session, root_key, algorithm, peer_algorithm, steps, index as nat);
    before.rx.latest_epoch(before.send_epoch) < u32::MAX
}

proof fn lemma_steps_go_on(
    session: TrafficView,
    root_key: Seq<u8>,
    algorithm: Seq<char>,
    peer_algorithm: Seq<char>,
    steps: Seq<Step>,
    direction: int,
    from: nat,
    to: nat,
)
    requires
        session.send_seq.len() == 2,
        0 <= direction < 2,
        from <= to <= steps.len(),
        forall|i: int| 0 <= i < steps.len() && #[trigger] steps[i] is Sent ==> 0 <= steps[i]->Sent_0.direction < 2,
        forall|i: int|
            from <= i < to ==> #[trigger] epochs_are_left(session, root_key, algorithm, peer_algorithm, steps, i),
    ensures
        ({
            let a = after_steps(session, root_key, algorithm, peer_algorithm, steps, from);
            let b = after_steps(session, root_key, algorithm, peer_algorithm, steps, to);
            a.send_seq.len() == 2 && b.send_seq.len() == 2 && no_earlier(a, b, direction)
        }),
    decreases to,
{
    if from < to {
        let index = to - 1;
        lemma_steps_go_on(session, root_key, algorithm, peer_algorithm, steps, direction, from, index as nat);
        assert(epochs_are_left(session, root_key, algorithm, peer_algorithm, steps, index));
        assert(steps[index] is Sent ==> 0 <= steps[index]->Sent_0.direction < 2);
    } else if to > 0 {
        lemma_steps_keep_directions(session, root_key, algorithm, peer_algorithm, steps, to);
    }
}

proof fn lemma_steps_keep_directions(
    session: TrafficView,
    root_key: Seq<u8>,
    algorithm: Seq<char>,
    peer_algorithm: Seq<char>,
    steps: Seq<Step>,
    count: nat,
)
    requires
        session.send_seq.len() == 2,
        count <= steps.len(),
        forall|i: int| 0 <= i < steps.len() && #[trigger] steps[i] is Sent ==> 0 <= steps[i]->Sent_0.direction < 2,
    ensures
        after_steps(session, root_key, algorithm, peer_algorithm, steps, count).send_seq.len() == 2,
    decreases count,
{
    if count > 0 {
        let index = count - 1;
        lemma_steps_keep_directions(session, root_key, algorithm, peer_algorithm, steps, index as nat);
        assert(steps[index] is Sent ==> 0 <= steps[index]->Sent_0.direction < 2);
    }
}

/// Whatever comes in between, and however often the session is synchronized anew, no two
/// packets of one direction have the same nonce, so that no nonce is used twice under
/// one key, as long as the last epoch has not been reached.
pub proof fn law_nonces_outlast_synchronization(
    session: TrafficView,
    root_key: Seq<u8>,
    algorithm: Seq<char>,
    peer_algorithm: Seq<char>,
    steps: Seq<Step>,
    first: int,
    second: int,
)
    requires
        session.send_seq.len() == 2,
        forall|i: int| 0 <= i < steps.len() && #[trigger] steps[i] is Sent ==> 0 <= steps[i]->Sent_0.direction < 2,
        0 <= first < second < steps.len(),
        forall|i: int|
            first <= i <= second ==> #[trigger] epochs_are_left(
                session,
                root_key,
                algorithm,
                peer_algorithm,
                steps,
                i,
            ),
        steps[first] is Sent,
        steps[second] is Sent,
        steps[first]->Sent_0.direction == steps[second]->Sent_0.direction,
        payload_of_step(session, root_key, algorithm, peer_algorithm, steps, first) is Ok,
        payload_of_step(session, root_key, algorithm, peer_algorithm, steps, second) is Ok,
    ensures
        nonce_part(payload_of_step(session, root_key, algorithm, peer_algorithm, steps, first)->Ok_0) != nonce_part(
            payload_of_step(session, root_key, algorithm, peer_algorithm, steps, second)->Ok_0,
        ),
{
    let one = steps[first]->Sent_0;
    let two = steps[second]->Sent_0;
    let d = one.direction;
    assert(epochs_are_left(session, root_key, algorithm, peer_algorithm, steps, first));
    assert(epochs_are_left(session, root_key, algorithm, peer_algorithm, steps, second));
    let a = after_steps(session, root_key, algorithm, peer_algorithm, steps, first as nat).rotated(one.clock_ms);
    let b = after_steps(session, root_key, algorithm, peer_algorithm, steps, second as nat).rotated(two.clock_ms);
    lemma_steps_keep_directions(session, root_key, algorithm, peer_algorithm, steps, first as nat);
    lemma_steps_go_on(session, root_key, algorithm, peer_algorithm, steps, d, (first + 1) as nat, second as nat);
    assert(b.send_epoch > a.send_epoch || b.send_seq[d] > a.send_seq[d]);
    let nonce_a = nonce_of(a.send_epoch, a.send_seq[d]);
    let nonce_b = nonce_of(b.send_epoch, b.send_seq[d]);
    law_payload_carries_its_nonce(
        after_steps(session, root_key, algorithm, peer_algorithm, steps, first as nat),
        root_key,
        algorithm,
        d,
        one.plaintext,
        one.clock_ms,
    );
    law_payload_carries_its_nonce(
        after_steps(session, root_key, algorithm, peer_algorithm, steps, second as nat),
        root_key,
        algorithm,
        d,
        two.plaintext,
        two.clock_ms,
    );
    if nonce_a == nonce_b {
        law_nonce_is_unique(a.send_epoch, a.send_seq[d], b.send_epoch, b.send_seq[d]);
    }
}

} // verus!
