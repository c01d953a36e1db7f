//! What holds of the packets of a session: when a new epoch begins, what is taken in, and
//! what is remembered.
use vstd::prelude::*;

use crate::crypto;
use crate::error::EdgeError;
use crate::replay;
use crate::replay::{RxView, SlotView, WindowView};
use crate::traffic;
use crate::traffic::TrafficView;

verus! {

/// A new epoch begins exactly if so many packets have been sent in the present one, or it is
/// so old; the numbers of the packets go on.
pub proof fn law_epoch_ends_by_number_or_age(session: TrafficView, clock_ms: u64)
    requires
        session.send_packets_since_epoch < u64::MAX,
        session.send_epoch < u32::MAX,
    ensures
        ({
            let after = session.rotated(clock_ms);
            let is_over = session.send_packets_since_epoch + 1 >= 1_000_000 || clock_ms
                - session.send_epoch_started_ms >= 600_000;
            &&& after.send_epoch == session.send_epoch + if is_over {
                1int
            } else {
                0
            }
            &&& after.send_packets_since_epoch == if is_over {
                0
            } else {
                session.send_packets_since_epoch + 1
            }
            &&& after.send_epoch_started_ms == if is_over {
                clock_ms
            } else {
                session.send_epoch_started_ms
            }
            &&& after.send_seq == session.send_seq
            &&& after.rx == session.rx
            &&& after.decrypt_fail_count == session.decrypt_fail_count
        }),
{
}

/// A packet is encrypted unless the numbers are used up or the cipher is not known, under
/// the key of its epoch and direction, and takes the next number of its direction. What was
/// received is not touched.
pub proof fn law_packet_is_encrypted_under_its_number(
    session: TrafficView,
    root_key: Seq<u8>,
    algorithm: Seq<char>,
    direction: int,
    plaintext: Seq<u8>,
    clock_ms: u64,
)
    requires
        0 <= direction < 2,
        session.send_seq.len() == 2,
    ensures
        ({
            let (after, outcome) = session.encrypted(root_key, algorithm, direction, plaintext, clock_ms);
            let now = session.rotated(clock_ms);
            let number = session.send_seq[direction];
            let nonce = traffic::nonce_of(now.send_epoch, number);
            let key = crypto::traffic_key_of(root_key, now.send_epoch, direction as u8);
            &&& number == u64::MAX ==> outcome == Err::<Seq<u8>, EdgeError>(EdgeError::SequenceExhausted)
                && after.send_seq == session.send_seq
            &&& number < u64::MAX ==> after.send_seq[direction] == number + 1
            &&& number < u64::MAX ==> (outcome is Ok <==> crypto::sealed_as(algorithm, key, nonce, plaintext) is Ok)
            &&& outcome matches Ok(payload) ==> payload == crypto::sealed_as(algorithm, key, nonce, plaintext)->Ok_0.0
                + crypto::sealed_as(algorithm, key, nonce, plaintext)->Ok_0.1 + nonce
            &&& after.send_seq[1 - direction] == session.send_seq[1 - direction]
            &&& after.send_epoch == now.send_epoch
            &&& after.rx == session.rx
            &&& after.decrypt_fail_count == session.decrypt_fail_count
        }),
{
}

/// What comes in never changes what is sent.
pub proof fn law_receiving_keeps_the_sending_side(
    session: TrafficView,
    root_key: Seq<u8>,
    algorithm: Seq<char>,
    direction: int,
    payload: Seq<u8>,
    clock_ms: u64,
)
    ensures
        ({
            let after = session.decrypted(root_key, algorithm, direction, payload, clock_ms).0;
            &&& after.send_epoch == session.send_epoch
            &&& after.send_seq == session.send_seq
            &&& after.send_epoch_started_ms == session.send_epoch_started_ms
            &&& after.send_packets_since_epoch == session.send_packets_since_epoch
        }),
{
}

/// What becomes of a payload: too short a one is refused and leaves no trace; one that is not
/// admitted is dropped; one that is admitted and authentic is handed on and counted as
/// received, and failures before it are forgotten; one that is not authentic is counted as a
/// failure and dropped, and from the tenth in a row on its error is reported.
pub proof fn law_payload_is_handed_on_if_new_and_authentic(
    session: TrafficView,
    root_key: Seq<u8>,
    algorithm: Seq<char>,
    direction: int,
    payload: Seq<u8>,
    clock_ms: u64,
)
    requires
        0 <= direction < 2,
    ensures
        ({
            let (after, outcome) = session.decrypted(root_key, algorithm, direction, payload, clock_ms);
            let epoch = traffic::epoch_of(payload);
            let seq = traffic::sequence_of(payload);
            let rx = session.rx.evicted(clock_ms);
            let is_admitted = rx.admits(session.send_epoch, epoch, seq, direction);
            let opened = crypto::opened_as(
                algorithm,
                crypto::traffic_key_of(root_key, epoch, direction as u8),
                traffic::nonce_part(payload),
                traffic::ciphertext_of(payload),
                traffic::tag_of(payload),
            );
            &&& payload.len() < 28 ==> outcome == Err::<Option<Seq<u8>>, EdgeError>(
                EdgeError::PayloadTooShort,
            ) && after == session
            &&& payload.len() >= 28 && !is_admitted ==> outcome == Ok::<Option<Seq<u8>>, EdgeError>(
                None,
            ) && after.rx == rx && after.decrypt_fail_count == session.decrypt_fail_count
            &&& payload.len() >= 28 && is_admitted && opened is Ok ==> {
                &&& outcome == Ok::<Option<Seq<u8>>, EdgeError>(Some(opened->Ok_0))
                &&& after.decrypt_fail_count == 0
                &&& after.rx == rx.committed(epoch, seq, direction, clock_ms).0
            }
            &&& payload.len() >= 28 && is_admitted && opened is Err ==> {
                &&& after.rx == rx
                &&& session.decrypt_fail_count < u32::MAX ==> after.decrypt_fail_count == session.decrypt_fail_count
                    + 1
                &&& session.decrypt_fail_count < 9 ==> outcome == Ok::<
                    Option<Seq<u8>>,
                    EdgeError,
                >(None)
                &&& session.decrypt_fail_count >= 9 ==> outcome == Err::<
                    Option<Seq<u8>>,
                    EdgeError,
                >(opened->Err_0)
            }
        }),
{
    let epoch = traffic::epoch_of(payload);
    let seq = traffic::sequence_of(payload);
    let rx = session.rx.evicted(clock_ms);
    if rx.admits(session.send_epoch, epoch, seq, direction) {
        replay::law_admitted_packet_is_new(rx, session.send_epoch, epoch, seq, direction, clock_ms);
    }
}

/// The parts of a payload: the ciphertext, a tag of sixteen bytes and a nonce of twelve, of
/// which the first four are the epoch and the others the number.
pub proof fn law_payload_has_its_parts(payload: Seq<u8>)
    requires
        payload.len() >= 28,
    ensures
        ({
            let n = payload.len() as int;
            &&& traffic::ciphertext_of(payload) + traffic::tag_of(payload) + traffic::nonce_part(payload) == payload
            &&& traffic::ciphertext_of(payload).len() == n - 28
            &&& traffic::tag_of(payload).len() == 16
            &&& traffic::nonce_part(payload).len() == 12
            &&& traffic::epoch_of(payload) == payload[n - 12] * 0x100_0000 + payload[n - 11] * 0x1_0000 + payload[n
                - 10] * 0x100 + payload[n - 9]
        }),
{
    assert(traffic::ciphertext_of(payload) + traffic::tag_of(payload) + traffic::nonce_part(payload) =~= payload);
}

/// A slot is dropped exactly if nothing was received in it for more than the time for which
/// it may be idle; one that never received anything at a known time stays.
pub proof fn law_slot_is_dropped_when_idle(slot: SlotView, clock_ms: u64)
    ensures
        ({
            let is_idle = slot.valid && slot.last_rx_ms > 0 && clock_ms - slot.last_rx_ms > 30_000;
            &&& is_idle ==> !slot.evicted(clock_ms).valid && !slot.evicted(clock_ms).window.valid
                && slot.evicted(clock_ms).window.seen.len() == 256
            &&& !is_idle ==> slot.evicted(clock_ms) == slot
        }),
{
}

/// Eviction looks at each slot by itself, and ends the grace when its time has come.
pub proof fn law_eviction_is_slot_by_slot(rx: RxView, clock_ms: u64, d: int, i: int)
    requires
        0 <= d < 2,
        0 <= i < 2,
    ensures
        ({
            let after = rx.evicted(clock_ms);
            &&& after.slots[d][i] == rx.slots[d][i].evicted(clock_ms)
            &&& after.grace.valid <==> rx.grace.valid && clock_ms < rx.grace.expires_at_ms
            &&& after.grace.valid ==> after.grace.expires_at_ms == rx.grace.expires_at_ms
                && after.grace.slots[d][i] == rx.grace.slots[d][i].evicted(clock_ms)
        }),
{
}

/// A slot that received a packet of its epoch remembers it and the time; the window decides
/// whether the packet is new.
pub open spec fn has_received(before: SlotView, after: SlotView, seq: u64, clock_ms: u64) -> bool {
    &&& after.valid == before.valid
    &&& after.epoch == before.epoch
    &&& after.last_rx_ms == clock_ms
    &&& after.window == if before.window.accepts(seq) {
        before.window.accepted(seq)
    } else {
        before.window
    }
}

/// Where an authentic packet is remembered: in the slot of the grace or of the direction
/// that is for its epoch; a direction without a newer slot opens one; a later epoch opens a
/// newer slot, before which the former one stays; a packet of an epoch that is over is not
/// new, and changes nothing. The other direction is not touched.
pub proof fn law_packet_is_remembered_in_its_epoch(rx: RxView, epoch: u32, seq: u64, direction: int, clock_ms: u64)
    requires
        0 <= direction < 2,
        replay::is_shaped(rx),
    ensures
        ({
            let (after, is_new) = rx.committed(epoch, seq, direction, clock_ms);
            let slots = rx.slots[direction];
            let now = after.slots[direction];
            let grace = rx.grace.slots[direction];
            let kept = after.grace.slots[direction];
            let in_first = rx.grace.valid && grace[0].valid && grace[0].epoch == epoch;
            let in_second = rx.grace.valid && grace[1].valid && grace[1].epoch == epoch && !in_first;
            let in_grace = in_first || in_second;
            &&& after.slots[1 - direction] == rx.slots[1 - direction]
            &&& after.grace.slots[1 - direction] == rx.grace.slots[1 - direction]
            &&& after.grace.valid == rx.grace.valid
            &&& after.grace.expires_at_ms == rx.grace.expires_at_ms
            &&& in_grace ==> now == slots
            &&& !in_grace ==> kept == grace
            &&& in_first ==> is_new == grace[0].window.accepts(seq) && has_received(grace[0], kept[0], seq, clock_ms)
                && kept[1] == grace[1]
            &&& in_second ==> is_new == grace[1].window.accepts(seq) && has_received(grace[1], kept[1], seq, clock_ms)
                && kept[0] == grace[0]
            &&& !in_grace && !slots[0].valid ==> is_new && now[0].valid && now[0].epoch == epoch && now[0].last_rx_ms
                == clock_ms && !now[0].window.accepts(seq) && now[0].window.max_seq == seq && now[1] == slots[1]
            &&& !in_grace && slots[0].valid && slots[0].epoch == epoch ==> is_new == slots[0].window.accepts(seq)
                && has_received(slots[0], now[0], seq, clock_ms) && now[1] == slots[1]
            &&& !in_grace && slots[0].valid && slots[0].epoch != epoch && slots[1].valid && slots[1].epoch == epoch
                ==> is_new == slots[1].window.accepts(seq) && has_received(slots[1], now[1], seq, clock_ms) && now[0]
                == slots[0]
            &&& !in_grace && slots[0].valid && slots[0].epoch < epoch && !(slots[1].valid && slots[1].epoch == epoch)
                ==> is_new && now[0].valid && now[0].epoch == epoch && now[0].last_rx_ms == clock_ms
                && !now[0].window.accepts(seq) && now[0].window.max_seq == seq && now[1] == slots[0]
            &&& !in_grace && slots[0].valid && slots[0].epoch > epoch && !(slots[1].valid && slots[1].epoch == epoch)
                ==> !is_new && now == slots
        }),
{
    assert(rx.slots[direction].len() == 2 && rx.grace.slots[direction].len() == 2);
    assert(rx.slots[0].len() == 2 && rx.grace.slots[0].len() == 2);
    assert(rx.slots[1].len() == 2 && rx.grace.slots[1].len() == 2);
    assert(rx.slots[direction][0].window.seen.len() == 256);
}

/// Which packets are admitted before they are known to be authentic: those that are new to
/// the window of their epoch; where there is none, any packet if nothing was received in
/// the direction, and else those of a later epoch that is at most so far ahead of the latest
/// epoch that was received or is used for sending.
pub proof fn law_admission_goes_by_epoch(rx: RxView, send_epoch: u32, epoch: u32, seq: u64, direction: int)
    requires
        0 <= direction < 2,
    ensures
        ({
            let slots = rx.slots[direction];
            let grace = rx.grace.slots[direction];
            let in_first = rx.grace.valid && grace[0].valid && grace[0].epoch == epoch;
            let in_second = rx.grace.valid && grace[1].valid && grace[1].epoch == epoch && !in_first;
            let in_grace = in_first || in_second;
            let in_older = slots[1].valid && slots[1].epoch == epoch;
            let is_admitted = rx.admits(send_epoch, epoch, seq, direction);
            &&& in_first ==> is_admitted == grace[0].window.accepts(seq)
            &&& in_second ==> is_admitted == grace[1].window.accepts(seq)
            &&& !in_grace && !slots[0].valid ==> is_admitted
            &&& !in_grace && slots[0].valid && slots[0].epoch == epoch ==> is_admitted == slots[0].window.accepts(seq)
            &&& !in_grace && slots[0].valid && slots[0].epoch != epoch && in_older ==> is_admitted
                == slots[1].window.accepts(seq)
            &&& !in_grace && slots[0].valid && slots[0].epoch > epoch && !in_older ==> !is_admitted
            &&& !in_grace && slots[0].valid && slots[0].epoch < epoch && !in_older ==> (is_admitted <==> epoch
                <= send_epoch + 3 || epoch <= slots[0].epoch + 3 || (slots[1].valid && epoch <= slots[1].epoch
                + 3))
        }),
{
}

/// What a window is before it has seen anything, and after the first number.
pub proof fn law_blank_window_takes_anything(seq: u64, other: u64)
    requires
        seq != other,
    ensures
        WindowView::blank().accepts(seq),
        !WindowView::blank().accepted(seq).accepts(seq),
        WindowView::blank().accepted(seq).accepts(other) <==> seq - other < 256,
{
}

} // verus!
