//! Protection against replayed packets.
//!
//! A window remembers the 256 sequence numbers up to the highest one seen. Each
//! direction of a session has a window for the current epoch and one for the
//! epoch before; for a while after a session was synchronized anew, the windows
//! from before stay in use as well.
use vstd::prelude::*;

use crate::bits;

verus! {

pub const RX_EPOCH_IDLE_MS: u64 = 30_000;

pub const MAX_ACCEPTED_RX_EPOCH_AHEAD: u32 = 3;

/// The sequence numbers that were seen lately.
#[derive(Debug, Clone, Copy)]
pub struct ReplayWindow256 {
    max_seq: u64,
    bitmap: [u8; 32],
    valid: bool,
}

/// `seen[k]` says whether the number `max_seq - k` was seen.
#[verifier::ext_equal]
pub struct WindowView {
    pub max_seq: u64,
    pub seen: Seq<bool>,
    pub valid: bool,
}

impl View for ReplayWindow256 {
    type V = WindowView;

    closed spec fn view(&self) -> WindowView {
        WindowView {
            max_seq: self.max_seq,
            seen: Seq::new(256, |k: int| bits::bit(self.bitmap@, k)),
            valid: self.valid,
        }
    }
}

impl WindowView {
    /// A window that has seen nothing.
    pub open spec fn blank() -> WindowView {
        WindowView { max_seq: 0, seen: Seq::new(256, |k: int| false), valid: false }
    }

    /// Whether `seq` is new: above all that was seen, or in the window and not
    /// seen there.
    pub open spec fn accepts(self, seq: u64) -> bool {
        !self.valid || seq > self.max_seq || (self.max_seq - seq < 256 && !self.seen[self.max_seq - seq])
    }

    /// The window once `seq`, which is new, has been seen.
    pub open spec fn accepted(self, seq: u64) -> WindowView {
        if !self.valid {
            WindowView { max_seq: seq, seen: self.seen.update(0, true), valid: true }
        } else if seq > self.max_seq {
            let shift = seq - self.max_seq;
            WindowView {
                max_seq: seq,
                seen: Seq::new(256, |k: int| k == 0 || (k >= shift && self.seen[k - shift])),
                valid: true,
            }
        } else {
            WindowView { seen: self.seen.update(self.max_seq - seq, true), ..self }
        }
    }
}

proof fn lemma_byte_shift(x: u8, y: u8, r: u8)
    requires
        0 < r < 8,
    ensures
        forall|j: int|
            0 <= j < 8 ==> #[trigger] bits::byte_bit((x << r) | (y >> ((8 - r) as u8)), j) == if j >= r {
                bits::byte_bit(x, j - r)
            } else {
                bits::byte_bit(y, 8 - r + j)
            },
{
    assert forall|j: int| 0 <= j < 8 implies #[trigger] bits::byte_bit((x << r) | (y >> ((8 - r) as u8)), j) == if j >= r {
        bits::byte_bit(x, j - r)
    } else {
        bits::byte_bit(y, 8 - r + j)
    } by {
        let n = j as u8;
        let s = (8 - r) as u8;
        if n >= r {
            let m = (n - r) as u8;
            assert((((x << r) | (y >> s)) >> n) & 1u8 == (x >> m) & 1u8) by (bit_vector)
                requires
                    n < 8,
                    0 < r < 8,
                    r + s == 8,
                    m + r == n,
            ;
        } else {
            let m = (s + n) as u8;
            assert((((x << r) | (y >> s)) >> n) & 1u8 == (y >> m) & 1u8) by (bit_vector)
                requires
                    n < r,
                    0 < r < 8,
                    r + s == 8,
                    m == s + n,
            ;
        }
    }
}

impl ReplayWindow256 {
    pub fn new() -> (r: Self)
        ensures
            r@ == WindowView::blank(),
    {
        let r = ReplayWindow256 { max_seq: 0, bitmap: [0u8; 32], valid: false };
        proof {
            bits::lemma_byte_bit_zero();
            assert forall|k: int| 0 <= k < 256 implies !#[trigger] bits::bit(r.bitmap@, k) by {
                assert(r.bitmap@[k / 8] == 0);
            }
            assert(r@ =~= WindowView::blank());
        }
        r
    }

    fn test_bit(&self, idx: usize) -> (r: bool)
        requires
            idx < 256,
        ensures
            r == self@.seen[idx as int],
    {
        (self.bitmap[idx / 8] >> ((idx % 8) as u8)) & 1u8 == 1u8
    }

    fn set_bit(&mut self, idx: usize)
        requires
            idx < 256,
        ensures
            final(self)@ == (WindowView { seen: old(self)@.seen.update(idx as int, true), ..old(self)@ }),
    {
        let at: usize = idx / 8;
        let low: u8 = (idx % 8) as u8;
        let byte: u8 = self.bitmap[at];
        let ghost before = self.bitmap@;
        self.bitmap[at] = byte | (1u8 << low);
        proof {
            bits::lemma_byte_bit_set(byte, low);
            assert forall|k: int| 0 <= k < 256 implies #[trigger] bits::bit(self.bitmap@, k) == (k == idx || bits::bit(
                before,
                k,
            )) by {
                if k / 8 == at {
                    assert(bits::byte_bit(self.bitmap@[at as int], k % 8) == (k % 8 == low || bits::byte_bit(
                        before[at as int],
                        k % 8,
                    )));
                }
            }
            assert(self@.seen =~= old(self)@.seen.update(idx as int, true));
        }
    }

    fn clear_bits(&mut self)
        ensures
            final(self)@ == (WindowView { seen: WindowView::blank().seen, ..old(self)@ }),
    {
        self.bitmap = [0u8; 32];
        proof {
            bits::lemma_byte_bit_zero();
            assert forall|k: int| 0 <= k < 256 implies !#[trigger] bits::bit(self.bitmap@, k) by {
                assert(self.bitmap@[k / 8] == 0);
            }
            assert(self@.seen =~= WindowView::blank().seen);
        }
    }

    /// Makes room for `shift` higher numbers.
    fn shift_right(&mut self, shift: usize)
        ensures
            final(self)@ == (WindowView {
                seen: Seq::new(256, |k: int| k >= shift && old(self)@.seen[k - shift]),
                ..old(self)@
            }),
    {
        let ghost start = self@;
        if shift == 0 {
            assert(self@.seen =~= Seq::new(256, |k: int| k >= shift && start.seen[k - shift]));
            return;
        }
        if shift >= 256 {
            self.clear_bits();
            assert(self@.seen =~= Seq::new(256, |k: int| k >= shift && start.seen[k - shift]));
            return;
        }
        let byte_shift: usize = shift / 8;
        let bit_shift: usize = shift % 8;
        let ghost before = self.bitmap@;
        if byte_shift > 0 {
            let mut i: usize = 32;
            while i > 0
                invariant
                    i <= 32,
                    0 < byte_shift < 32,
                    before.len() == 32,
                    self.max_seq == start.max_seq,
                    self.valid == start.valid,
                    forall|j: int| 0 <= j < i ==> #[trigger] self.bitmap@[j] == before[j],
                    forall|j: int| i <= j < 32 ==> #[trigger] self.bitmap@[j] == if j >= byte_shift {
                        before[j - byte_shift]
                    } else {
                        0u8
                    },
                decreases i,
            {
                i -= 1;
                let moved: u8 = if i >= byte_shift {
                    self.bitmap[i - byte_shift]
                } else {
                    0
                };
                self.bitmap[i] = moved;
            }
        }
        let ghost middle = self.bitmap@;
        assert forall|j: int| 0 <= j < 32 implies #[trigger] middle[j] == if j >= byte_shift {
            before[j - byte_shift]
        } else {
            0u8
        } by {}
        if bit_shift > 0 {
            let low: u8 = bit_shift as u8;
            let high: u8 = 8 - low;
            let mut carry: u8 = 0;
            let mut i: usize = 0;
            let ghost no_carry = 0u8;
            assert(no_carry >> high == 0u8) by (bit_vector)
                requires
                    no_carry == 0u8,
            ;
            while i < 32
                invariant
                    i <= 32,
                    0 < low < 8,
                    high == 8 - low,
                    middle.len() == 32,
                    no_carry == 0u8,
                    self.max_seq == start.max_seq,
                    self.valid == start.valid,
                    carry == (if i == 0 {
                        no_carry
                    } else {
                        middle[i - 1]
                    }) >> high,
                    forall|j: int| i <= j < 32 ==> #[trigger] self.bitmap@[j] == middle[j],
                    forall|j: int| 0 <= j < i ==> #[trigger] self.bitmap@[j] == (middle[j] << low) | ((if j == 0 {
                        no_carry
                    } else {
                        middle[j - 1]
                    }) >> high),
                decreases 32 - i,
            {
                let byte: u8 = self.bitmap[i];
                let next_carry: u8 = byte >> high;
                self.bitmap[i] = (byte << low) | carry;
                carry = next_carry;
                i += 1;
            }
            proof {
                bits::lemma_byte_bit_zero();
                assert forall|k: int| 0 <= k < 256 implies #[trigger] bits::bit(self.bitmap@, k) == (k >= shift && bits::bit(
                    before,
                    k - shift,
                )) by {
                    let i = k / 8;
                    let j = k % 8;
                    let below = if i == 0 {
                        no_carry
                    } else {
                        middle[i - 1]
                    };
                    assert(self.bitmap@[i] == (middle[i] << low) | (below >> high));
                    lemma_byte_shift(middle[i], below, low);
                    assert(bits::byte_bit(self.bitmap@[i], j) == if j >= low {
                        bits::byte_bit(middle[i], j - low)
                    } else {
                        bits::byte_bit(below, 8 - low + j)
                    });
                    lemma_shifted_index(k, shift as int);
                }
            }
        } else {
            proof {
                bits::lemma_byte_bit_zero();
                assert forall|k: int| 0 <= k < 256 implies #[trigger] bits::bit(self.bitmap@, k) == (k >= shift && bits::bit(
                    before,
                    k - shift,
                )) by {
                    lemma_shifted_index(k, shift as int);
                    assert(self.bitmap@[k / 8] == middle[k / 8]);
                }
            }
        }
        assert(self@.seen =~= Seq::new(256, |k: int| k >= shift && start.seen[k - shift])) by {
            assert forall|k: int| 0 <= k < 256 implies self@.seen[k] == (k >= shift && start.seen[k - shift]) by {
                assert(bits::bit(self.bitmap@, k) == (k >= shift && bits::bit(before, k - shift)));
            }
        }
    }

    /// Whether `seq` is new.
    pub fn can_accept(&self, seq: u64) -> (r: bool)
        ensures
            r == self@.accepts(seq),
    {
        if !self.valid || seq > self.max_seq {
            return true;
        }
        let delta: u64 = self.max_seq - seq;
        delta < 256 && !self.test_bit(delta as usize)
    }

    /// Remembers `seq` if it is new, and says whether it was.
    pub fn accept(&mut self, seq: u64) -> (r: bool)
        ensures
            r == old(self)@.accepts(seq),
            final(self)@ == if r {
                old(self)@.accepted(seq)
            } else {
                old(self)@
            },
    {
        let ghost start = self@;
        if !self.valid {
            self.valid = true;
            self.max_seq = seq;
            self.set_bit(0);
            return true;
        }
        if seq > self.max_seq {
            let distance: u64 = seq - self.max_seq;
            let shift: usize = if distance < 256 {
                distance as usize
            } else {
                256
            };
            self.shift_right(shift);
            self.max_seq = seq;
            self.set_bit(0);
            assert(self@.seen =~= start.accepted(seq).seen);
            return true;
        }
        let delta: u64 = self.max_seq - seq;
        if delta >= 256 || self.test_bit(delta as usize) {
            return false;
        }
        self.set_bit(delta as usize);
        true
    }
}

/// Where bit `k - shift` lies, seen from bit `k`.
proof fn lemma_shifted_index(k: int, shift: int)
    requires
        0 <= k < 256,
        0 <= shift < 256,
    ensures
        k >= shift ==> (k - shift) / 8 == if k % 8 >= shift % 8 {
            k / 8 - shift / 8
        } else {
            k / 8 - shift / 8 - 1
        },
        k >= shift ==> (k - shift) % 8 == if k % 8 >= shift % 8 {
            k % 8 - shift % 8
        } else {
            8 - shift % 8 + k % 8
        },
        k % 8 >= shift % 8 ==> (k >= shift <==> k / 8 >= shift / 8),
        k % 8 < shift % 8 ==> (k >= shift <==> k / 8 > shift / 8),
{
}

/// What was received in one epoch of one direction.
#[derive(Debug, Clone, Copy)]
pub struct EpochRxSlot {
    epoch: u32,
    window: ReplayWindow256,
    last_rx_ms: u64,
    valid: bool,
}

#[verifier::ext_equal]
pub struct SlotView {
    pub epoch: u32,
    pub window: WindowView,
    pub last_rx_ms: u64,
    pub valid: bool,
}

impl View for EpochRxSlot {
    type V = SlotView;

    closed spec fn view(&self) -> SlotView {
        SlotView { epoch: self.epoch, window: self.window@, last_rx_ms: self.last_rx_ms, valid: self.valid }
    }
}

impl SlotView {
    /// A slot that is not in use.
    pub open spec fn blank() -> SlotView {
        SlotView { epoch: 0, window: WindowView::blank(), last_rx_ms: 0, valid: false }
    }

    /// A slot for an epoch of which nothing was received.
    pub open spec fn opened(epoch: u32, clock_ms: u64) -> SlotView {
        SlotView { epoch, window: WindowView::blank(), last_rx_ms: clock_ms, valid: true }
    }

    /// The slot once a packet of its epoch has come in, and whether the packet is
    /// new.
    pub open spec fn received(self, seq: u64, clock_ms: u64) -> (SlotView, bool) {
        let is_new = self.window.accepts(seq);
        (
            SlotView {
                window: if is_new {
                    self.window.accepted(seq)
                } else {
                    self.window
                },
                last_rx_ms: clock_ms,
                ..self
            },
            is_new,
        )
    }

    /// Whether the slot is in use for `epoch`.
    pub open spec fn is_for(self, epoch: u32) -> bool {
        self.valid && self.epoch == epoch
    }

    /// The slot, unless nothing was received for too long.
    pub open spec fn evicted(self, clock_ms: u64) -> SlotView {
        if self.valid && self.last_rx_ms != 0 && clock_ms - self.last_rx_ms > RX_EPOCH_IDLE_MS {
            SlotView::blank()
        } else {
            self
        }
    }
}

/// The slots of both directions, the newer epoch first.
pub type Slots = [[EpochRxSlot; 2]; 2];

pub type SlotsView = Seq<Seq<SlotView>>;

pub open spec fn slots_view(slots: Slots) -> SlotsView {
    Seq::new(2, |d: int| Seq::new(2, |i: int| slots@[d]@[i]@))
}

pub open spec fn blank_slots() -> SlotsView {
    Seq::new(2, |d: int| Seq::new(2, |i: int| SlotView::blank()))
}

/// The slots without those that were idle for too long.
pub open spec fn evicted_slots(slots: SlotsView, clock_ms: u64) -> SlotsView {
    Seq::new(2, |d: int| Seq::new(2, |i: int| slots[d][i].evicted(clock_ms)))
}

/// The slots from before a session was synchronized anew.
#[derive(Debug, Clone, Copy)]
pub struct SyncRxGrace {
    slots: Slots,
    expires_at_ms: u64,
    valid: bool,
}

#[verifier::ext_equal]
pub struct GraceView {
    pub slots: SlotsView,
    pub expires_at_ms: u64,
    pub valid: bool,
}

impl View for SyncRxGrace {
    type V = GraceView;

    closed spec fn view(&self) -> GraceView {
        GraceView { slots: slots_view(self.slots), expires_at_ms: self.expires_at_ms, valid: self.valid }
    }
}

impl GraceView {
    pub open spec fn blank() -> GraceView {
        GraceView { slots: blank_slots(), expires_at_ms: 0, valid: false }
    }

    pub open spec fn evicted(self, clock_ms: u64) -> GraceView {
        if !self.valid {
            self
        } else if clock_ms >= self.expires_at_ms {
            GraceView::blank()
        } else {
            GraceView { slots: evicted_slots(self.slots, clock_ms), ..self }
        }
    }
}

/// What a session remembers of what it received.
#[derive(Debug, Clone, Copy)]
pub struct RxState {
    slots: Slots,
    grace: SyncRxGrace,
}

#[verifier::ext_equal]
pub struct RxView {
    pub slots: SlotsView,
    pub grace: GraceView,
}

impl View for RxState {
    type V = RxView;

    closed spec fn view(&self) -> RxView {
        RxView { slots: slots_view(self.slots), grace: self.grace@ }
    }
}

/// The larger of two epochs.
pub open spec fn later_epoch(a: u32, b: u32) -> u32 {
    if a >= b {
        a
    } else {
        b
    }
}

impl RxView {
    pub open spec fn blank() -> RxView {
        RxView { slots: blank_slots(), grace: GraceView::blank() }
    }

    /// Without what was idle for too long.
    pub open spec fn evicted(self, clock_ms: u64) -> RxView {
        RxView { slots: evicted_slots(self.slots, clock_ms), grace: self.grace.evicted(clock_ms) }
    }

    /// The slots of a direction from before the last synchronization.
    pub open spec fn grace_slot(self, direction: int, i: int) -> SlotView {
        self.grace.slots[direction][i]
    }

    /// Whether a slot from before the last synchronization is in use for `epoch`.
    pub open spec fn grace_is_for(self, direction: int, i: int, epoch: u32) -> bool {
        self.grace.valid && self.grace_slot(direction, i).is_for(epoch)
    }

    /// The window that decides on packets of `epoch`, if there is one.
    pub open spec fn window_for(self, epoch: u32, direction: int) -> Option<WindowView> {
        let slots = self.slots[direction];
        if self.grace_is_for(direction, 0, epoch) {
            Some(self.grace_slot(direction, 0).window)
        } else if self.grace_is_for(direction, 1, epoch) {
            Some(self.grace_slot(direction, 1).window)
        } else if !slots[0].valid {
            None
        } else if slots[0].epoch == epoch {
            Some(slots[0].window)
        } else if slots[1].is_for(epoch) {
            Some(slots[1].window)
        } else {
            None
        }
    }

    /// The epoch from which on an epoch is too far ahead, given the sender's own
    /// epoch.
    pub open spec fn newest_epoch(self, send_epoch: u32, direction: int) -> u32 {
        let slots = self.slots[direction];
        let newest = later_epoch(send_epoch, slots[0].epoch);
        if slots[1].valid {
            later_epoch(newest, slots[1].epoch)
        } else {
            newest
        }
    }

    /// Whether a packet may be looked at: its number is new in its epoch, or it
    /// opens an epoch that is not too far ahead.
    pub open spec fn admits(self, send_epoch: u32, epoch: u32, seq: u64, direction: int) -> bool {
        match self.window_for(epoch, direction) {
            Some(window) => window.accepts(seq),
            None => !self.slots[direction][0].valid || (epoch > self.slots[direction][0].epoch && epoch
                <= self.newest_epoch(send_epoch, direction) + MAX_ACCEPTED_RX_EPOCH_AHEAD),
        }
    }

    pub open spec fn with_grace_slot(self, direction: int, i: int, slot: SlotView) -> RxView {
        RxView {
            grace: GraceView {
                slots: self.grace.slots.update(direction, self.grace.slots[direction].update(i, slot)),
                ..self.grace
            },
            ..self
        }
    }

    pub open spec fn with_slots(self, direction: int, newer: SlotView, older: SlotView) -> RxView {
        RxView { slots: self.slots.update(direction, seq![newer, older]), ..self }
    }

    /// What is remembered once an authentic packet has come in, and whether the
    /// packet is new.
    pub open spec fn committed(self, epoch: u32, seq: u64, direction: int, clock_ms: u64) -> (RxView, bool) {
        let slots = self.slots[direction];
        if self.grace_is_for(direction, 0, epoch) {
            let (slot, is_new) = self.grace_slot(direction, 0).received(seq, clock_ms);
            (self.with_grace_slot(direction, 0, slot), is_new)
        } else if self.grace_is_for(direction, 1, epoch) {
            let (slot, is_new) = self.grace_slot(direction, 1).received(seq, clock_ms);
            (self.with_grace_slot(direction, 1, slot), is_new)
        } else if !slots[0].valid {
            let (slot, is_new) = SlotView::opened(epoch, clock_ms).received(seq, clock_ms);
            (self.with_slots(direction, slot, slots[1]), is_new)
        } else if slots[0].epoch == epoch {
            let (slot, is_new) = slots[0].received(seq, clock_ms);
            (self.with_slots(direction, slot, slots[1]), is_new)
        } else if slots[1].is_for(epoch) {
            let (slot, is_new) = slots[1].received(seq, clock_ms);
            (self.with_slots(direction, slots[0], slot), is_new)
        } else if epoch > slots[0].epoch {
            let (slot, is_new) = SlotView::opened(epoch, clock_ms).received(seq, clock_ms);
            (self.with_slots(direction, slot, slots[0]), is_new)
        } else {
            (self, false)
        }
    }

    /// What is remembered once the session has been synchronized anew: nothing,
    /// but for the grace that the former slots get.
    pub open spec fn synchronized(self, expires_at_ms: u64) -> RxView {
        RxView {
            slots: blank_slots(),
            grace: GraceView { slots: self.slots, expires_at_ms, valid: true },
        }
    }

    /// The newest of `epoch` and the epochs of the slots.
    pub open spec fn latest_epoch(self, epoch: u32) -> u32 {
        latest_of(latest_of(latest_of(latest_of(epoch, self.slots[0][0]), self.slots[0][1]), self.slots[1][0]), self.slots[1][1])
    }
}

/// The newer of `epoch` and the epoch of a slot in use.
pub open spec fn latest_of(epoch: u32, slot: SlotView) -> u32 {
    if slot.valid {
        later_epoch(epoch, slot.epoch)
    } else {
        epoch
    }
}

fn later(a: u32, b: u32) -> (r: u32)
    ensures
        r == later_epoch(a, b),
{
    if a >= b {
        a
    } else {
        b
    }
}

impl EpochRxSlot {
    pub fn new() -> (r: Self)
        ensures
            r@ == SlotView::blank(),
    {
        EpochRxSlot { epoch: 0, window: ReplayWindow256::new(), last_rx_ms: 0, valid: false }
    }

    fn open(epoch: u32, clock_ms: u64) -> (r: Self)
        ensures
            r@ == SlotView::opened(epoch, clock_ms),
    {
        EpochRxSlot { epoch, window: ReplayWindow256::new(), last_rx_ms: clock_ms, valid: true }
    }

    fn receive(&mut self, seq: u64, clock_ms: u64) -> (r: bool)
        ensures
            (final(self)@, r) == old(self)@.received(seq, clock_ms),
    {
        self.last_rx_ms = clock_ms;
        self.window.accept(seq)
    }

    fn evict(&mut self, clock_ms: u64)
        ensures
            final(self)@ == old(self)@.evicted(clock_ms),
    {
        if self.valid && self.last_rx_ms != 0 && clock_ms.saturating_sub(self.last_rx_ms) > RX_EPOCH_IDLE_MS {
            *self = EpochRxSlot::new();
        }
    }
}

fn new_slots() -> (r: Slots)
    ensures
        slots_view(r) == blank_slots(),
{
    let slot = EpochRxSlot::new();
    let r: Slots = [[slot, slot], [slot, slot]];
    assert(slots_view(r) =~~= blank_slots());
    r
}

fn evict_slots(slots: &mut Slots, clock_ms: u64)
    ensures
        slots_view(*final(slots)) == evicted_slots(slots_view(*old(slots)), clock_ms),
{
    slots[0][0].evict(clock_ms);
    slots[0][1].evict(clock_ms);
    slots[1][0].evict(clock_ms);
    slots[1][1].evict(clock_ms);
    assert(slots_view(*slots) =~~= evicted_slots(slots_view(*old(slots)), clock_ms));
}

impl SyncRxGrace {
    fn new() -> (r: Self)
        ensures
            r@ == GraceView::blank(),
    {
        SyncRxGrace { slots: new_slots(), expires_at_ms: 0, valid: false }
    }
}

impl RxState {
    /// Every state is in shape.
    pub proof fn lemma_shaped(self)
        ensures
            is_shaped(self@),
    {
    }

    pub fn new() -> (r: Self)
        ensures
            r@ == RxView::blank(),
            is_shaped(r@),
    {
        RxState { slots: new_slots(), grace: SyncRxGrace::new() }
    }

    pub fn synchronize(&mut self, expires_at_ms: u64)
        ensures
            final(self)@ == old(self)@.synchronized(expires_at_ms),
            is_shaped(final(self)@),
    {
        self.grace = SyncRxGrace { slots: self.slots, expires_at_ms, valid: true };
        self.slots = new_slots();
    }

    pub fn latest_epoch(&self, epoch: u32) -> (r: u32)
        ensures
            r == self@.latest_epoch(epoch),
    {
        let mut latest: u32 = epoch;
        if self.slots[0][0].valid {
            latest = later(latest, self.slots[0][0].epoch);
        }
        if self.slots[0][1].valid {
            latest = later(latest, self.slots[0][1].epoch);
        }
        if self.slots[1][0].valid {
            latest = later(latest, self.slots[1][0].epoch);
        }
        if self.slots[1][1].valid {
            latest = later(latest, self.slots[1][1].epoch);
        }
        latest
    }

    pub fn evict_old_rx_slots(&mut self, clock_ms: u64)
        ensures
            final(self)@ == old(self)@.evicted(clock_ms),
            is_shaped(final(self)@),
    {
        evict_slots(&mut self.slots, clock_ms);
        if self.grace.valid && clock_ms >= self.grace.expires_at_ms {
            self.grace = SyncRxGrace::new();
        } else if self.grace.valid {
            evict_slots(&mut self.grace.slots, clock_ms);
        }
    }

    /// Whether a packet may be looked at, before it is known to be authentic.
    pub fn precheck_replay(&self, send_epoch: u32, epoch: u32, sequence: u64, direction: usize) -> (r: bool)
        requires
            direction < 2,
        ensures
            r == self@.admits(send_epoch, epoch, sequence, direction as int),
    {
        if self.grace.valid {
            if self.grace.slots[direction][0].valid && self.grace.slots[direction][0].epoch == epoch {
                return self.grace.slots[direction][0].window.can_accept(sequence);
            }
            if self.grace.slots[direction][1].valid && self.grace.slots[direction][1].epoch == epoch {
                return self.grace.slots[direction][1].window.can_accept(sequence);
            }
        }
        let slots = self.slots[direction];
        if !slots[0].valid {
            return true;
        }
        if slots[0].epoch == epoch {
            return slots[0].window.can_accept(sequence);
        }
        if slots[1].valid && slots[1].epoch == epoch {
            return slots[1].window.can_accept(sequence);
        }
        if epoch > slots[0].epoch {
            let mut baseline_epoch: u32 = later(send_epoch, slots[0].epoch);
            if slots[1].valid {
                baseline_epoch = later(baseline_epoch, slots[1].epoch);
            }
            return epoch <= baseline_epoch.saturating_add(MAX_ACCEPTED_RX_EPOCH_AHEAD);
        }
        false
    }

    /// Remembers an authentic packet, and says whether it is new.
    pub fn commit_replay(&mut self, epoch: u32, sequence: u64, direction: usize, received_at_ms: u64) -> (r: bool)
        requires
            direction < 2,
        ensures
            (final(self)@, r) == old(self)@.committed(epoch, sequence, direction as int, received_at_ms),
            is_shaped(final(self)@),
    {
        let ghost before = self@;
        let ghost d = direction as int;
        if self.grace.valid {
            if self.grace.slots[direction][0].valid && self.grace.slots[direction][0].epoch == epoch {
                let r = self.grace.slots[direction][0].receive(sequence, received_at_ms);
                assert(self@ =~~= before.committed(epoch, sequence, d, received_at_ms).0);
                return r;
            }
            if self.grace.slots[direction][1].valid && self.grace.slots[direction][1].epoch == epoch {
                let r = self.grace.slots[direction][1].receive(sequence, received_at_ms);
                assert(self@ =~~= before.committed(epoch, sequence, d, received_at_ms).0);
                return r;
            }
        }
        if !self.slots[direction][0].valid {
            self.slots[direction][0] = EpochRxSlot::open(epoch, received_at_ms);
            let r = self.slots[direction][0].receive(sequence, received_at_ms);
            assert(self@ =~~= before.committed(epoch, sequence, d, received_at_ms).0);
            return r;
        }
        if self.slots[direction][0].epoch == epoch {
            let r = self.slots[direction][0].receive(sequence, received_at_ms);
            assert(self@ =~~= before.committed(epoch, sequence, d, received_at_ms).0);
            return r;
        }
        if self.slots[direction][1].valid && self.slots[direction][1].epoch == epoch {
            let r = self.slots[direction][1].receive(sequence, received_at_ms);
            assert(self@ =~~= before.committed(epoch, sequence, d, received_at_ms).0);
            return r;
        }
        if epoch > self.slots[direction][0].epoch {
            let former = self.slots[direction][0];
            self.slots[direction][1] = former;
            self.slots[direction][0] = EpochRxSlot::open(epoch, received_at_ms);
            let r = self.slots[direction][0].receive(sequence, received_at_ms);
            assert(self@ =~~= before.committed(epoch, sequence, d, received_at_ms).0);
            return r;
        }
        false
    }
}

/// A number that a window has taken in is not new to it.
pub proof fn law_window_rejects_what_it_saw(window: WindowView, seq: u64)
    requires
        window.seen.len() == 256,
        window.accepts(seq),
    ensures
        !window.accepted(seq).accepts(seq),
        window.accepted(seq).seen.len() == 256,
{
}

/// A number that is not new to a window stays so, whatever else the window takes
/// in.
pub proof fn law_window_rejects_for_good(window: WindowView, seq: u64, other: u64)
    requires
        window.seen.len() == 256,
        window.accepts(other),
        !window.accepts(seq),
    ensures
        !window.accepted(other).accepts(seq),
{
    let after = window.accepted(other);
    if other > window.max_seq && other - seq < 256 {
        let shift = other - window.max_seq;
        assert(after.seen[other - seq] == window.seen[other - seq - shift]);
    }
}

/// A window takes in every number above all that it saw.
pub proof fn law_window_accepts_higher_numbers(window: WindowView, seq: u64)
    requires
        seq > window.max_seq,
    ensures
        window.accepts(seq),
        window.accepted(seq).max_seq == seq,
{
}

/// The window that was blank at first, once it has been offered some numbers; it takes in
/// those that are new to it.
pub open spec fn after_numbers(numbers: Seq<u64>) -> WindowView
    decreases numbers.len(),
{
    if numbers.len() == 0 {
        WindowView::blank()
    } else {
        let before = after_numbers(numbers.drop_last());
        if before.accepts(numbers.last()) {
            before.accepted(numbers.last())
        } else {
            before
        }
    }
}

/// The numbers that such a window has taken in.
pub open spec fn taken_in(numbers: Seq<u64>) -> Set<u64>
    decreases numbers.len(),
{
    if numbers.len() == 0 {
        Set::empty()
    } else {
        let before = taken_in(numbers.drop_last());
        if after_numbers(numbers.drop_last()).accepts(numbers.last()) {
            before.insert(numbers.last())
        } else {
            before
        }
    }
}

/// A window remembers its highest number, and below it which of the last 256 numbers were
/// taken in.
proof fn lemma_window_remembers(numbers: Seq<u64>)
    ensures
        ({
            let window = after_numbers(numbers);
            let taken = taken_in(numbers);
            &&& window.seen.len() == 256
            &&& window.valid <==> numbers.len() > 0
            &&& window.valid ==> taken.contains(window.max_seq)
            &&& forall|seq: u64| #[trigger] taken.contains(seq) ==> window.valid && seq <= window.max_seq
            &&& forall|k: int|
                0 <= k < 256 ==> (#[trigger] window.seen[k] <==> window.valid && k <= window.max_seq
                    && taken.contains((window.max_seq - k) as u64))
        }),
    decreases numbers.len(),
{
    if numbers.len() > 0 {
        let earlier = numbers.drop_last();
        let seq = numbers.last();
        lemma_window_remembers(earlier);
        let before = after_numbers(earlier);
        let window = after_numbers(numbers);
        let taken = taken_in(numbers);
        if before.accepts(seq) {
            assert forall|number: u64| #[trigger] taken.contains(number) implies number <= window.max_seq by {
                assert(number == seq || taken_in(earlier).contains(number));
            }
            assert forall|k: int| 0 <= k < 256 implies (#[trigger] window.seen[k] <==> window.valid && k
                <= window.max_seq && taken.contains((window.max_seq - k) as u64)) by {
                let number = (window.max_seq - k) as u64;
                if k <= window.max_seq {
                    assert(taken.contains(number) <==> number == seq || taken_in(earlier).contains(number));
                }
                if before.valid && seq > before.max_seq {
                    let shift = seq - before.max_seq;
                    if k >= shift && k - shift <= before.max_seq {
                        assert((before.max_seq - (k - shift)) as u64 == number);
                        assert(before.seen[k - shift] <==> taken_in(earlier).contains(number));
                    }
                } else if before.valid {
                    assert(before.seen[k] <==> k <= before.max_seq && taken_in(earlier).contains(number));
                } else {
                    assert(!before.seen[k]);
                }
            }
        }
    }
}

/// What a window accepts, after whatever numbers it was offered since it was blank: the
/// numbers that it has not taken in before and that lie less than 256 below every number
/// that it has taken in, and so below the highest.
pub proof fn law_window_accepts_exactly_the_new(numbers: Seq<u64>, seq: u64)
    ensures
        after_numbers(numbers).accepts(seq) <==> {
            &&& !taken_in(numbers).contains(seq)
            &&& forall|other: u64| #[trigger] taken_in(numbers).contains(other) ==> other - seq < 256
        },
{
    lemma_window_remembers(numbers);
    let window = after_numbers(numbers);
    if window.valid && seq <= window.max_seq && window.max_seq - seq < 256 {
        assert(window.seen[window.max_seq - seq] <==> taken_in(numbers).contains(seq));
    }
}

/// The second slot of a direction is in use only behind the first, for an earlier
/// epoch.
pub open spec fn ordered(rx: RxView, direction: int) -> bool {
    let slots = rx.slots[direction];
    slots[1].valid ==> slots[0].valid && slots[1].epoch < slots[0].epoch
}

/// The windows have their size, and there are two slots for each direction.
pub open spec fn is_shaped(rx: RxView) -> bool {
    &&& rx.slots.len() == 2 && rx.grace.slots.len() == 2
    &&& forall|d: int| 0 <= d < 2 ==> (#[trigger] rx.slots[d]).len() == 2 && rx.grace.slots[d].len() == 2
    &&& forall|d: int, i: int|
        0 <= d < 2 && 0 <= i < 2 ==> (#[trigger] rx.slots[d][i]).window.seen.len() == 256
            && rx.grace.slots[d][i].window.seen.len() == 256
}

/// A packet that was received before, or comes from an epoch that is over.
pub open spec fn is_replay(rx: RxView, epoch: u32, seq: u64, direction: int) -> bool {
    match rx.window_for(epoch, direction) {
        Some(window) => !window.accepts(seq),
        None => rx.slots[direction][0].valid && epoch < rx.slots[direction][0].epoch,
    }
}

/// A replayed packet is not looked at, whatever the epoch of the receiver.
pub proof fn law_replay_is_not_admitted(rx: RxView, send_epoch: u32, epoch: u32, seq: u64, direction: int)
    requires
        is_replay(rx, epoch, seq, direction),
    ensures
        !rx.admits(send_epoch, epoch, seq, direction),
{
}

/// A packet that was taken in would be a replay from then on.
pub proof fn law_committed_packet_is_a_replay(rx: RxView, epoch: u32, seq: u64, direction: int, clock_ms: u64)
    requires
        is_shaped(rx),
        0 <= direction < 2,
        rx.committed(epoch, seq, direction, clock_ms).1,
    ensures
        is_replay(rx.committed(epoch, seq, direction, clock_ms).0, epoch, seq, direction),
{
    let slots = rx.slots[direction];
    let grace = rx.grace.slots[direction];
    assert(rx.slots[direction].len() == 2);
    assert(rx.slots[direction][0].window.seen.len() == 256);
    assert(rx.slots[direction][1].window.seen.len() == 256);
    let window = if rx.grace_is_for(direction, 0, epoch) {
        grace[0].window
    } else if rx.grace_is_for(direction, 1, epoch) {
        grace[1].window
    } else if !slots[0].valid {
        WindowView::blank()
    } else if slots[0].epoch == epoch {
        slots[0].window
    } else if slots[1].is_for(epoch) {
        slots[1].window
    } else {
        WindowView::blank()
    };
    law_window_rejects_what_it_saw(window, seq);
}

/// Taking in a packet keeps the order of the slots and their shape.
pub proof fn law_commit_keeps_order(
    rx: RxView,
    epoch: u32,
    seq: u64,
    direction: int,
    clock_ms: u64,
    other_direction: int,
)
    requires
        is_shaped(rx),
        0 <= direction < 2,
        0 <= other_direction < 2,
        ordered(rx, other_direction),
    ensures
        ordered(rx.committed(epoch, seq, direction, clock_ms).0, other_direction),
        is_shaped(rx.committed(epoch, seq, direction, clock_ms).0),
{
    let after = rx.committed(epoch, seq, direction, clock_ms).0;
    assert(rx.slots[direction].len() == 2);
    assert forall|d: int| 0 <= d < 2 implies (#[trigger] after.slots[d]).len() == 2 && after.grace.slots[d].len() == 2 by {
        assert(rx.slots[d].len() == 2);
    }
    assert forall|d: int, i: int| 0 <= d < 2 && 0 <= i < 2 implies (#[trigger] after.slots[d][i]).window.seen.len() == 256
        && after.grace.slots[d][i].window.seen.len() == 256 by {
        assert(rx.slots[d][i].window.seen.len() == 256);
        assert(rx.slots[d][0].window.seen.len() == 256);
        assert(rx.slots[d][1].window.seen.len() == 256);
    }
}

/// A replay stays a replay, whatever else is taken in in between: as long as the
/// slots are neither idle for too long nor synchronized anew, no packet is taken
/// in twice.
pub proof fn law_replay_stays_a_replay(
    rx: RxView,
    epoch: u32,
    seq: u64,
    direction: int,
    other_epoch: u32,
    other_seq: u64,
    other_direction: int,
    clock_ms: u64,
)
    requires
        is_shaped(rx),
        0 <= direction < 2,
        0 <= other_direction < 2,
        ordered(rx, direction),
        is_replay(rx, epoch, seq, direction),
    ensures
        is_replay(
            rx.committed(other_epoch, other_seq, other_direction, clock_ms).0,
            epoch,
            seq,
            direction,
        ),
{
    let after = rx.committed(other_epoch, other_seq, other_direction, clock_ms).0;
    assert(rx.slots[direction].len() == 2);
    assert(rx.slots[direction][0].window.seen.len() == 256);
    assert(rx.slots[direction][1].window.seen.len() == 256);
    if direction == other_direction {
        if let Some(window) = rx.window_for(epoch, direction) {
            if epoch == other_epoch {
                if window.accepts(other_seq) {
                    law_window_rejects_for_good(window, seq, other_seq);
                }
            }
        }
    }
}

/// At `clock_ms`, neither the newer slot of a direction has been idle for too long, nor
/// is the grace over, or one of its slots idle, that `epoch` is remembered in.
pub open spec fn is_remembered(rx: RxView, epoch: u32, direction: int, clock_ms: u64) -> bool {
    &&& rx.slots[direction][0].evicted(clock_ms) == rx.slots[direction][0]
    &&& forall|i: int|
        0 <= i < 2 && #[trigger] rx.grace_is_for(direction, i, epoch) ==> rx.evicted(clock_ms).grace_is_for(
            direction,
            i,
            epoch,
        )
}

/// Dropping what was idle for too long keeps the shape of the slots; it keeps their
/// order as long as the newer slot is in use or neither is.
pub proof fn law_eviction_keeps_order(rx: RxView, clock_ms: u64, direction: int)
    requires
        is_shaped(rx),
        0 <= direction < 2,
    ensures
        is_shaped(rx.evicted(clock_ms)),
        ordered(rx, direction) && rx.slots[direction][0].evicted(clock_ms) == rx.slots[direction][0] ==> ordered(
            rx.evicted(clock_ms),
            direction,
        ),
{
    let after = rx.evicted(clock_ms);
    assert forall|d: int| 0 <= d < 2 implies (#[trigger] after.slots[d]).len() == 2 && after.grace.slots[d].len() == 2 by {
        assert(rx.slots[d].len() == 2);
    }
    assert forall|d: int, i: int| 0 <= d < 2 && 0 <= i < 2 implies (#[trigger] after.slots[d][i]).window.seen.len() == 256
        && after.grace.slots[d][i].window.seen.len() == 256 by {
        assert(rx.slots[d][i].window.seen.len() == 256);
    }
}

/// A replay stays a replay when idle slots are dropped, as long as its epoch is
/// remembered.
pub proof fn law_eviction_keeps_replays(rx: RxView, epoch: u32, seq: u64, direction: int, clock_ms: u64)
    requires
        0 <= direction < 2,
        ordered(rx, direction),
        is_remembered(rx, epoch, direction, clock_ms),
        is_replay(rx, epoch, seq, direction),
    ensures
        is_replay(rx.evicted(clock_ms), epoch, seq, direction),
{
    assert(rx.grace_is_for(direction, 0, epoch) ==> rx.evicted(clock_ms).grace_is_for(direction, 0, epoch));
    assert(rx.grace_is_for(direction, 1, epoch) ==> rx.evicted(clock_ms).grace_is_for(direction, 1, epoch));
}

/// A packet that was just taken in stays a replay for as long as a slot may be idle,
/// unless the newer slot of its direction is dropped or the grace is over by then.
pub proof fn law_fresh_replay_outlives_eviction(
    rx: RxView,
    epoch: u32,
    seq: u64,
    direction: int,
    clock_ms: u64,
    later_ms: u64,
)
    requires
        is_shaped(rx),
        0 <= direction < 2,
        rx.committed(epoch, seq, direction, clock_ms).1,
        later_ms - clock_ms <= RX_EPOCH_IDLE_MS,
        ({
            let after = rx.committed(epoch, seq, direction, clock_ms).0;
            &&& after.slots[direction][0].evicted(later_ms) == after.slots[direction][0]
            &&& after.grace.valid ==> later_ms < after.grace.expires_at_ms
        }),
    ensures
        is_replay(rx.committed(epoch, seq, direction, clock_ms).0.evicted(later_ms), epoch, seq, direction),
{
    let after = rx.committed(epoch, seq, direction, clock_ms).0;
    assert(rx.slots[direction].len() == 2);
    law_committed_packet_is_a_replay(rx, epoch, seq, direction, clock_ms);
    assert(after.window_for(epoch, direction) is Some);
    assert(after.evicted(later_ms).window_for(epoch, direction) == after.window_for(epoch, direction));
}

/// What was received before a session is synchronized anew stays a replay during
/// the grace that follows.
pub proof fn law_grace_keeps_replays(rx: RxView, epoch: u32, seq: u64, direction: int, expires_at_ms: u64)
    requires
        0 <= direction < 2,
        ordered(rx, direction),
        !rx.grace_is_for(direction, 0, epoch),
        !rx.grace_is_for(direction, 1, epoch),
        rx.window_for(epoch, direction) is Some,
        is_replay(rx, epoch, seq, direction),
    ensures
        is_replay(rx.synchronized(expires_at_ms), epoch, seq, direction),
{
}

/// A session that is new or synchronized anew has its slots in order and in shape.
pub proof fn law_slots_begin_in_order(rx: RxView, expires_at_ms: u64, direction: int)
    requires
        is_shaped(rx),
        0 <= direction < 2,
    ensures
        ordered(RxView::blank(), direction),
        is_shaped(RxView::blank()),
        ordered(rx.synchronized(expires_at_ms), direction),
        is_shaped(rx.synchronized(expires_at_ms)),
{
    let after = rx.synchronized(expires_at_ms);
    assert forall|d: int| 0 <= d < 2 implies (#[trigger] after.slots[d]).len() == 2 && after.grace.slots[d].len() == 2 by {
        assert(rx.slots[d].len() == 2);
    }
    assert forall|d: int, i: int| 0 <= d < 2 && 0 <= i < 2 implies (#[trigger] after.slots[d][i]).window.seen.len() == 256
        && after.grace.slots[d][i].window.seen.len() == 256 by {
        assert(rx.slots[d][i].window.seen.len() == 256);
    }
}

/// An authentic packet that was admitted is new.
pub proof fn law_admitted_packet_is_new(
    rx: RxView,
    send_epoch: u32,
    epoch: u32,
    seq: u64,
    direction: int,
    clock_ms: u64,
)
    requires
        rx.admits(send_epoch, epoch, seq, direction),
    ensures
        rx.committed(epoch, seq, direction, clock_ms).1,
{
}

} // verus!
