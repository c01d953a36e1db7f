//! Reassembly of RPC packets that arrive in pieces.
//!
//! What is buffered is bounded: in the number of transactions of one peer, in the
//! number of declared pieces and in the number of bytes.
use vstd::prelude::*;

use crate::bytes;
use crate::collections;
use crate::collections::{Duplicate, MapKey, VecMap};
use crate::error::EdgeError;
use crate::proto::{RpcPacket, RpcPacketView};
use crate::text;
use crate::totals;

verus! {

pub const MAX_RPC_PIECES: u32 = 32_768;

pub const MAX_PENDING_TRANSACTIONS_PER_PEER: usize = 64;

pub const MAX_PENDING_BYTES: usize = 33_554_432;

pub const MAX_PENDING_PIECES: usize = 32_768;

pub const RPC_FRAGMENT_TTL_MS: u64 = 10_000;

/// One direction of one transaction with one peer of one network.
#[derive(Debug)]
pub struct RpcKey {
    pub network: String,
    pub peer_id: u32,
    pub transaction_id: i64,
    pub is_request: bool,
}

#[verifier::ext_equal]
pub struct RpcKeyView {
    pub network: Seq<char>,
    pub peer_id: u32,
    pub transaction_id: i64,
    pub is_request: bool,
}

impl View for RpcKey {
    type V = RpcKeyView;

    open spec fn view(&self) -> RpcKeyView {
        RpcKeyView {
            network: self.network@,
            peer_id: self.peer_id,
            transaction_id: self.transaction_id,
            is_request: self.is_request,
        }
    }
}

impl Duplicate for RpcKey {
    fn duplicate(&self) -> (r: Self) {
        RpcKey {
            network: self.network.clone(),
            peer_id: self.peer_id,
            transaction_id: self.transaction_id,
            is_request: self.is_request,
        }
    }
}

impl MapKey for RpcKey {
    fn same(&self, other: &Self) -> (r: bool) {
        self.peer_id == other.peer_id && self.transaction_id == other.transaction_id && self.is_request
            == other.is_request && self.network == other.network
    }
}

pub fn rpc_key(network: &str, peer_id: u32, transaction_id: i64, is_request: bool) -> (r: RpcKey)
    ensures
        r@ == (RpcKeyView { network: network@, peer_id, transaction_id, is_request }),
{
    RpcKey { network: network.to_string(), peer_id, transaction_id, is_request }
}

/// The keys of the transactions with one peer.
pub open spec fn of_peer(network: Seq<char>, peer_id: u32) -> spec_fn(RpcKeyView) -> bool {
    |key: RpcKeyView| key.network == network && key.peer_id == peer_id
}

/// How many pieces are there.
pub open spec fn received(pieces: Seq<Option<Seq<u8>>>) -> nat
    decreases pieces.len(),
{
    if pieces.len() == 0 {
        0
    } else {
        received(pieces.drop_last()) + if pieces.last() is Some {
            1nat
        } else {
            0nat
        }
    }
}

/// How many bytes a piece holds.
pub open spec fn piece_size(piece: Option<Seq<u8>>) -> nat {
    match piece {
        Some(body) => body.len(),
        None => 0,
    }
}

/// How many bytes the pieces hold together.
pub open spec fn buffered(pieces: Seq<Option<Seq<u8>>>) -> nat
    decreases pieces.len(),
{
    if pieces.len() == 0 {
        0
    } else {
        buffered(pieces.drop_last()) + piece_size(pieces.last())
    }
}

/// The pieces one after the other.
pub open spec fn joined(pieces: Seq<Option<Seq<u8>>>) -> Seq<u8>
    decreases pieces.len(),
{
    if pieces.len() == 0 {
        Seq::empty()
    } else {
        joined(pieces.drop_last()) + pieces.last()->0
    }
}

/// Every piece is there.
pub open spec fn all_there(pieces: Seq<Option<Seq<u8>>>) -> bool {
    forall|i: int| 0 <= i < pieces.len() ==> (#[trigger] pieces[i]) is Some
}

proof fn lemma_received_update(pieces: Seq<Option<Seq<u8>>>, i: int, body: Seq<u8>)
    requires
        0 <= i < pieces.len(),
    ensures
        received(pieces.update(i, Some(body))) == received(pieces) + if pieces[i] is Some {
            0int
        } else {
            1int
        },
        buffered(pieces.update(i, Some(body))) == buffered(pieces) - piece_size(pieces[i]) + body.len(),
        piece_size(pieces[i]) <= buffered(pieces),
    decreases pieces.len(),
{
    let after = pieces.update(i, Some(body));
    if i == pieces.len() - 1 {
        assert(after.drop_last() =~= pieces.drop_last());
    } else {
        assert(after.drop_last() =~= pieces.drop_last().update(i, Some(body)));
        lemma_received_update(pieces.drop_last(), i, body);
        assert(pieces.drop_last()[i] == pieces[i]);
    }
}

proof fn lemma_received_all(pieces: Seq<Option<Seq<u8>>>)
    ensures
        received(pieces) <= pieces.len(),
        received(pieces) == pieces.len() <==> all_there(pieces),
    decreases pieces.len(),
{
    if pieces.len() > 0 {
        lemma_received_all(pieces.drop_last());
        let before = pieces.drop_last();
        assert(all_there(pieces) <==> (all_there(before) && pieces.last() is Some)) by {
            if all_there(pieces) {
                assert forall|i: int| 0 <= i < before.len() implies (#[trigger] before[i]) is Some by {
                    assert(before[i] == pieces[i]);
                }
            }
            if all_there(before) && pieces.last() is Some {
                assert forall|i: int| 0 <= i < pieces.len() implies (#[trigger] pieces[i]) is Some by {
                    if i < before.len() {
                        assert(before[i] == pieces[i]);
                    }
                }
            }
        }
    }
}

proof fn lemma_received_none(n: nat)
    ensures
        received(Seq::new(n, |i: int| None::<Seq<u8>>)) == 0,
        buffered(Seq::new(n, |i: int| None::<Seq<u8>>)) == 0,
    decreases n,
{
    if n > 0 {
        lemma_received_none((n - 1) as nat);
        assert(Seq::new(n, |i: int| None::<Seq<u8>>).drop_last() =~= Seq::new(
            (n - 1) as nat,
            |i: int| None::<Seq<u8>>,
        ));
    }
}

/// What is buffered of one transaction.
#[verifier::ext_equal]
pub struct PendingView {
    pub pieces: Seq<Option<Seq<u8>>>,
    pub first: Option<RpcPacketView>,
    pub updated_at_ms: u64,
}

impl PendingView {
    /// A transaction of which nothing has arrived.
    pub open spec fn announced(total_pieces: u32, now_ms: u64) -> PendingView {
        PendingView {
            pieces: Seq::new(total_pieces as nat, |i: int| None),
            first: None,
            updated_at_ms: now_ms,
        }
    }

    /// The transaction once `packet` has arrived; a repeated piece replaces the
    /// former one.
    pub open spec fn with_piece(self, packet: RpcPacketView, now_ms: u64) -> PendingView {
        PendingView {
            pieces: self.pieces.update(packet.piece_idx as int, Some(packet.body)),
            first: if packet.piece_idx == 0 {
                Some(packet)
            } else {
                self.first
            },
            updated_at_ms: now_ms,
        }
    }

    /// The whole packet: the first piece, with the bodies of all pieces.
    pub open spec fn whole(self) -> RpcPacketView {
        RpcPacketView { body: joined(self.pieces), total_pieces: 1, piece_idx: 0, ..self.first->0 }
    }
}

struct PendingRpc {
    total_pieces: u32,
    pieces: Vec<Option<Vec<u8>>>,
    first: Option<RpcPacket>,
    received_pieces: u32,
    body_bytes: usize,
    updated_at_ms: u64,
}

spec fn piece_views(pieces: Seq<Option<Vec<u8>>>) -> Seq<Option<Seq<u8>>> {
    Seq::new(pieces.len(), |i: int| collections::option_view(pieces[i]))
}

impl View for PendingRpc {
    type V = PendingView;

    closed spec fn view(&self) -> PendingView {
        PendingView {
            pieces: piece_views(self.pieces@),
            first: collections::option_view(self.first),
            updated_at_ms: self.updated_at_ms,
        }
    }
}

impl PendingRpc {
    #[verifier::type_invariant]
    spec fn well_formed(self) -> bool {
        &&& self.total_pieces == self.pieces@.len()
        &&& self.received_pieces == received(self@.pieces)
        &&& self.body_bytes == buffered(self@.pieces)
        &&& self.total_pieces > 0 ==> (self.first is Some <==> self.pieces@[0] is Some)
    }

    fn new(total_pieces: u32, now_ms: u64) -> (r: Self)
        ensures
            r@ == PendingView::announced(total_pieces, now_ms),
    {
        let mut pieces: Vec<Option<Vec<u8>>> = Vec::new();
        let mut i: u32 = 0;
        while i < total_pieces
            invariant
                i <= total_pieces,
                pieces@.len() == i,
                forall|j: int| 0 <= j < i ==> (#[trigger] pieces@[j]) is None,
            decreases total_pieces - i,
        {
            pieces.push(None);
            i += 1;
        }
        proof {
            lemma_received_none(total_pieces as nat);
            assert(piece_views(pieces@) =~= PendingView::announced(total_pieces, now_ms).pieces);
        }
        PendingRpc {
            total_pieces,
            pieces,
            first: None,
            received_pieces: 0,
            body_bytes: 0,
            updated_at_ms: now_ms,
        }
    }

    fn piece_len(&self, index: usize) -> (r: usize)
        requires
            index < self@.pieces.len(),
        ensures
            r == piece_size(self@.pieces[index as int]),
    {
        match &self.pieces[index] {
            Some(body) => body.len(),
            None => 0,
        }
    }

    fn size(&self) -> (r: usize)
        ensures
            r == buffered(self@.pieces),
    {
        proof {
            use_type_invariant(self);
        }
        self.body_bytes
    }

    fn count(&self) -> (r: u32)
        ensures
            r == self@.pieces.len(),
    {
        proof {
            use_type_invariant(self);
        }
        self.total_pieces
    }

    fn is_complete(&self) -> (r: bool)
        ensures
            r == all_there(self@.pieces),
    {
        proof {
            use_type_invariant(self);
            lemma_received_all(self@.pieces);
        }
        self.received_pieces == self.total_pieces
    }

    fn put(&mut self, packet: RpcPacket, now_ms: u64)
        requires
            packet.piece_idx < old(self)@.pieces.len(),
            buffered(old(self)@.pieces) - piece_size(old(self)@.pieces[packet.piece_idx as int])
                + packet.body@.len() <= usize::MAX,
        ensures
            final(self)@ == old(self)@.with_piece(packet@, now_ms),
    {
        let index: usize = packet.piece_idx as usize;
        let previous_bytes: usize = self.piece_len(index);
        proof {
            use_type_invariant(&*self);
            lemma_received_update(self@.pieces, index as int, packet.body@);
            lemma_received_all(self@.pieces.update(index as int, Some(packet.body@)));
        }
        let ghost before = self@;
        let mut out = PendingRpc::new(0, 0);
        std::mem::swap(self, &mut out);
        let PendingRpc { total_pieces, mut pieces, mut first, mut received_pieces, mut body_bytes, .. } = out;
        if pieces[index].is_none() {
            received_pieces += 1;
        }
        body_bytes = body_bytes - previous_bytes + packet.body.len();
        let body = bytes::copy_bytes(&packet.body);
        pieces.set(index, Some(body));
        assert(piece_views(pieces@) =~= before.pieces.update(index as int, Some(packet.body@)));
        if index == 0 {
            first = Some(packet);
        }
        let mut filled = PendingRpc {
            total_pieces,
            pieces,
            first,
            received_pieces,
            body_bytes,
            updated_at_ms: now_ms,
        };
        std::mem::swap(self, &mut filled);
    }

    fn finish(self) -> (r: RpcPacket)
        requires
            self@.pieces.len() > 0,
            all_there(self@.pieces),
        ensures
            r@ == self@.whole(),
    {
        proof {
            use_type_invariant(&self);
            assert(self@.pieces[0] is Some);
        }
        let ghost view = self@;
        let PendingRpc { pieces, first, .. } = self;
        let mut first = first.unwrap();
        let mut body: Vec<u8> = Vec::new();
        let mut i: usize = 0;
        assert(view.pieces.take(0) =~= Seq::empty());
        while i < pieces.len()
            invariant
                i <= pieces@.len(),
                view.pieces == piece_views(pieces@),
                all_there(view.pieces),
                body@ == joined(view.pieces.take(i as int)),
            decreases pieces@.len() - i,
        {
            assert(view.pieces[i as int] is Some);
            assert(view.pieces.take(i + 1).drop_last() =~= view.pieces.take(i as int));
            if let Some(piece) = &pieces[i] {
                bytes::put_bytes(&mut body, piece);
            }
            i += 1;
        }
        assert(view.pieces.take(i as int) =~= view.pieces);
        first.body = body;
        first.total_pieces = 1;
        first.piece_idx = 0;
        first
    }
}

/// What is buffered, by transaction.
pub type Pending = Map<RpcKeyView, PendingView>;

/// The bytes of a transaction.
pub open spec fn bytes_of() -> spec_fn(RpcKeyView, PendingView) -> nat {
    |key: RpcKeyView, value: PendingView| buffered(value.pieces)
}

/// The declared pieces of a transaction.
pub open spec fn pieces_of() -> spec_fn(RpcKeyView, PendingView) -> nat {
    |key: RpcKeyView, value: PendingView| value.pieces.len()
}

/// The transactions that were touched lately.
pub open spec fn fresh(now_ms: u64) -> spec_fn(RpcKeyView, PendingView) -> bool {
    |key: RpcKeyView, value: PendingView| now_ms - value.updated_at_ms < RPC_FRAGMENT_TTL_MS
}

/// The number of transactions with one peer.
pub open spec fn peer_transactions(pending: Pending, network: Seq<char>, peer_id: u32) -> nat {
    pending.dom().filter(of_peer(network, peer_id)).len()
}

/// The limits that hold at all times.
pub open spec fn bounded(pending: Pending) -> bool {
    &&& pending.dom().finite()
    &&& totals::total(pending, bytes_of()) <= MAX_PENDING_BYTES
    &&& totals::total(pending, pieces_of()) <= MAX_PENDING_PIECES
    &&& forall|network: Seq<char>, peer_id: u32| #[trigger]
        peer_transactions(pending, network, peer_id) <= MAX_PENDING_TRANSACTIONS_PER_PEER
}

/// What is buffered of a transaction is a part of it: at least one piece is there, and
/// at least one is missing. The first piece, if it is there, belongs to the transaction
/// that it is buffered for.
pub open spec fn is_partial(key: RpcKeyView, value: PendingView) -> bool {
    &&& 2 <= value.pieces.len() <= MAX_RPC_PIECES
    &&& 0 < received(value.pieces) < value.pieces.len()
    &&& value.first is Some <==> value.pieces[0] is Some
    &&& value.first matches Some(first) ==> {
        &&& key_of(key.network, key.peer_id, first) == key
        &&& first.total_pieces == value.pieces.len()
        &&& first.piece_idx == 0
        &&& first.descriptor is Some
        &&& value.pieces[0] == Some(first.body)
    }
}

/// The limits hold, and nothing but parts of transactions is buffered.
pub open spec fn is_sound(pending: Pending) -> bool {
    &&& bounded(pending)
    &&& forall|key: RpcKeyView| #[trigger] pending.contains_key(key) ==> is_partial(key, pending[key])
}

/// The key of the transaction that a packet belongs to.
pub open spec fn key_of(network: Seq<char>, peer_id: u32, packet: RpcPacketView) -> RpcKeyView {
    RpcKeyView { network, peer_id, transaction_id: packet.transaction_id, is_request: packet.is_request }
}

/// A packet that is whole by itself.
pub open spec fn is_whole(packet: RpcPacketView) -> bool {
    (packet.total_pieces == 0 && packet.piece_idx == 0) || (packet.total_pieces == 1 && packet.piece_idx == 0)
}

/// A packet that cannot be a piece of anything.
pub open spec fn is_misnumbered(packet: RpcPacketView) -> bool {
    packet.total_pieces > MAX_RPC_PIECES || packet.piece_idx >= packet.total_pieces
}

/// What becomes of the buffer, and what comes out, when a packet arrives:
/// `Ok(Some(_))` is a whole packet, `Ok(None)` says that pieces are missing.
pub open spec fn merged(
    pending: Pending,
    network: Seq<char>,
    peer_id: u32,
    packet: RpcPacketView,
    now_ms: u64,
) -> (Pending, Result<Option<RpcPacketView>, EdgeError>) {
    if is_whole(packet) {
        (pending, Ok(Some(packet)))
    } else if is_misnumbered(packet) {
        (pending, Err(EdgeError::InvalidFragment))
    } else if packet.piece_idx == 0 && packet.descriptor is None {
        (pending, Err(EdgeError::MissingFirstDescriptor))
    } else {
        merged_piece(collections::kept(pending, fresh(now_ms)), network, peer_id, packet, now_ms)
    }
}

/// The same for a well-numbered piece, once stale transactions are gone.
pub open spec fn merged_piece(
    pending: Pending,
    network: Seq<char>,
    peer_id: u32,
    packet: RpcPacketView,
    now_ms: u64,
) -> (Pending, Result<Option<RpcPacketView>, EdgeError>) {
    let key = key_of(network, peer_id, packet);
    let known = pending.contains_key(key);
    let before = if known {
        pending[key]
    } else {
        PendingView::announced(packet.total_pieces, now_ms)
    };
    let after = before.with_piece(packet, now_ms);
    if before.pieces.len() != packet.total_pieces {
        (pending.remove(key), Err(EdgeError::PieceCountChanged))
    } else if !known && peer_transactions(pending, network, peer_id) >= MAX_PENDING_TRANSACTIONS_PER_PEER {
        (pending, Err(EdgeError::TooManyPendingTransactions))
    } else if !known && totals::total(pending, pieces_of()) + packet.total_pieces > MAX_PENDING_PIECES {
        (pending, Err(EdgeError::PendingPieceLimit))
    } else if totals::total(pending.insert(key, after), bytes_of()) > MAX_PENDING_BYTES {
        (pending.remove(key), Err(EdgeError::PendingByteLimit))
    } else if all_there(after.pieces) {
        (pending.remove(key), Ok(Some(after.whole())))
    } else {
        (pending.insert(key, after), Ok(None))
    }
}

/// What a piece made of its transaction.
#[derive(Debug)]
pub enum MergedPacket {
    Pending,
    Complete(RpcPacket),
}

/// The same, seen through its view.
pub open spec fn merge_result(r: Result<MergedPacket, EdgeError>) -> Result<Option<RpcPacketView>, EdgeError> {
    match r {
        Ok(MergedPacket::Pending) => Ok(None),
        Ok(MergedPacket::Complete(packet)) => Ok(Some(packet@)),
        Err(error) => Err(error),
    }
}

proof fn lemma_bounded_subset(pending: Pending, smaller: Pending)
    requires
        bounded(pending),
        smaller.dom().subset_of(pending.dom()),
        totals::total(smaller, bytes_of()) <= totals::total(pending, bytes_of()),
        totals::total(smaller, pieces_of()) <= totals::total(pending, pieces_of()),
    ensures
        bounded(smaller),
{
    vstd::set_lib::lemma_set_subset_finite(pending.dom(), smaller.dom());
    assert forall|network: Seq<char>, peer_id: u32| #[trigger]
        peer_transactions(smaller, network, peer_id) <= MAX_PENDING_TRANSACTIONS_PER_PEER by {
        let p = of_peer(network, peer_id);
        pending.dom().lemma_len_filter(p);
        assert(smaller.dom().filter(p).subset_of(pending.dom().filter(p)));
        vstd::set_lib::lemma_len_subset(smaller.dom().filter(p), pending.dom().filter(p));
        assert(peer_transactions(pending, network, peer_id) <= MAX_PENDING_TRANSACTIONS_PER_PEER);
    }
}

proof fn lemma_bounded_remove(pending: Pending, key: RpcKeyView)
    requires
        bounded(pending),
    ensures
        bounded(pending.remove(key)),
{
    if pending.contains_key(key) {
        totals::lemma_total_split(pending, bytes_of(), key);
        totals::lemma_total_split(pending, pieces_of(), key);
    } else {
        assert(pending.remove(key) =~= pending);
    }
    lemma_bounded_subset(pending, pending.remove(key));
}

proof fn lemma_bounded_kept(pending: Pending, p: spec_fn(RpcKeyView, PendingView) -> bool)
    requires
        bounded(pending),
    ensures
        bounded(collections::kept(pending, p)),
{
    totals::lemma_total_kept(pending, bytes_of(), p);
    totals::lemma_total_kept(pending, pieces_of(), p);
    lemma_bounded_subset(pending, collections::kept(pending, p));
}

proof fn lemma_bounded_insert(pending: Pending, key: RpcKeyView, value: PendingView)
    requires
        bounded(pending),
        totals::total(pending.insert(key, value), bytes_of()) <= MAX_PENDING_BYTES,
        pending.contains_key(key) ==> value.pieces.len() == pending[key].pieces.len(),
        !pending.contains_key(key) ==> peer_transactions(pending, key.network, key.peer_id)
            < MAX_PENDING_TRANSACTIONS_PER_PEER && totals::total(pending, pieces_of()) + value.pieces.len()
            <= MAX_PENDING_PIECES,
    ensures
        bounded(pending.insert(key, value)),
{
    let after = pending.insert(key, value);
    totals::lemma_total_insert(pending, pieces_of(), key, value);
    assert forall|network: Seq<char>, peer_id: u32| #[trigger]
        peer_transactions(after, network, peer_id) <= MAX_PENDING_TRANSACTIONS_PER_PEER by {
        let p = of_peer(network, peer_id);
        pending.dom().lemma_len_filter(p);
        assert(peer_transactions(pending, network, peer_id) <= MAX_PENDING_TRANSACTIONS_PER_PEER);
        if p(key) && !pending.contains_key(key) {
            assert(after.dom().filter(p) =~= pending.dom().filter(p).insert(key));
        } else {
            assert(after.dom().filter(p) =~= pending.dom().filter(p));
        }
    }
}

/// What is buffered stays a part of its transaction, whatever arrives, and a packet that
/// comes out whole belongs to the transaction of the packet that made it whole.
pub proof fn law_merge_stays_sound(
    pending: Pending,
    network: Seq<char>,
    peer_id: u32,
    packet: RpcPacketView,
    now_ms: u64,
)
    requires
        is_sound(pending),
    ensures
        is_sound(merged(pending, network, peer_id, packet, now_ms).0),
        merged(pending, network, peer_id, packet, now_ms).1 matches Ok(Some(whole)) ==> key_of(network, peer_id, whole)
            == key_of(network, peer_id, packet),
{
    law_merge_stays_bounded(pending, network, peer_id, packet, now_ms);
    let clean = collections::kept(pending, fresh(now_ms));
    let key = key_of(network, peer_id, packet);
    let result = merged_piece(clean, network, peer_id, packet, now_ms);
    let before = if clean.contains_key(key) {
        clean[key]
    } else {
        PendingView::announced(packet.total_pieces, now_ms)
    };
    if !is_whole(packet) && !is_misnumbered(packet) && before.pieces.len() == packet.total_pieces {
        let after = before.with_piece(packet, now_ms);
        lemma_received_none(packet.total_pieces as nat);
        lemma_received_update(before.pieces, packet.piece_idx as int, packet.body);
        lemma_received_all(after.pieces);
        assert(pending.contains_key(key) ==> is_partial(key, pending[key]));
        assert(all_there(after.pieces) ==> after.pieces[0] is Some);
    }
}

/// A packet that comes out whole is the packet that arrived, or the first piece that was
/// buffered for its transaction, but for its body and the numbering of pieces.
pub proof fn law_whole_packet_has_a_first_piece(
    pending: Pending,
    network: Seq<char>,
    peer_id: u32,
    packet: RpcPacketView,
    now_ms: u64,
)
    requires
        is_sound(pending),
    ensures
        merged(pending, network, peer_id, packet, now_ms).1 matches Ok(Some(whole)) ==> ({
            let key = key_of(network, peer_id, packet);
            let numbered = |first: RpcPacketView|
                RpcPacketView {
                    body: whole.body,
                    total_pieces: whole.total_pieces,
                    piece_idx: whole.piece_idx,
                    ..first
                };
            ||| whole == numbered(packet)
            ||| pending.contains_key(key) && (pending[key].first matches Some(first) && whole == numbered(first))
        }),
{
    let clean = collections::kept(pending, fresh(now_ms));
    let key = key_of(network, peer_id, packet);
    let before = if clean.contains_key(key) {
        clean[key]
    } else {
        PendingView::announced(packet.total_pieces, now_ms)
    };
    if !is_whole(packet) && !is_misnumbered(packet) && before.pieces.len() == packet.total_pieces {
        let after = before.with_piece(packet, now_ms);
        assert(pending.contains_key(key) ==> is_partial(key, pending[key]));
        assert(all_there(after.pieces) ==> after.pieces[0] is Some);
    }
}

/// The limits hold whatever arrives.
pub proof fn law_merge_stays_bounded(
    pending: Pending,
    network: Seq<char>,
    peer_id: u32,
    packet: RpcPacketView,
    now_ms: u64,
)
    requires
        bounded(pending),
    ensures
        bounded(merged(pending, network, peer_id, packet, now_ms).0),
{
    let clean = collections::kept(pending, fresh(now_ms));
    lemma_bounded_kept(pending, fresh(now_ms));
    let key = key_of(network, peer_id, packet);
    lemma_bounded_remove(clean, key);
    let result = merged_piece(clean, network, peer_id, packet, now_ms);
    if !is_misnumbered(packet) && result.1 is Ok && result.0.contains_key(key) {
        lemma_bounded_insert(clean, key, result.0[key]);
    }
}

/// A packet of one network touches no transaction of another, except that stale
/// ones are dropped.
pub proof fn law_merge_keeps_other_networks(
    pending: Pending,
    network: Seq<char>,
    peer_id: u32,
    packet: RpcPacketView,
    now_ms: u64,
    key: RpcKeyView,
)
    requires
        key.network != network || key.peer_id != peer_id,
        pending.contains_key(key),
        fresh(now_ms)(key, pending[key]),
    ensures
        merged(pending, network, peer_id, packet, now_ms).0.contains_key(key),
        merged(pending, network, peer_id, packet, now_ms).0[key] == pending[key],
{
}

/// The packets of one transaction, each piece exactly once, in some order; the
/// piece with index `i` carries `bodies[i]`.
pub open spec fn are_pieces_of(packets: Seq<RpcPacketView>, bodies: Seq<Seq<u8>>) -> bool {
    &&& 2 <= packets.len() <= MAX_RPC_PIECES
    &&& packets.len() == bodies.len()
    &&& forall|i: int|
        0 <= i < packets.len() ==> {
            let packet = #[trigger] packets[i];
            &&& packet.total_pieces == packets.len()
            &&& packet.piece_idx < packets.len()
            &&& packet.body == bodies[packet.piece_idx as int]
            &&& packet.transaction_id == packets[0].transaction_id
            &&& packet.is_request == packets[0].is_request
            &&& packet.piece_idx == 0 ==> packet.descriptor is Some
        }
    &&& forall|i: int, j: int|
        0 <= i < packets.len() && 0 <= j < packets.len() && i != j ==> (#[trigger] packets[i]).piece_idx != (
        #[trigger] packets[j]).piece_idx
}

/// The buffer after the first `count` packets, the `i`th of which arrives at
/// `times[i]`.
pub open spec fn after_packets(
    pending: Pending,
    network: Seq<char>,
    peer_id: u32,
    packets: Seq<RpcPacketView>,
    times: Seq<u64>,
    count: nat,
) -> Pending
    decreases count,
{
    if count == 0 {
        pending
    } else {
        merged(
            after_packets(pending, network, peer_id, packets, times, (count - 1) as nat),
            network,
            peer_id,
            packets[count - 1],
            times[count - 1],
        ).0
    }
}

/// What comes out when the packet at `index` arrives after those before it.
pub open spec fn output_at(
    pending: Pending,
    network: Seq<char>,
    peer_id: u32,
    packets: Seq<RpcPacketView>,
    times: Seq<u64>,
    index: int,
) -> Result<Option<RpcPacketView>, EdgeError> {
    merged(
        after_packets(pending, network, peer_id, packets, times, index as nat),
        network,
        peer_id,
        packets[index],
        times[index],
    ).1
}

/// The bytes of the first `count` packets.
pub open spec fn packet_bytes(packets: Seq<RpcPacketView>, count: int) -> nat
    decreases count,
{
    if count <= 0 {
        0
    } else {
        packet_bytes(packets, count - 1) + packets[count - 1].body.len()
    }
}

/// No piece comes later than the time to live after the one before it.
pub open spec fn in_time(times: Seq<u64>) -> bool {
    forall|i: int| 0 < i < times.len() ==> #[trigger] times[i] - times[i - 1] < RPC_FRAGMENT_TTL_MS
}

/// There is room for one more transaction with `pieces` pieces and `bytes` bytes.
pub open spec fn has_room(pending: Pending, network: Seq<char>, peer_id: u32, pieces: nat, bytes: nat) -> bool {
    &&& pending.dom().finite()
    &&& peer_transactions(pending, network, peer_id) < MAX_PENDING_TRANSACTIONS_PER_PEER
    &&& totals::total(pending, pieces_of()) + pieces <= MAX_PENDING_PIECES
    &&& totals::total(pending, bytes_of()) + bytes <= MAX_PENDING_BYTES
}

/// The pieces that the first `count` packets have filled.
spec fn filled(packets: Seq<RpcPacketView>, pieces: Seq<Option<Seq<u8>>>, count: int) -> bool {
    &&& pieces.len() == packets.len()
    &&& received(pieces) == count
    &&& buffered(pieces) == packet_bytes(packets, count)
    &&& forall|j: int| 0 <= j < count ==> pieces[(#[trigger] packets[j]).piece_idx as int] == Some(packets[j].body)
    &&& forall|j: int| count <= j < packets.len() ==> pieces[(#[trigger] packets[j]).piece_idx as int] is None
}

proof fn lemma_packet_bytes(packets: Seq<RpcPacketView>, count: int)
    requires
        0 <= count <= packets.len(),
    ensures
        packet_bytes(packets, count) <= packet_bytes(packets, packets.len() as int),
    decreases packets.len() - count,
{
    if count < packets.len() {
        lemma_packet_bytes(packets, count + 1);
    }
}

proof fn lemma_filled_step(packets: Seq<RpcPacketView>, bodies: Seq<Seq<u8>>, before: PendingView, count: int, now_ms: u64)
    requires
        are_pieces_of(packets, bodies),
        0 <= count < packets.len(),
        filled(packets, before.pieces, count),
    ensures
        filled(packets, before.with_piece(packets[count], now_ms).pieces, count + 1),
        all_there(before.with_piece(packets[count], now_ms).pieces) <==> count + 1 == packets.len(),
{
    let packet = packets[count];
    lemma_received_update(before.pieces, packet.piece_idx as int, packet.body);
    lemma_received_all(before.with_piece(packet, now_ms).pieces);
}

/// The buffer before the packet at `count`, which has not seen the end of the
/// transaction.
proof fn lemma_reassembly(
    pending: Pending,
    network: Seq<char>,
    peer_id: u32,
    packets: Seq<RpcPacketView>,
    bodies: Seq<Seq<u8>>,
    times: Seq<u64>,
    first: int,
    count: nat,
)
    requires
        are_pieces_of(packets, bodies),
        times.len() == packets.len(),
        in_time(times),
        0 <= first < packets.len(),
        packets[first].piece_idx == 0,
        !pending.contains_key(key_of(network, peer_id, packets[0])),
        has_room(
            pending,
            network,
            peer_id,
            packets.len(),
            packet_bytes(packets, packets.len() as int),
        ),
        count <= packets.len(),
    ensures
        ({
            let key = key_of(network, peer_id, packets[0]);
            let now = after_packets(pending, network, peer_id, packets, times, count);
            let others = now.remove(key);
            &&& now.dom().finite()
            &&& totals::total(others, bytes_of()) <= totals::total(pending, bytes_of())
            &&& totals::total(others, pieces_of()) <= totals::total(pending, pieces_of())
            &&& others.dom().subset_of(pending.dom())
            &&& count == 0 ==> now == pending
            &&& 0 < count < packets.len() ==> now.contains_key(key)
            &&& now.contains_key(key) ==> {
                &&& 0 < count < packets.len()
                &&& filled(packets, now[key].pieces, count as int)
                &&& now[key].updated_at_ms == times[count - 1]
                &&& now[key].first == if first < count {
                    Some(packets[first])
                } else {
                    None
                }
            }
            &&& 0 < count < packets.len() ==> output_at(
                pending,
                network,
                peer_id,
                packets,
                times,
                count - 1,
            ) == Ok::<Option<RpcPacketView>, EdgeError>(None)
            &&& count == packets.len() ==> exists|last: PendingView|
                filled(packets, last.pieces, count as int) && last.first == Some(packets[first]) && output_at(
                    pending,
                    network,
                    peer_id,
                    packets,
                    times,
                    count - 1,
                ) == Ok::<Option<RpcPacketView>, EdgeError>(Some(#[trigger] last.whole()))
        }),
    decreases count,
{
    let key = key_of(network, peer_id, packets[0]);
    if count == 0 {
        assert(pending.remove(key) =~= pending);
    } else {
        let c = count - 1;
        lemma_reassembly(pending, network, peer_id, packets, bodies, times, first, c as nat);
        let earlier = after_packets(pending, network, peer_id, packets, times, c as nat);
        let packet = packets[c];
        let now_ms = times[c];
        let clean = collections::kept(earlier, fresh(now_ms));
        assert(key_of(network, peer_id, packet) == key);
        totals::lemma_total_kept(earlier, bytes_of(), fresh(now_ms));
        assert(clean.remove(key) =~= collections::kept(earlier.remove(key), fresh(now_ms)));
        totals::lemma_total_kept(earlier.remove(key), bytes_of(), fresh(now_ms));
        totals::lemma_total_kept(earlier.remove(key), pieces_of(), fresh(now_ms));
        let before = if c > 0 {
            earlier[key]
        } else {
            PendingView::announced(packet.total_pieces, now_ms)
        };
        if c > 0 {
            assert(times[c] - times[c - 1] < RPC_FRAGMENT_TTL_MS);
            assert(clean.contains_key(key) && clean[key] == before);
        } else {
            assert(!clean.contains_key(key));
            assert(clean.remove(key) =~= clean);
            lemma_received_none(packet.total_pieces as nat);
            assert(filled(packets, before.pieces, 0));
            let p = of_peer(network, peer_id);
            pending.dom().lemma_len_filter(p);
            vstd::set_lib::lemma_len_subset(clean.dom().filter(p), pending.dom().filter(p));
            assert(earlier.remove(key) =~= earlier);
        }
        lemma_filled_step(packets, bodies, before, c, now_ms);
        let after = before.with_piece(packet, now_ms);
        lemma_packet_bytes(packets, c + 1);
        totals::lemma_total_insert(clean, bytes_of(), key, after);
        assert(clean.insert(key, after).remove(key) =~= clean.remove(key));
        assert(clean.remove(key).remove(key) =~= clean.remove(key));
        if count == packets.len() {
            assert(after.first == Some(packets[first]));
            assert(output_at(pending, network, peer_id, packets, times, c) == Ok::<Option<RpcPacketView>, EdgeError>(
                Some(after.whole()),
            ));
        }
    }
}

proof fn lemma_joined_flatten(bodies: Seq<Seq<u8>>, pieces: Seq<Option<Seq<u8>>>)
    requires
        pieces.len() == bodies.len(),
        forall|i: int| 0 <= i < bodies.len() ==> #[trigger] pieces[i] == Some(bodies[i]),
    ensures
        joined(pieces) == bodies.flatten_alt(),
    decreases bodies.len(),
{
    if bodies.len() > 0 {
        assert forall|i: int| 0 <= i < bodies.drop_last().len() implies #[trigger] pieces.drop_last()[i] == Some(
            bodies.drop_last()[i],
        ) by {
            assert(pieces[i] == Some(bodies[i]));
        }
        assert(pieces.last() == Some(bodies.last())) by {
            assert(pieces[bodies.len() - 1] == Some(bodies[bodies.len() - 1]));
        }
        lemma_joined_flatten(bodies.drop_last(), pieces.drop_last());
    }
}

/// Distinct indices below `n`, `n` of them, leave none out.
proof fn lemma_every_index(packets: Seq<RpcPacketView>, bodies: Seq<Seq<u8>>, pieces: Seq<Option<Seq<u8>>>)
    requires
        are_pieces_of(packets, bodies),
        filled(packets, pieces, packets.len() as int),
    ensures
        forall|i: int| 0 <= i < bodies.len() ==> #[trigger] pieces[i] == Some(bodies[i]),
{
    let n = packets.len();
    let indices = packets.map_values(|packet: RpcPacketView| packet.piece_idx as int);
    assert(indices.no_duplicates());
    indices.unique_seq_to_set();
    let range = vstd::set_lib::set_int_range(0, n as int);
    vstd::set_lib::lemma_int_range(0, n as int);
    assert(indices.to_set().subset_of(range));
    vstd::set_lib::lemma_subset_equality(indices.to_set(), range);
    assert forall|i: int| 0 <= i < bodies.len() implies #[trigger] pieces[i] == Some(bodies[i]) by {
        assert(range.contains(i));
        assert(indices.contains(i));
        let j = choose|j: int| 0 <= j < indices.len() && indices[j] == i;
        assert(packets[j].piece_idx == i);
    }
}

/// The pieces of a transaction, in whatever order they arrive, give back the
/// whole packet when the last one is there, and nothing before: the packet is the
/// first piece with the bodies of all pieces in the order of their indices.
pub proof fn law_pieces_reassemble(
    pending: Pending,
    network: Seq<char>,
    peer_id: u32,
    packets: Seq<RpcPacketView>,
    bodies: Seq<Seq<u8>>,
    times: Seq<u64>,
    first: int,
)
    requires
        are_pieces_of(packets, bodies),
        times.len() == packets.len(),
        in_time(times),
        0 <= first < packets.len(),
        packets[first].piece_idx == 0,
        !pending.contains_key(key_of(network, peer_id, packets[0])),
        has_room(
            pending,
            network,
            peer_id,
            packets.len(),
            packet_bytes(packets, packets.len() as int),
        ),
    ensures
        forall|i: int|
            0 <= i < packets.len() - 1 ==> #[trigger] output_at(pending, network, peer_id, packets, times, i) == Ok::<
                Option<RpcPacketView>,
                EdgeError,
            >(None),
        output_at(pending, network, peer_id, packets, times, packets.len() - 1) == Ok::<
            Option<RpcPacketView>,
            EdgeError,
        >(
            Some(
                RpcPacketView {
                    body: bodies.flatten(),
                    total_pieces: 1,
                    piece_idx: 0,
                    ..packets[first]
                },
            ),
        ),
        !after_packets(pending, network, peer_id, packets, times, packets.len()).contains_key(
            key_of(network, peer_id, packets[0]),
        ),
{
    assert forall|i: int| 0 <= i < packets.len() - 1 implies #[trigger] output_at(
        pending,
        network,
        peer_id,
        packets,
        times,
        i,
    ) == Ok::<Option<RpcPacketView>, EdgeError>(None) by {
        lemma_reassembly(pending, network, peer_id, packets, bodies, times, first, (i + 1) as nat);
    }
    lemma_reassembly(pending, network, peer_id, packets, bodies, times, first, packets.len());
    let last = choose|last: PendingView|
        filled(packets, last.pieces, packets.len() as int) && last.first == Some(packets[first]) && output_at(
            pending,
            network,
            peer_id,
            packets,
            times,
            packets.len() - 1,
        ) == Ok::<Option<RpcPacketView>, EdgeError>(Some(#[trigger] last.whole()));
    lemma_every_index(packets, bodies, last.pieces);
    lemma_joined_flatten(bodies, last.pieces);
    bodies.lemma_flatten_and_flatten_alt_are_equivalent();
}

/// A packet that arrives from a peer.
#[verifier::ext_equal]
pub struct Arrival {
    pub network: Seq<char>,
    pub peer_id: u32,
    pub packet: RpcPacketView,
    pub now_ms: u64,
}

impl Arrival {
    /// The transaction that the packet belongs to.
    pub open spec fn key(self) -> RpcKeyView {
        key_of(self.network, self.peer_id, self.packet)
    }
}

/// The buffer after the first `count` arrivals, from whatever peers.
pub open spec fn after_arrivals(pending: Pending, arrivals: Seq<Arrival>, count: nat) -> Pending
    decreases count,
{
    if count == 0 {
        pending
    } else {
        let arrival = arrivals[count - 1];
        merged(
            after_arrivals(pending, arrivals, (count - 1) as nat),
            arrival.network,
            arrival.peer_id,
            arrival.packet,
            arrival.now_ms,
        ).0
    }
}

/// What comes out at the arrival at `index`, after those before it.
pub open spec fn outcome_at(pending: Pending, arrivals: Seq<Arrival>, index: int) -> Result<
    Option<RpcPacketView>,
    EdgeError,
> {
    let arrival = arrivals[index];
    merged(
        after_arrivals(pending, arrivals, index as nat),
        arrival.network,
        arrival.peer_id,
        arrival.packet,
        arrival.now_ms,
    ).1
}

/// Every packet of a transaction is a piece of a message of `total` pieces. Pieces may be
/// repeated, with the same body or another.
pub open spec fn are_numbered(arrivals: Seq<Arrival>, key: RpcKeyView, total: nat) -> bool {
    &&& 2 <= total <= MAX_RPC_PIECES
    &&& forall|i: int|
        0 <= i < arrivals.len() && (#[trigger] arrivals[i]).key() == key ==> {
            let packet = arrivals[i].packet;
            &&& packet.total_pieces == total
            &&& packet.piece_idx < total
            &&& packet.piece_idx == 0 ==> packet.descriptor is Some
        }
}

/// The packet that brought the piece with index `piece` of a transaction last, among the
/// first `count` arrivals.
pub open spec fn latest(arrivals: Seq<Arrival>, key: RpcKeyView, count: nat, piece: int) -> Option<RpcPacketView>
    decreases count,
{
    if count == 0 {
        None
    } else if arrivals[count - 1].key() == key && arrivals[count - 1].packet.piece_idx == piece {
        Some(arrivals[count - 1].packet)
    } else {
        latest(arrivals, key, (count - 1) as nat, piece)
    }
}

/// The last body of each piece, as far as it is among the first `count` arrivals.
pub open spec fn latest_pieces(arrivals: Seq<Arrival>, key: RpcKeyView, total: nat, count: nat) -> Seq<
    Option<Seq<u8>>,
> {
    Seq::new(
        total,
        |i: int|
            match latest(arrivals, key, count, i) {
                Some(packet) => Some(packet.body),
                None => None,
            },
    )
}

/// The last body of each piece, once all are there.
pub open spec fn latest_bodies(arrivals: Seq<Arrival>, key: RpcKeyView, total: nat) -> Seq<Seq<u8>> {
    Seq::new(total, |i: int| latest(arrivals, key, arrivals.len(), i)->0.body)
}

/// When a piece of a transaction arrived last, among the first `count` arrivals.
pub open spec fn last_arrival(arrivals: Seq<Arrival>, key: RpcKeyView, count: nat) -> Option<u64>
    decreases count,
{
    if count == 0 {
        None
    } else if arrivals[count - 1].key() == key {
        Some(arrivals[count - 1].now_ms)
    } else {
        last_arrival(arrivals, key, (count - 1) as nat)
    }
}

/// The transaction is not stale when the packet at `index` arrives.
pub open spec fn is_fresh_at(arrivals: Seq<Arrival>, key: RpcKeyView, index: int) -> bool {
    last_arrival(arrivals, key, index as nat) matches Some(time) ==> arrivals[index].now_ms - time
        < RPC_FRAGMENT_TTL_MS
}

/// There is room for what has arrived of the message, beside what else is buffered, when
/// the packet at `index` arrives.
pub open spec fn has_room_at(
    pending: Pending,
    arrivals: Seq<Arrival>,
    key: RpcKeyView,
    total: nat,
    index: int,
) -> bool {
    has_room(
        after_arrivals(pending, arrivals, index as nat).remove(key),
        key.network,
        key.peer_id,
        total,
        buffered(latest_pieces(arrivals, key, total, (index + 1) as nat)),
    )
}

/// What is buffered of the message once `count` packets have arrived.
spec fn holds_part(now: Pending, arrivals: Seq<Arrival>, key: RpcKeyView, total: nat, count: nat) -> bool {
    match last_arrival(arrivals, key, count) {
        None => !now.contains_key(key),
        Some(time) => {
            &&& now.contains_key(key)
            &&& now[key] == PendingView {
                pieces: latest_pieces(arrivals, key, total, count),
                first: latest(arrivals, key, count, 0),
                updated_at_ms: time,
            }
        },
    }
}

proof fn lemma_none_arrived(arrivals: Seq<Arrival>, key: RpcKeyView, count: nat)
    requires
        last_arrival(arrivals, key, count) is None,
    ensures
        forall|piece: int| #[trigger] latest(arrivals, key, count, piece) is None,
    decreases count,
{
    if count > 0 {
        lemma_none_arrived(arrivals, key, (count - 1) as nat);
        assert forall|piece: int| #[trigger] latest(arrivals, key, count, piece) is None by {
            assert(latest(arrivals, key, (count - 1) as nat, piece) is None);
        }
    }
}

/// A piece that is missing was missing before.
proof fn lemma_still_missing(arrivals: Seq<Arrival>, key: RpcKeyView, piece: int, earlier: nat, later: nat)
    requires
        earlier <= later,
        latest(arrivals, key, later, piece) is None,
    ensures
        latest(arrivals, key, earlier, piece) is None,
    decreases later,
{
    if earlier < later {
        lemma_still_missing(arrivals, key, piece, earlier, (later - 1) as nat);
    }
}

/// The arrival at `index`, of a packet of the transaction, when `holds_part` holds before
/// it: nothing is refused, and the message comes out once every piece is there.
proof fn lemma_arrival_is_taken(
    pending: Pending,
    arrivals: Seq<Arrival>,
    key: RpcKeyView,
    total: nat,
    index: int,
)
    requires
        are_numbered(arrivals, key, total),
        0 <= index < arrivals.len(),
        arrivals[index].key() == key,
        is_fresh_at(arrivals, key, index),
        has_room_at(pending, arrivals, key, total, index),
        holds_part(after_arrivals(pending, arrivals, index as nat), arrivals, key, total, index as nat),
    ensures
        ({
            let now = after_arrivals(pending, arrivals, (index + 1) as nat);
            let pieces = latest_pieces(arrivals, key, total, (index + 1) as nat);
            let first = latest(arrivals, key, (index + 1) as nat, 0);
            &&& !all_there(pieces) ==> outcome_at(pending, arrivals, index) == Ok::<Option<RpcPacketView>, EdgeError>(
                None,
            ) && holds_part(now, arrivals, key, total, (index + 1) as nat)
            &&& all_there(pieces) ==> outcome_at(pending, arrivals, index) == Ok::<Option<RpcPacketView>, EdgeError>(
                Some(RpcPacketView { body: joined(pieces), total_pieces: 1, piece_idx: 0, ..first->0 }),
            ) && !now.contains_key(key)
        }),
{
    let earlier = after_arrivals(pending, arrivals, index as nat);
    let arrival = arrivals[index];
    let packet = arrival.packet;
    let clean = collections::kept(earlier, fresh(arrival.now_ms));
    let before = if clean.contains_key(key) {
        clean[key]
    } else {
        PendingView::announced(packet.total_pieces, arrival.now_ms)
    };
    let after = before.with_piece(packet, arrival.now_ms);
    if last_arrival(arrivals, key, index as nat) is None {
        lemma_none_arrived(arrivals, key, index as nat);
        assert(earlier.remove(key) =~= earlier);
        assert(before.pieces =~= latest_pieces(arrivals, key, total, index as nat));
        assert(latest(arrivals, key, index as nat, 0) is None);
    }
    assert(before.pieces == latest_pieces(arrivals, key, total, index as nat));
    assert(before.first == latest(arrivals, key, index as nat, 0));
    assert(after.pieces =~= latest_pieces(arrivals, key, total, (index + 1) as nat));
    assert(after.first == latest(arrivals, key, (index + 1) as nat, 0));
    assert(earlier.dom().subset_of(earlier.remove(key).dom().insert(key)));
    vstd::set_lib::lemma_set_subset_finite(earlier.remove(key).dom().insert(key), earlier.dom());
    assert(clean.remove(key) =~= collections::kept(earlier.remove(key), fresh(arrival.now_ms)));
    totals::lemma_total_kept(earlier.remove(key), bytes_of(), fresh(arrival.now_ms));
    totals::lemma_total_kept(earlier.remove(key), pieces_of(), fresh(arrival.now_ms));
    totals::lemma_total_kept(earlier, bytes_of(), fresh(arrival.now_ms));
    totals::lemma_total_insert(clean, bytes_of(), key, after);
    if !clean.contains_key(key) {
        assert(clean.remove(key) =~= clean);
        let p = of_peer(key.network, key.peer_id);
        earlier.dom().lemma_len_filter(p);
        vstd::set_lib::lemma_len_subset(clean.dom().filter(p), earlier.dom().filter(p));
    }
}

proof fn lemma_part_is_held(
    pending: Pending,
    arrivals: Seq<Arrival>,
    key: RpcKeyView,
    total: nat,
    missing: int,
    count: nat,
)
    requires
        are_numbered(arrivals, key, total),
        !pending.contains_key(key),
        count <= arrivals.len(),
        forall|i: int| 0 <= i < arrivals.len() ==> #[trigger] is_fresh_at(arrivals, key, i),
        forall|i: int|
            0 <= i < arrivals.len() && (#[trigger] arrivals[i]).key() == key ==> has_room_at(
                pending,
                arrivals,
                key,
                total,
                i,
            ),
        0 <= missing < total,
        latest(arrivals, key, count, missing) is None,
    ensures
        holds_part(after_arrivals(pending, arrivals, count), arrivals, key, total, count),
    decreases count,
{
    if count > 0 {
        let index = count - 1;
        let arrival = arrivals[index];
        lemma_still_missing(arrivals, key, missing, index as nat, count);
        lemma_part_is_held(pending, arrivals, key, total, missing, index as nat);
        assert(is_fresh_at(arrivals, key, index));
        if arrival.key() == key {
            assert(latest_pieces(arrivals, key, total, count)[missing] is None);
            lemma_arrival_is_taken(pending, arrivals, key, total, index);
        } else {
            let earlier = after_arrivals(pending, arrivals, index as nat);
            let now = after_arrivals(pending, arrivals, count);
            assert(now.contains_key(key) <==> earlier.contains_key(key));
            assert(latest_pieces(arrivals, key, total, count) =~= latest_pieces(arrivals, key, total, index as nat));
            assert(latest(arrivals, key, count, 0) == latest(arrivals, key, index as nat, 0));
        }
    }
}

/// The pieces of a message give back the whole message when the last one is there, and
/// nothing before, in whatever order they arrive, however often they are repeated, and
/// whatever other packets arrive in between, from this peer or others. Of a piece that is
/// repeated, the last body counts. The transaction must not become stale, and there must
/// be room for it.
pub proof fn law_message_survives_other_traffic(
    pending: Pending,
    arrivals: Seq<Arrival>,
    key: RpcKeyView,
    total: nat,
)
    requires
        are_numbered(arrivals, key, total),
        !pending.contains_key(key),
        forall|i: int| 0 <= i < arrivals.len() ==> #[trigger] is_fresh_at(arrivals, key, i),
        forall|i: int|
            0 <= i < arrivals.len() && (#[trigger] arrivals[i]).key() == key ==> has_room_at(
                pending,
                arrivals,
                key,
                total,
                i,
            ),
        forall|i: int| 0 <= i < total ==> #[trigger] latest(arrivals, key, arrivals.len(), i) is Some,
        arrivals.len() > 0,
        arrivals.last().key() == key,
        latest(arrivals, key, (arrivals.len() - 1) as nat, arrivals.last().packet.piece_idx as int) is None,
    ensures
        forall|i: int|
            0 <= i < arrivals.len() - 1 && (#[trigger] arrivals[i]).key() == key ==> outcome_at(pending, arrivals, i)
                == Ok::<Option<RpcPacketView>, EdgeError>(None),
        outcome_at(pending, arrivals, arrivals.len() - 1) == Ok::<Option<RpcPacketView>, EdgeError>(
            Some(
                RpcPacketView {
                    body: latest_bodies(arrivals, key, total).flatten(),
                    total_pieces: 1,
                    piece_idx: 0,
                    ..latest(arrivals, key, arrivals.len(), 0)->0
                },
            ),
        ),
        !after_arrivals(pending, arrivals, arrivals.len()).contains_key(key),
{
    let last = arrivals.len() - 1;
    let missing = arrivals.last().packet.piece_idx as int;
    assert(arrivals[last].key() == key);
    assert forall|i: int| 0 <= i < last && (#[trigger] arrivals[i]).key() == key implies outcome_at(pending, arrivals, i)
        == Ok::<Option<RpcPacketView>, EdgeError>(None) by {
        lemma_still_missing(arrivals, key, missing, i as nat, last as nat);
        lemma_still_missing(arrivals, key, missing, (i + 1) as nat, last as nat);
        lemma_part_is_held(pending, arrivals, key, total, missing, i as nat);
        assert(is_fresh_at(arrivals, key, i));
        assert(latest_pieces(arrivals, key, total, (i + 1) as nat)[missing] is None);
        lemma_arrival_is_taken(pending, arrivals, key, total, i);
    }
    lemma_part_is_held(pending, arrivals, key, total, missing, last as nat);
    assert(is_fresh_at(arrivals, key, last));
    lemma_arrival_is_taken(pending, arrivals, key, total, last);
    let pieces = latest_pieces(arrivals, key, total, arrivals.len());
    let bodies = latest_bodies(arrivals, key, total);
    assert forall|i: int| 0 <= i < bodies.len() implies #[trigger] pieces[i] == Some(bodies[i]) by {
        assert(latest(arrivals, key, arrivals.len(), i) is Some);
    }
    assert(all_there(pieces));
    lemma_joined_flatten(bodies, pieces);
    bodies.lemma_flatten_and_flatten_alt_are_equivalent();
}

struct Buffers {
    pending: VecMap<RpcKey, PendingRpc>,
    bytes: usize,
    pieces: usize,
}

impl Buffers {
    spec fn well_formed(self) -> bool {
        &&& bounded(self.pending@)
        &&& self.bytes == totals::total(self.pending@, bytes_of())
        &&& self.pieces == totals::total(self.pending@, pieces_of())
    }

    fn new() -> (r: Self)
        ensures
            r.well_formed(),
            r.pending@ == Map::<RpcKeyView, PendingView>::empty(),
    {
        let r = Buffers { pending: VecMap::new(), bytes: 0, pieces: 0 };
        proof {
            let m = r.pending@;
            assert(m.dom() =~= Set::empty());
            assert forall|network: Seq<char>, peer_id: u32| #[trigger]
                peer_transactions(m, network, peer_id) <= MAX_PENDING_TRANSACTIONS_PER_PEER by {
                assert(m.dom().filter(of_peer(network, peer_id)) =~= Set::empty());
            }
        }
        r
    }

    fn remove_pending(&mut self, i: usize)
        requires
            old(self).well_formed(),
            i < old(self).pending.listing().len(),
        ensures
            final(self).well_formed(),
            final(self).pending.listing() == old(self).pending.listing().remove(i as int),
            final(self).pending@ == old(self).pending@.remove(old(self).pending.listing()[i as int].0),
    {
        let ghost before = self.pending@;
        let ghost key = self.pending.listing()[i as int].0;
        let entry = self.pending.value_at(i);
        let size: usize = entry.size();
        let count: u32 = entry.count();
        proof {
            totals::lemma_total_split(before, bytes_of(), key);
            totals::lemma_total_split(before, pieces_of(), key);
            lemma_bounded_remove(before, key);
        }
        self.pending.remove_at(i);
        self.bytes = self.bytes - size;
        self.pieces = self.pieces - count as usize;
    }

    fn clean_pending(&mut self, now_ms: u64)
        requires
            old(self).well_formed(),
        ensures
            final(self).well_formed(),
            final(self).pending@ == collections::kept(old(self).pending@, fresh(now_ms)),
    {
        let ghost before = self.pending@;
        let ghost p = fresh(now_ms);
        let mut i: usize = 0;
        while i < self.pending.len()
            invariant
                self.well_formed(),
                i <= self.pending.listing().len(),
                p == fresh(now_ms),
                forall|j: int|
                    0 <= j < i ==> p((#[trigger] self.pending.listing()[j]).0, self.pending.listing()[j].1),
                forall|key: RpcKeyView| #[trigger]
                    self.pending@.contains_key(key) ==> before.contains_key(key) && self.pending@[key] == before[key],
                forall|key: RpcKeyView| #[trigger]
                    before.contains_key(key) && p(key, before[key]) ==> self.pending@.contains_key(key),
            decreases self.pending.listing().len() - i,
        {
            let stale = now_ms.saturating_sub(self.pending.value_at(i).updated_at_ms) >= RPC_FRAGMENT_TTL_MS;
            if stale {
                self.remove_pending(i);
            } else {
                i += 1;
            }
        }
        proof {
            assert forall|key: RpcKeyView| #[trigger] self.pending@.contains_key(key) implies p(
                key,
                self.pending@[key],
            ) by {
                let j = collections::lemma_listed_find(self.pending.listing(), key);
            }
            assert(self.pending@ =~= collections::kept(before, p));
        }
    }

    fn remove_peer(&mut self, network: &str, peer_id: u32)
        requires
            old(self).well_formed(),
        ensures
            final(self).well_formed(),
            final(self).pending@ == collections::kept(
                old(self).pending@,
                |key: RpcKeyView, value: PendingView| !of_peer(network@, peer_id)(key),
            ),
    {
        let ghost before = self.pending@;
        let ghost p = |key: RpcKeyView, value: PendingView| !of_peer(network@, peer_id)(key);
        let mut i: usize = 0;
        while i < self.pending.len()
            invariant
                self.well_formed(),
                i <= self.pending.listing().len(),
                p == (|key: RpcKeyView, value: PendingView| !of_peer(network@, peer_id)(key)),
                forall|j: int|
                    0 <= j < i ==> p((#[trigger] self.pending.listing()[j]).0, self.pending.listing()[j].1),
                forall|key: RpcKeyView| #[trigger]
                    self.pending@.contains_key(key) ==> before.contains_key(key) && self.pending@[key] == before[key],
                forall|key: RpcKeyView| #[trigger]
                    before.contains_key(key) && p(key, before[key]) ==> self.pending@.contains_key(key),
            decreases self.pending.listing().len() - i,
        {
            let key = self.pending.key_at(i);
            let gone = key.peer_id == peer_id && text::same_text(key.network.as_str(), network);
            if gone {
                self.remove_pending(i);
            } else {
                i += 1;
            }
        }
        proof {
            assert forall|key: RpcKeyView| #[trigger] self.pending@.contains_key(key) implies p(
                key,
                self.pending@[key],
            ) by {
                let j = collections::lemma_listed_find(self.pending.listing(), key);
            }
            assert(self.pending@ =~= collections::kept(before, p));
        }
    }

    fn count_peer(&self, network: &str, peer_id: u32) -> (r: usize)
        ensures
            r == peer_transactions(self.pending@, network@, peer_id),
    {
        let ghost p = of_peer(network@, peer_id);
        let ghost f = totals::counting::<RpcKeyView, PendingView>(p);
        let ghost s = self.pending.listing();
        let n: usize = self.pending.len();
        let mut count: usize = 0;
        let mut i: usize = 0;
        while i < n
            invariant
                i <= n,
                n == s.len(),
                s == self.pending.listing(),
                count <= i,
                p == of_peer(network@, peer_id),
                f == totals::counting::<RpcKeyView, PendingView>(p),
                count == totals::list_total(s.take(i as int), f),
            decreases n - i,
        {
            let key = self.pending.key_at(i);
            assert(s.take(i + 1).drop_last() =~= s.take(i as int));
            if key.peer_id == peer_id && text::same_text(key.network.as_str(), network) {
                count += 1;
            }
            i += 1;
        }
        proof {
            assert(s.take(n as int) =~= s);
            collections::lemma_listed_finite(s);
            totals::lemma_list_total(s, f);
            totals::lemma_total_counts(self.pending@, p);
        }
        count
    }

    fn merge_piece(&mut self, network: &str, peer_id: u32, packet: RpcPacket, now_ms: u64) -> (r: Result<
        MergedPacket,
        EdgeError,
    >)
        requires
            old(self).well_formed(),
            !is_whole(packet@),
            !is_misnumbered(packet@),
        ensures
            final(self).well_formed(),
            (final(self).pending@, merge_result(r)) == merged_piece(
                old(self).pending@,
                network@,
                peer_id,
                packet@,
                now_ms,
            ),
    {
        let key = rpc_key(network, peer_id, packet.transaction_id, packet.is_request);
        let ghost before = self.pending@;
        let ghost k = key_of(network@, peer_id, packet@);
        let ghost view = packet@;
        let at: usize = match self.pending.find(&key) {
            Some(i) => {
                if self.pending.value_at(i).count() != packet.total_pieces {
                    self.remove_pending(i);
                    return Err(EdgeError::PieceCountChanged);
                }
                i
            },
            None => {
                if self.count_peer(network, peer_id) >= MAX_PENDING_TRANSACTIONS_PER_PEER {
                    return Err(EdgeError::TooManyPendingTransactions);
                }
                if self.pieces + packet.total_pieces as usize > MAX_PENDING_PIECES {
                    return Err(EdgeError::PendingPieceLimit);
                }
                let i: usize = self.pending.len();
                let announced = PendingRpc::new(packet.total_pieces, now_ms);
                proof {
                    lemma_received_none(packet.total_pieces as nat);
                    totals::lemma_total_insert(before, bytes_of(), k, announced@);
                    totals::lemma_total_insert(before, pieces_of(), k, announced@);
                    assert(before.remove(k) =~= before);
                    lemma_bounded_insert(before, k, announced@);
                }
                self.pieces = self.pieces + packet.total_pieces as usize;
                self.pending.append(key, announced);
                i
            },
        };
        let ghost middle = self.pending@;
        let ghost entry = middle[k];
        let ghost after = entry.with_piece(view, now_ms);
        let index: usize = packet.piece_idx as usize;
        let previous_bytes: usize = self.pending.value_at(at).piece_len(index);
        proof {
            lemma_received_update(entry.pieces, index as int, view.body);
            totals::lemma_total_insert(middle, bytes_of(), k, after);
            totals::lemma_total_insert(middle, pieces_of(), k, after);
            assert(middle.insert(k, after) =~= before.insert(k, after));
            assert(middle.remove(k) =~= before.remove(k));
        }
        let next_total_bytes: usize = (self.bytes - previous_bytes).saturating_add(packet.body.len());
        if next_total_bytes > MAX_PENDING_BYTES {
            self.remove_pending(at);
            return Err(EdgeError::PendingByteLimit);
        }
        proof {
            lemma_bounded_insert(middle, k, after);
        }
        let slot = self.pending.value_at_mut(at);
        slot.put(packet, now_ms);
        self.bytes = next_total_bytes;
        if !self.pending.value_at(at).is_complete() {
            return Ok(MergedPacket::Pending);
        }
        proof {
            let now = self.pending@;
            totals::lemma_total_split(now, bytes_of(), k);
            totals::lemma_total_split(now, pieces_of(), k);
            lemma_bounded_remove(now, k);
            assert(now.remove(k) =~= before.remove(k));
        }
        let entry_size: usize = self.pending.value_at(at).size();
        let entry_count: u32 = self.pending.value_at(at).count();
        let (_, completed) = self.pending.remove_at(at);
        self.bytes = self.bytes - entry_size;
        self.pieces = self.pieces - entry_count as usize;
        Ok(MergedPacket::Complete(completed.finish()))
    }
}

/// The pieces of transactions that are not whole yet.
pub struct PendingRpcs {
    buffers: Buffers,
}

impl View for PendingRpcs {
    type V = Pending;

    closed spec fn view(&self) -> Pending {
        self.buffers.pending@
    }
}

impl PendingRpcs {
    #[verifier::type_invariant]
    pub closed spec fn well_formed(self) -> bool {
        self.buffers.well_formed() && is_sound(self.buffers.pending@)
    }

    /// Nothing but parts of transactions is buffered, within the limits.
    pub proof fn lemma_sound(self)
        requires
            self.well_formed(),
        ensures
            is_sound(self@),
    {
    }

    pub fn new() -> (r: Self)
        ensures
            r@ == Map::<RpcKeyView, PendingView>::empty(),
            is_sound(r@),
    {
        PendingRpcs { buffers: Buffers::new() }
    }

    /// The number of buffered bytes.
    pub fn pending_bytes(&self) -> (r: usize)
        ensures
            r == totals::total(self@, bytes_of()),
            is_sound(self@),
    {
        proof {
            use_type_invariant(self);
        }
        self.buffers.bytes
    }

    /// The number of declared pieces.
    pub fn pending_pieces(&self) -> (r: usize)
        ensures
            r == totals::total(self@, pieces_of()),
            is_sound(self@),
    {
        proof {
            use_type_invariant(self);
        }
        self.buffers.pieces
    }

    /// Takes in a packet: gives back a whole one, or buffers a piece.
    pub fn merge_packet(&mut self, network: &str, peer_id: u32, packet: RpcPacket, now_ms: u64) -> (r: Result<
        MergedPacket,
        EdgeError,
    >)
        ensures
            (final(self)@, merge_result(r)) == merged(old(self)@, network@, peer_id, packet@, now_ms),
            is_sound(final(self)@),
            r matches Ok(MergedPacket::Complete(whole)) ==> key_of(network@, peer_id, whole@) == key_of(
                network@,
                peer_id,
                packet@,
            ),
    {
        proof {
            use_type_invariant(&*self);
            law_merge_stays_sound(self@, network@, peer_id, packet@, now_ms);
        }
        let total_pieces: u32 = packet.total_pieces;
        if total_pieces == 0 && packet.piece_idx == 0 {
            return Ok(MergedPacket::Complete(packet));
        }
        if total_pieces == 0 || total_pieces > MAX_RPC_PIECES || packet.piece_idx >= total_pieces {
            return Err(EdgeError::InvalidFragment);
        }
        if total_pieces == 1 {
            return Ok(MergedPacket::Complete(packet));
        }
        if packet.piece_idx == 0 && packet.descriptor.is_none() {
            return Err(EdgeError::MissingFirstDescriptor);
        }
        let mut buffers = Buffers::new();
        std::mem::swap(&mut self.buffers, &mut buffers);
        buffers.clean_pending(now_ms);
        let r = buffers.merge_piece(network, peer_id, packet, now_ms);
        self.buffers = buffers;
        r
    }

    /// Drops the transactions that were not touched lately.
    pub fn clean_pending(&mut self, now_ms: u64)
        ensures
            final(self)@ == collections::kept(old(self)@, fresh(now_ms)),
            is_sound(final(self)@),
    {
        proof {
            use_type_invariant(&*self);
        }
        let mut buffers = Buffers::new();
        std::mem::swap(&mut self.buffers, &mut buffers);
        buffers.clean_pending(now_ms);
        self.buffers = buffers;
    }

    /// Drops the transactions of a peer.
    pub fn remove_peer(&mut self, network: &str, peer_id: u32)
        ensures
            final(self)@ == collections::kept(
                old(self)@,
                |key: RpcKeyView, value: PendingView| !of_peer(network@, peer_id)(key),
            ),
            is_sound(final(self)@),
    {
        proof {
            use_type_invariant(&*self);
        }
        let mut buffers = Buffers::new();
        std::mem::swap(&mut self.buffers, &mut buffers);
        buffers.remove_peer(network, peer_id);
        self.buffers = buffers;
    }
}

} // verus!
