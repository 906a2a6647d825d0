use vstd::prelude::*;
use crate::download::ledger::{is_order, saved_among, Ledger, LedgerView, PieceState};
use crate::random::{random_u32, shuffle};

pub mod ledger;
pub mod worker;

verus! {

/// Where the download stands: the pieces of the torrent and how many of
/// them have been saved.
#[derive(Clone, Copy, Debug, PartialEq, Eq, Structural)]
pub struct DownloadStatus {
    pub total_pieces: u32,
    pub pieces_downloaded: u32,
}

/// What a round of workers has come to.
#[derive(Clone, Copy, Debug, PartialEq, Eq, Structural)]
pub enum RoundOutcome {
    /// Every piece is saved: the files can be assembled.
    Finished,
    /// No piece was saved in this round: there are no peers to get any from.
    NoProgress,
    /// Some pieces were saved and others wait: ask the trackers again.
    Continue,
}

/// The indices below `n`, in order.
pub open spec fn indices(n: nat) -> Seq<usize> {
    Seq::new(n, |i: int| i as usize)
}

/// What a round has come to, from the length of the queue after it, the
/// count of saved pieces before it and that count after it.
pub open spec fn outcome_of(queue_len: nat, baseline: nat, pieces_downloaded: nat) -> RoundOutcome {
    if queue_len == 0 {
        RoundOutcome::Finished
    } else if pieces_downloaded == baseline {
        RoundOutcome::NoProgress
    } else {
        RoundOutcome::Continue
    }
}

/// The share of the pieces that is saved, in percent, rounded down.
pub open spec fn percent(status: DownloadStatus) -> nat {
    if status.total_pieces == 0 {
        100
    } else {
        (100 * status.pieces_downloaded / (status.total_pieces as int)) as nat
    }
}

/// A sequence that holds the indices below its length, each as often as
/// `indices` does, is an order.
pub proof fn lemma_permutation_is_order(q: Seq<usize>, n: nat)
    requires
        n <= u32::MAX,
        q.to_multiset() == indices(n).to_multiset(),
    ensures
        q.len() == n,
        is_order(q),
{
    broadcast use vstd::seq_lib::to_multiset_contains, vstd::seq_lib::to_multiset_len;

    let base = indices(n);
    assert(q.to_multiset().len() == q.len());
    assert(base.to_multiset().len() == base.len());
    assert(base.no_duplicates());
    base.lemma_multiset_has_no_duplicates();
    q.lemma_multiset_has_no_duplicates_conv();
    assert forall|k: int| 0 <= k < q.len() implies #[trigger] q[k] < q.len() by {
        assert(q.contains(q[k]));
        assert(q.to_multiset().count(q[k]) > 0);
        assert(base.contains(q[k]));
    }
    assert forall|i: usize| i < q.len() implies #[trigger] q.contains(i) by {
        assert(base[i as int] == i);
        assert(base.contains(i));
        assert(base.to_multiset().count(i) > 0);
    }
}

/// Twenty random bytes to go by among the peers.
pub fn generate_peer_id() -> (peer_id: Vec<u8>)
    ensures
        peer_id@.len() == 20,
{
    let mut peer_id: Vec<u8> = Vec::new();
    let mut i: usize = 0;
    while i < 20
        invariant
            i <= 20,
            peer_id@.len() == i,
        decreases 20 - i,
    {
        peer_id.push((random_u32() % 256) as u8);
        i += 1;
    }
    peer_id
}

/// The indices of `pieces` pieces in a random order.
pub fn piece_order(pieces: usize) -> (order: Vec<usize>)
    ensures
        order@.len() == pieces,
        order@.to_multiset() == indices(pieces as nat).to_multiset(),
        pieces <= u32::MAX ==> is_order(order@),
{
    let mut order: Vec<usize> = Vec::new();
    let mut i: usize = 0;
    while i < pieces
        invariant
            i <= pieces,
            order@ == indices(i as nat),
        decreases pieces - i,
    {
        order.push(i);
        i += 1;
        assert(order@ =~= indices(i as nat));
    }
    shuffle(&mut order);
    proof {
        broadcast use vstd::seq_lib::to_multiset_len;

        assert(order@.to_multiset().len() == order@.len());
        assert(indices(pieces as nat).to_multiset().len() == indices(pieces as nat).len());
        if pieces <= u32::MAX {
            lemma_permutation_is_order(order@, pieces as nat);
        }
    }
    order
}

/// The ledger at the start of a download of `pieces` pieces: all of them
/// wait, in a random order. There is none for more pieces than 32 bits count.
pub fn start_ledger(pieces: usize) -> (r: Option<Ledger>)
    ensures
        r is Some <==> pieces <= u32::MAX,
        r matches Some(l) ==> {
            &&& l@.well_formed()
            &&& l@.total() == pieces
            &&& l@.pieces_downloaded == 0
            &&& l@.queue.to_multiset() == indices(pieces as nat).to_multiset()
            &&& l@ == LedgerView::start(l@.queue)
        },
{
    if pieces > u32::MAX as usize {
        return None;
    }
    let order = piece_order(pieces);
    Ledger::new(&order)
}

/// Where the download stands.
pub fn status(ledger: &Ledger) -> (s: DownloadStatus)
    requires
        ledger@.well_formed(),
    ensures
        s.total_pieces == ledger@.total(),
        s.pieces_downloaded == ledger@.pieces_downloaded,
{
    DownloadStatus { total_pieces: ledger.total_pieces() as u32, pieces_downloaded: ledger.pieces_downloaded() }
}

/// The share of the pieces that is saved, in percent.
pub fn progress_percent(status: DownloadStatus) -> (p: u64)
    ensures
        p == percent(status),
{
    if status.total_pieces == 0 {
        100
    } else {
        100 * (status.pieces_downloaded as u64) / (status.total_pieces as u64)
    }
}

/// Judges a round once all its workers are done: `baseline` is the count of
/// saved pieces from before the round.
pub fn round_outcome(ledger: &Ledger, baseline: u32) -> (outcome: RoundOutcome)
    ensures
        outcome == outcome_of(ledger@.queue.len(), baseline as nat, ledger@.pieces_downloaded),
{
    if ledger.queue_len() == 0 {
        RoundOutcome::Finished
    } else if ledger.pieces_downloaded() == baseline {
        RoundOutcome::NoProgress
    } else {
        RoundOutcome::Continue
    }
}

/// Whether the index `i` waits in the queue, at exactly one place of it.
pub open spec fn in_queue_once(l: LedgerView, i: usize) -> bool {
    &&& l.queue.contains(i)
    &&& forall|a: int, b: int|
        0 <= a < l.queue.len() && 0 <= b < l.queue.len() && l.queue[a] == i && l.queue[b] == i ==> a == b
}

/// Every index is in exactly one place: in the queue, and there once; in
/// the hand of a worker; or saved. Never in none of them, never in two.
pub proof fn lemma_every_index_in_one_place(l: LedgerView, i: usize)
    requires
        l.well_formed(),
        i < l.total(),
    ensures
        l.states[i as int] == PieceState::Queued <==> in_queue_once(l, i),
        l.states[i as int] == PieceState::Queued <==> l.queue.contains(i),
        l.states[i as int] == PieceState::Held <==> l.holds(i),
        l.states[i as int] == PieceState::Queued || l.states[i as int] == PieceState::Held || l.states[i as int]
            == PieceState::Saved,
{
    assert(l.states[i as int] == PieceState::Queued <==> l.queue.contains(i));
}

/// The moves of the ledger keep every index in one place, and none of them
/// lowers the count of saved pieces.
pub proof fn lemma_moves_keep_the_ledger(l: LedgerView, index: usize)
    requires
        l.well_formed(),
    ensures
        l.queue.len() > 0 ==> l.claimed().well_formed() && l.claimed().pieces_downloaded == l.pieces_downloaded,
        l.holds(index) ==> l.given_back(index).well_formed() && l.given_back(index).pieces_downloaded
            == l.pieces_downloaded,
        l.holds(index) ==> l.completed(index).well_formed() && l.completed(index).pieces_downloaded
            == l.pieces_downloaded + 1,
{
    if l.queue.len() > 0 {
        let first = l.queue[0];
        let after = l.claimed();
        crate::download::ledger::lemma_saved_among_update(l.states, l.states.len(), first as int, PieceState::Held);
        assert(l.queue.contains(first));
        assert forall|i: usize| i < after.states.len() implies (after.states[i as int] == PieceState::Queued
            <==> #[trigger] after.queue.contains(i)) by {
            if after.queue.contains(i) {
                let j = choose|j: int| 0 <= j < after.queue.len() && after.queue[j] == i;
                assert(l.queue[j + 1] == i);
                assert(l.queue.contains(i));
            }
            if i != first && l.queue.contains(i) {
                let j = choose|j: int| 0 <= j < l.queue.len() && l.queue[j] == i;
                assert(after.queue[j - 1] == i);
            }
        }
        assert forall|k: int| 0 <= k < after.queue.len() implies #[trigger] after.queue[k] < after.states.len() by {
            assert(after.queue[k] == l.queue[k + 1]);
        }
        assert forall|a: int, b: int|
            0 <= a < after.queue.len() && 0 <= b < after.queue.len() && a != b implies after.queue[a]
            != after.queue[b] by {
            assert(after.queue[a] == l.queue[a + 1]);
            assert(after.queue[b] == l.queue[b + 1]);
        }
    }
    if l.holds(index) {
        let after = l.given_back(index);
        crate::download::ledger::lemma_saved_among_update(l.states, l.states.len(), index as int, PieceState::Queued);
        assert(!l.queue.contains(index));
        assert(after.queue[after.queue.len() - 1] == index);
        assert forall|i: usize| i < after.states.len() implies (after.states[i as int] == PieceState::Queued
            <==> #[trigger] after.queue.contains(i)) by {
            if i != index && after.queue.contains(i) {
                let j = choose|j: int| 0 <= j < after.queue.len() && after.queue[j] == i;
                assert(l.queue[j] == i);
                assert(l.queue.contains(i));
            }
            if i != index && l.queue.contains(i) {
                let j = choose|j: int| 0 <= j < l.queue.len() && l.queue[j] == i;
                assert(after.queue[j] == i);
            }
        }
        assert forall|a: int, b: int|
            0 <= a < after.queue.len() && 0 <= b < after.queue.len() && a != b implies after.queue[a]
            != after.queue[b] by {
            if a < l.queue.len() {
                assert(l.queue.contains(l.queue[a]));
            }
            if b < l.queue.len() {
                assert(l.queue.contains(l.queue[b]));
            }
        }
        let done = l.completed(index);
        crate::download::ledger::lemma_saved_among_update(l.states, l.states.len(), index as int, PieceState::Saved);
        assert forall|i: usize| i < done.states.len() implies (done.states[i as int] == PieceState::Queued
            <==> #[trigger] done.queue.contains(i)) by {
        }
    }
}

/// Once the queue is empty and no worker has a piece in hand, every piece
/// is saved and counted.
pub proof fn lemma_nothing_left_means_all_saved(l: LedgerView)
    requires
        l.well_formed(),
        l.queue.len() == 0,
        forall|i: usize| !l.holds(i),
    ensures
        l.pieces_downloaded == l.total(),
        forall|i: int| 0 <= i < l.total() ==> l.states[i] == PieceState::Saved,
{
    assert forall|i: int| 0 <= i < l.total() implies l.states[i] == PieceState::Saved by {
        let u = i as usize;
        assert(!l.holds(u));
        assert(!l.queue.contains(u));
    }
    lemma_all_saved(l.states, l.states.len());
}

/// Where every piece is saved, the count is their number.
pub proof fn lemma_all_saved(states: Seq<PieceState>, n: nat)
    requires
        n <= states.len(),
        forall|i: int| 0 <= i < states.len() ==> states[i] == PieceState::Saved,
    ensures
        saved_among(states, n) == n,
    decreases n,
{
    if n > 0 {
        lemma_all_saved(states, (n - 1) as nat);
    }
}

} // verus!
