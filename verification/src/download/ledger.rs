use vstd::prelude::*;
use std::collections::VecDeque;

verus! {

/// Where a piece is.
#[derive(Clone, Copy, Debug, PartialEq, Eq, Structural)]
pub enum PieceState {
    /// In the queue, waiting for a worker.
    Queued,
    /// In the hand of a worker.
    Held,
    /// Verified and persisted.
    Saved,
}

/// The ledger as mathematics sees it.
pub struct LedgerView {
    /// The indices that wait, the next to be claimed first.
    pub queue: Seq<usize>,
    /// The state of each piece, by index.
    pub states: Seq<PieceState>,
    /// The pieces that have been saved, counted.
    pub pieces_downloaded: nat,
}

/// How many of the first `n` pieces are saved.
pub open spec fn saved_among(states: Seq<PieceState>, n: nat) -> nat
    decreases n,
{
    if n == 0 || n > states.len() {
        0
    } else {
        saved_among(states, (n - 1) as nat) + if states[n - 1] == PieceState::Saved {
            1nat
        } else {
            0nat
        }
    }
}

/// An order in which to hand out the pieces: every index below the length
/// occurs in it, and none twice.
pub open spec fn is_order(q: Seq<usize>) -> bool {
    &&& q.len() <= u32::MAX
    &&& q.no_duplicates()
    &&& forall|k: int| 0 <= k < q.len() ==> #[trigger] q[k] < q.len()
    &&& forall|i: usize| i < q.len() ==> #[trigger] q.contains(i)
}

impl LedgerView {
    /// The number of pieces.
    pub open spec fn total(self) -> nat {
        self.states.len()
    }

    /// Every piece is in exactly one place: the queue holds no index twice
    /// and holds exactly the pieces that are `Queued`; every other piece is
    /// either `Held` or `Saved`. The counter is the number of saved pieces.
    pub open spec fn well_formed(self) -> bool {
        &&& self.states.len() <= u32::MAX
        &&& self.queue.no_duplicates()
        &&& forall|k: int| 0 <= k < self.queue.len() ==> #[trigger] self.queue[k] < self.states.len()
        &&& forall|i: usize|
            i < self.states.len() ==> (self.states[i as int] == PieceState::Queued <==> #[trigger] self.queue.contains(i))
        &&& self.pieces_downloaded == saved_among(self.states, self.states.len())
    }

    /// The ledger at the start: every piece waits, in the order `order`.
    pub open spec fn start(order: Seq<usize>) -> LedgerView {
        LedgerView {
            queue: order,
            states: Seq::new(order.len(), |i: int| PieceState::Queued),
            pieces_downloaded: 0,
        }
    }

    /// The ledger after the first index of the queue went to a worker.
    pub open spec fn claimed(self) -> LedgerView {
        LedgerView {
            queue: self.queue.skip(1),
            states: self.states.update(self.queue[0] as int, PieceState::Held),
            pieces_downloaded: self.pieces_downloaded,
        }
    }

    /// Whether a worker has the piece `index` in hand.
    pub open spec fn holds(self, index: usize) -> bool {
        index < self.states.len() && self.states[index as int] == PieceState::Held
    }

    /// The ledger after the piece `index` went back to the end of the queue.
    pub open spec fn given_back(self, index: usize) -> LedgerView {
        LedgerView {
            queue: self.queue.push(index),
            states: self.states.update(index as int, PieceState::Queued),
            pieces_downloaded: self.pieces_downloaded,
        }
    }

    /// The ledger after the piece `index` was saved.
    pub open spec fn completed(self, index: usize) -> LedgerView {
        LedgerView {
            queue: self.queue,
            states: self.states.update(index as int, PieceState::Saved),
            pieces_downloaded: self.pieces_downloaded + 1,
        }
    }
}

/// Changing the state of one piece changes the count of saved pieces by
/// what that piece adds to it.
pub proof fn lemma_saved_among_update(states: Seq<PieceState>, n: nat, i: int, v: PieceState)
    requires
        0 <= i < states.len(),
        n <= states.len(),
    ensures
        saved_among(states.update(i, v), n) == saved_among(states, n) + (if i < n && v == PieceState::Saved {
            1int
        } else {
            0int
        }) - (if i < n && states[i] == PieceState::Saved {
            1int
        } else {
            0int
        }),
        saved_among(states, n) <= n,
    decreases n,
{
    if n > 0 {
        lemma_saved_among_update(states, (n - 1) as nat, i, v);
    }
}

/// The queue, the state of every piece and the count of saved pieces, kept
/// together so that no index is ever lost or handed out twice.
pub struct Ledger {
    queue: VecDeque<usize>,
    states: Vec<PieceState>,
    pieces_downloaded: u32,
}

impl View for Ledger {
    type V = LedgerView;

    closed spec fn view(&self) -> LedgerView {
        LedgerView {
            queue: self.queue@,
            states: self.states@,
            pieces_downloaded: self.pieces_downloaded as nat,
        }
    }
}

impl Ledger {
    /// The ledger in which every piece waits, in the order `order`. There is
    /// none unless `order` holds every index below its length exactly once.
    pub fn new(order: &Vec<usize>) -> (r: Option<Ledger>)
        ensures
            r is Some <==> is_order(order@),
            r matches Some(l) ==> l@ == LedgerView::start(order@) && l@.well_formed(),
    {
        let n: usize = order.len();
        if n > u32::MAX as usize {
            return None;
        }
        let mut seen: Vec<bool> = Vec::new();
        let mut states: Vec<PieceState> = Vec::new();
        let mut i: usize = 0;
        while i < n
            invariant
                i <= n,
                seen@.len() == i,
                states@.len() == i,
                forall|j: int| 0 <= j < i ==> !seen@[j],
                forall|j: int| 0 <= j < i ==> states@[j] == PieceState::Queued,
            decreases n - i,
        {
            seen.push(false);
            states.push(PieceState::Queued);
            i += 1;
        }
        let mut queue: VecDeque<usize> = VecDeque::new();
        let mut k: usize = 0;
        while k < n
            invariant
                k <= n,
                n == order@.len(),
                seen@.len() == n,
                queue@ == order@.subrange(0, k as int),
                queue@.no_duplicates(),
                forall|j: int| 0 <= j < k ==> #[trigger] order@[j] < n,
                forall|x: usize| x < n ==> (seen@[x as int] <==> #[trigger] queue@.contains(x)),
            decreases n - k,
        {
            let x: usize = order[k];
            if x >= n {
                return None;
            }
            if seen[x] {
                assert(queue@.contains(x));
                let ghost j = choose|j: int| 0 <= j < queue@.len() && queue@[j] == x;
                assert(order@[j] == x && order@[k as int] == x);
                return None;
            }
            let ghost before = queue@;
            seen.set(x, true);
            queue.push_back(x);
            k += 1;
            assert(queue@ =~= order@.subrange(0, k as int));
            assert forall|y: usize| y < n implies (seen@[y as int] <==> #[trigger] queue@.contains(y)) by {
                if y == x {
                    assert(queue@[k - 1] == x);
                } else {
                    if before.contains(y) {
                        let j = choose|j: int| 0 <= j < before.len() && before[j] == y;
                        assert(queue@[j] == y);
                    }
                    if queue@.contains(y) {
                        let j = choose|j: int| 0 <= j < queue@.len() && queue@[j] == y;
                        assert(before[j] == y);
                    }
                }
            }
            assert(queue@.no_duplicates()) by {
                assert forall|a: int, b: int| 0 <= a < queue@.len() && 0 <= b < queue@.len() && a != b implies queue@[a]
                    != queue@[b] by {
                    if a == k - 1 && queue@[b] == x {
                        assert(before[b] == x);
                        assert(before.contains(x));
                    }
                    if b == k - 1 && queue@[a] == x {
                        assert(before[a] == x);
                        assert(before.contains(x));
                    }
                }
            }
        }
        assert(queue@ =~= order@);
        let mut i: usize = 0;
        while i < n
            invariant
                i <= n,
                seen@.len() == n,
                n == order@.len(),
                queue@ == order@,
                forall|x: usize| x < n ==> (seen@[x as int] <==> #[trigger] queue@.contains(x)),
                forall|x: usize| x < i ==> #[trigger] queue@.contains(x),
            decreases n - i,
        {
            if !seen[i] {
                assert(!queue@.contains(i));
                assert(!order@.contains(i));
                return None;
            }
            i += 1;
        }
        assert(states@ =~= Seq::new(order@.len(), |i: int| PieceState::Queued));
        let ledger = Ledger { queue, states, pieces_downloaded: 0 };
        proof {
            lemma_none_saved(ledger.states@, n as nat);
        }
        Some(ledger)
    }

    /// The number of pieces.
    pub fn total_pieces(&self) -> (n: usize)
        ensures
            n == self@.total(),
    {
        self.states.len()
    }

    /// The number of pieces that have been saved.
    pub fn pieces_downloaded(&self) -> (n: u32)
        ensures
            n == self@.pieces_downloaded,
    {
        self.pieces_downloaded
    }

    /// The number of indices that wait in the queue.
    pub fn queue_len(&self) -> (n: usize)
        ensures
            n == self@.queue.len(),
    {
        self.queue.len()
    }

    /// Whether a worker has the piece `index` in hand.
    pub fn is_held(&self, index: usize) -> (b: bool)
        ensures
            b == self@.holds(index),
    {
        index < self.states.len() && self.states[index] == PieceState::Held
    }

    /// Hands the first index of the queue to a worker.
    pub fn claim(&mut self) -> (r: Option<usize>)
        requires
            old(self)@.well_formed(),
        ensures
            final(self)@.well_formed(),
            final(self)@.pieces_downloaded == old(self)@.pieces_downloaded,
            match r {
                Some(index) => old(self)@.queue.len() > 0 && index == old(self)@.queue[0] && final(self)@ == old(
                    self,
                )@.claimed() && final(self)@.holds(index),
                None => old(self)@.queue.len() == 0 && final(self)@ == old(self)@,
            },
    {
        let ghost before = self@;
        match self.queue.pop_front() {
            None => None,
            Some(index) => {
                assert(before.queue[0] == index);
                self.states.set(index, PieceState::Held);
                proof {
                    let after = self@;
                    assert(after.queue =~= before.queue.skip(1));
                    lemma_saved_among_update(before.states, before.states.len(), index as int, PieceState::Held);
                    assert(before.queue.contains(index));
                    assert forall|i: usize| i < after.states.len() implies (after.states[i as int]
                        == PieceState::Queued <==> #[trigger] after.queue.contains(i)) by {
                        if after.queue.contains(i) {
                            let j = choose|j: int| 0 <= j < after.queue.len() && after.queue[j] == i;
                            assert(before.queue[j + 1] == i);
                            assert(before.queue.contains(i));
                            assert(i != index);
                        }
                        if i != index && before.queue.contains(i) {
                            let j = choose|j: int| 0 <= j < before.queue.len() && before.queue[j] == i;
                            assert(j > 0);
                            assert(after.queue[j - 1] == i);
                        }
                    }
                    assert forall|k: int| 0 <= k < after.queue.len() implies #[trigger] after.queue[k]
                        < after.states.len() by {
                        assert(after.queue[k] == before.queue[k + 1]);
                    }
                    assert forall|a: int, b: int|
                        0 <= a < after.queue.len() && 0 <= b < after.queue.len() && a != b implies after.queue[a]
                        != after.queue[b] by {
                        assert(after.queue[a] == before.queue[a + 1]);
                        assert(after.queue[b] == before.queue[b + 1]);
                    }
                }
                Some(index)
            },
        }
    }

    /// Puts the piece `index` back at the end of the queue. Nothing happens
    /// unless a worker has it in hand.
    pub fn give_back(&mut self, index: usize) -> (done: bool)
        requires
            old(self)@.well_formed(),
        ensures
            final(self)@.well_formed(),
            final(self)@.pieces_downloaded == old(self)@.pieces_downloaded,
            done == old(self)@.holds(index),
            final(self)@ == if done {
                old(self)@.given_back(index)
            } else {
                old(self)@
            },
    {
        if !self.is_held(index) {
            return false;
        }
        let ghost before = self@;
        self.states.set(index, PieceState::Queued);
        self.queue.push_back(index);
        proof {
            let after = self@;
            lemma_saved_among_update(before.states, before.states.len(), index as int, PieceState::Queued);
            assert(!before.queue.contains(index));
            assert(after.queue[after.queue.len() - 1] == index);
            assert forall|i: usize| i < after.states.len() implies (after.states[i as int] == PieceState::Queued
                <==> #[trigger] after.queue.contains(i)) by {
                if i != index && after.queue.contains(i) {
                    let j = choose|j: int| 0 <= j < after.queue.len() && after.queue[j] == i;
                    assert(before.queue[j] == i);
                    assert(before.queue.contains(i));
                }
                if i != index && before.queue.contains(i) {
                    let j = choose|j: int| 0 <= j < before.queue.len() && before.queue[j] == i;
                    assert(after.queue[j] == i);
                }
            }
            assert forall|a: int, b: int|
                0 <= a < after.queue.len() && 0 <= b < after.queue.len() && a != b implies after.queue[a]
                != after.queue[b] by {
                if a < before.queue.len() {
                    assert(before.queue[a] == after.queue[a]);
                    assert(before.queue.contains(after.queue[a]));
                }
                if b < before.queue.len() {
                    assert(before.queue[b] == after.queue[b]);
                    assert(before.queue.contains(after.queue[b]));
                }
            }
        }
        true
    }

    /// Marks the piece `index` as saved and counts it. Nothing happens
    /// unless a worker has it in hand.
    pub fn complete(&mut self, index: usize) -> (done: bool)
        requires
            old(self)@.well_formed(),
        ensures
            final(self)@.well_formed(),
            final(self)@.pieces_downloaded >= old(self)@.pieces_downloaded,
            done == old(self)@.holds(index),
            final(self)@ == if done {
                old(self)@.completed(index)
            } else {
                old(self)@
            },
    {
        if !self.is_held(index) {
            return false;
        }
        let ghost before = self@;
        proof {
            lemma_saved_among_update(before.states, before.states.len(), index as int, PieceState::Saved);
            lemma_saved_among_update(
                before.states.update(index as int, PieceState::Saved),
                before.states.len(),
                index as int,
                PieceState::Saved,
            );
        }
        self.states.set(index, PieceState::Saved);
        self.pieces_downloaded = self.pieces_downloaded + 1;
        proof {
            let after = self@;
            assert(!before.queue.contains(index));
            assert forall|i: usize| i < after.states.len() implies (after.states[i as int] == PieceState::Queued
                <==> #[trigger] after.queue.contains(i)) by {
            }
        }
        true
    }
}

/// Where no piece is saved, the count is zero.
pub proof fn lemma_none_saved(states: Seq<PieceState>, n: nat)
    requires
        n <= states.len(),
        forall|i: int| 0 <= i < states.len() ==> states[i] != PieceState::Saved,
    ensures
        saved_among(states, n) == 0,
    decreases n,
{
    if n > 0 {
        lemma_none_saved(states, (n - 1) as nat);
    }
}

} // verus!
