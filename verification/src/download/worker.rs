use vstd::prelude::*;
use crate::bitfields::{bitfield_of, has_piece, parse_bitfield, peer_has_piece};
use crate::bytes::{append_vec, copy_range};
use crate::digest::{check_piece, sha1_of};
use crate::handshake::{check_handshake_reply, reply_matches};
use crate::messages::{message_meaning, read_message};
use crate::torrent_data_extractor::byte_strings;

verus! {

/// The size of a block, the unit of a `request`.
pub const BLOCK_SIZE: usize = 16384;

/// A session ends at this many pieces that the peer lacked or got wrong.
pub const MAX_FAILS: u8 = 5;

/// A session ends at this many `choke` messages.
pub const MAX_CHOKES: u8 = 4;

/// The reads that one block may take.
pub const MAX_READS: u8 = 20;

/// The bytes of a `piece` message that carries a full block.
pub const PIECE_FRAME: usize = 16397;

/// The bytes of a five-byte message followed by a full `piece` message.
pub const DOUBLE_FRAME: usize = 16402;

/// Why a session ended.
#[derive(Clone, Copy, Debug, PartialEq, Eq, Structural)]
pub enum StopReason {
    /// The queue had no index to hand out.
    QueueEmpty,
    /// The peer could not be reached or did not introduce itself: the
    /// connection, the handshake or the bitfield failed, or a read or a
    /// write did.
    PeerUnavailable,
    /// The peer did not keep to the protocol or was of no use: a message
    /// could not be read, a block took too many reads, the peer choked us
    /// too often, or too many pieces were missing or wrong.
    PeerMisbehaving,
}

/// Where a session with a peer stands, named by what it waits for.
#[derive(Clone, Copy, Debug, PartialEq, Eq, Structural)]
pub enum Phase {
    /// Connecting: for the handshake of the peer.
    Connecting,
    /// For the bitfield of the peer.
    Bitfield,
    /// For `unchoke` to be sent.
    Unchoke,
    /// For `interested` to be sent.
    Interested,
    /// Ready: for the queue to hand out an index.
    Ready,
    /// Downloading the piece: for the request of the next block to be sent.
    Requesting(usize),
    /// Downloading the piece: for bytes of the block that was asked for.
    Reading(usize),
    /// For the verified piece to be persisted.
    Saving(usize),
    /// The session is over, for this reason.
    Done(StopReason),
}

/// What the caller of a session has to report.
#[derive(Debug)]
pub enum Event {
    /// The last action failed: an I/O error or a timeout.
    Failed,
    /// The handshake that the peer sent back, from its length byte on.
    HandshakeReply(Vec<u8>),
    /// The first framed message of the peer.
    Bitfield(Vec<u8>),
    /// The last message was written.
    Sent,
    /// The queue handed out this index, or was empty.
    Claimed(Option<usize>),
    /// A read returned these bytes.
    Received(Vec<u8>),
    /// The piece was persisted and counted.
    Saved,
}

/// What the caller of a session has to do next.
#[derive(Clone, Copy, Debug, PartialEq, Eq, Structural)]
pub enum Action {
    /// Connect, send our handshake and read the peer's.
    Handshake,
    /// Read the first message of the peer.
    ReadBitfield,
    /// Send `unchoke`.
    SendUnchoke,
    /// Send `interested`.
    SendInterested,
    /// Take the next index from the queue.
    Claim,
    /// Put the index back in the queue, then take the next one.
    GiveBackThenClaim(usize),
    /// Put the index back in the queue and end the session.
    GiveBackThenStop(usize),
    /// Send this `request`.
    SendRequest { index: u32, begin: u32, length: u32 },
    /// Read from the peer.
    Read,
    /// Persist the piece that the session holds under this index, and count it.
    Save(usize),
    /// End the session.
    Stop,
}

/// A session as mathematics sees it.
pub struct SessionView {
    pub phase: Phase,
    /// Pieces that the peer lacked or got wrong, so far.
    pub fails: nat,
    /// `choke` messages so far.
    pub chokes: nat,
    /// Reads made for the block that is being fetched.
    pub reads: nat,
    /// The number of the block that is being fetched.
    pub block: nat,
    /// Blocks per piece.
    pub blocks: nat,
    /// Pieces of the torrent.
    pub total: nat,
    /// Bytes of the bitfield that the peer has to send.
    pub bitfield_len: nat,
    pub info_hash: Seq<u8>,
    pub bitfield: Seq<u8>,
    /// The blocks of the piece in hand that have arrived.
    pub piece: Seq<u8>,
    /// The bytes that have arrived for the block that is being fetched.
    pub incoming: Seq<u8>,
}

/// The index that a session has in hand.
pub open spec fn held(phase: Phase) -> Option<usize> {
    match phase {
        Phase::Requesting(i) => Some(i),
        Phase::Reading(i) => Some(i),
        Phase::Saving(i) => Some(i),
        _ => None,
    }
}

/// The blocks that a piece of `piece_length` bytes takes.
pub open spec fn block_count(piece_length: nat) -> nat {
    if piece_length % 16384 != 0 {
        piece_length / 16384 + 1
    } else {
        piece_length / 16384
    }
}

/// The session ends for the reason `reason`, unless it is over already; an
/// index in hand goes back to the queue.
pub open spec fn abandon(s: SessionView, reason: StopReason) -> (SessionView, Action) {
    (
        if s.phase is Done {
            s
        } else {
            SessionView { phase: Phase::Done(reason), ..s }
        },
        match held(s.phase) {
            Some(i) => Action::GiveBackThenStop(i),
            None => Action::Stop,
        },
    )
}

/// The piece `i` is given up: it goes back to the queue, and the session
/// ends if this was its last allowed failure.
pub open spec fn fail_piece(s: SessionView, i: usize) -> (SessionView, Action) {
    if s.fails + 1 >= MAX_FAILS {
        (
            SessionView {
                phase: Phase::Done(StopReason::PeerMisbehaving),
                fails: s.fails + 1,
                piece: Seq::empty(),
                ..s
            },
            Action::GiveBackThenStop(i),
        )
    } else {
        (
            SessionView { phase: Phase::Ready, fails: s.fails + 1, piece: Seq::empty(), ..s },
            Action::GiveBackThenClaim(i),
        )
    }
}

/// All blocks of piece `i` have arrived: it is saved if its digest is the
/// one that the torrent gives for it, and given up otherwise.
pub open spec fn finish_piece(s: SessionView, i: usize, pieces: Seq<Seq<u8>>) -> (SessionView, Action) {
    if i < pieces.len() && sha1_of(s.piece) == pieces[i as int] {
        (SessionView { phase: Phase::Saving(i), ..s }, Action::Save(i))
    } else {
        fail_piece(s, i)
    }
}

/// The request for block `s.block` of piece `i`, or the end of the piece if
/// it has no such block.
pub open spec fn request_or_finish(s: SessionView, i: usize, pieces: Seq<Seq<u8>>) -> (SessionView, Action) {
    if s.block < s.blocks {
        (
            SessionView { phase: Phase::Requesting(i), ..s },
            Action::SendRequest { index: i as u32, begin: (s.block * 16384) as u32, length: 16384 },
        )
    } else {
        finish_piece(s, i, pieces)
    }
}

/// What one framed message does to the count of chokes, and the block that
/// it carries. `None` where the message is rejected or the count is full.
pub open spec fn digest_frame(chokes: nat, frame: Seq<u8>) -> Option<(nat, Seq<u8>)> {
    match message_meaning(frame) {
        Err(_) => None,
        Ok((choked, block)) => {
            let count = if choked {
                chokes + 1
            } else {
                chokes
            };
            if count >= MAX_CHOKES {
                None
            } else {
                Some(
                    (
                        count,
                        match block {
                            Some(b) => b,
                            None => Seq::empty(),
                        },
                    ),
                )
            }
        },
    }
}

/// The block that is being fetched is complete with `data`.
pub open spec fn block_done(s: SessionView, i: usize, chokes: nat, data: Seq<u8>, pieces: Seq<Seq<u8>>) -> (
    SessionView,
    Action,
) {
    request_or_finish(
        SessionView { chokes: chokes, piece: s.piece + data, block: s.block + 1, incoming: Seq::empty(), ..s },
        i,
        pieces,
    )
}

/// The peer's handshake arrived.
pub open spec fn on_handshake(s: SessionView, reply: Seq<u8>) -> (SessionView, Action) {
    if reply_matches(reply, s.info_hash) {
        (SessionView { phase: Phase::Bitfield, ..s }, Action::ReadBitfield)
    } else {
        abandon(s, StopReason::PeerUnavailable)
    }
}

/// The peer's first message arrived.
pub open spec fn on_bitfield(s: SessionView, message: Seq<u8>) -> (SessionView, Action) {
    match bitfield_of(message, s.bitfield_len) {
        Ok(bitfield) => (SessionView { phase: Phase::Unchoke, bitfield: bitfield, ..s }, Action::SendUnchoke),
        Err(_) => abandon(s, StopReason::PeerUnavailable),
    }
}

/// The queue answered. An index that names no piece of the torrent is
/// taken as none.
pub open spec fn on_claimed(s: SessionView, claimed: Option<usize>, pieces: Seq<Seq<u8>>) -> (
    SessionView,
    Action,
) {
    match claimed {
        None => abandon(s, StopReason::QueueEmpty),
        Some(i) => if i >= s.total {
            abandon(s, StopReason::QueueEmpty)
        } else if !has_piece(s.bitfield, i as nat) {
            fail_piece(s, i)
        } else {
            request_or_finish(
                SessionView { piece: Seq::empty(), block: 0, reads: 0, incoming: Seq::empty(), ..s },
                i,
                pieces,
            )
        },
    }
}

/// Bytes arrived for the block of piece `i` that is being fetched.
pub open spec fn on_received(s: SessionView, i: usize, bytes: Seq<u8>, pieces: Seq<Seq<u8>>) -> (
    SessionView,
    Action,
) {
    let incoming = s.incoming + bytes;
    let n = incoming.len();
    if n == 5 || n == PIECE_FRAME {
        match digest_frame(s.chokes, incoming) {
            None => abandon(s, StopReason::PeerMisbehaving),
            Some((chokes, data)) => block_done(s, i, chokes, data, pieces),
        }
    } else if n == DOUBLE_FRAME {
        match digest_frame(s.chokes, incoming.subrange(0, 5)) {
            None => abandon(s, StopReason::PeerMisbehaving),
            Some((first, _)) => match digest_frame(first, incoming.skip(5)) {
                None => abandon(s, StopReason::PeerMisbehaving),
                Some((chokes, data)) => block_done(s, i, chokes, data, pieces),
            },
        }
    } else if n > DOUBLE_FRAME {
        fail_piece(SessionView { incoming: Seq::empty(), ..s }, i)
    } else if s.reads >= MAX_READS {
        abandon(s, StopReason::PeerMisbehaving)
    } else {
        (SessionView { reads: s.reads + 1, incoming: incoming, ..s }, Action::Read)
    }
}

/// The state that follows `s` on the event `e`, and what is to be done next.
/// A failure, or an event that the phase does not wait for, ends the
/// session as one with a peer that is not to be reached.
pub open spec fn next(s: SessionView, e: Event, pieces: Seq<Seq<u8>>) -> (SessionView, Action) {
    match (s.phase, e) {
        (Phase::Connecting, Event::HandshakeReply(reply)) => on_handshake(s, reply@),
        (Phase::Bitfield, Event::Bitfield(message)) => on_bitfield(s, message@),
        (Phase::Unchoke, Event::Sent) => (SessionView { phase: Phase::Interested, ..s }, Action::SendInterested),
        (Phase::Interested, Event::Sent) => (SessionView { phase: Phase::Ready, ..s }, Action::Claim),
        (Phase::Ready, Event::Claimed(claimed)) => on_claimed(s, claimed, pieces),
        (Phase::Requesting(i), Event::Sent) => (
            SessionView { phase: Phase::Reading(i), reads: 1, incoming: Seq::empty(), ..s },
            Action::Read,
        ),
        (Phase::Reading(i), Event::Received(bytes)) => on_received(s, i, bytes@, pieces),
        (Phase::Saving(i), Event::Saved) => (
            SessionView { phase: Phase::Ready, piece: Seq::empty(), ..s },
            Action::Claim,
        ),
        _ => abandon(s, StopReason::PeerUnavailable),
    }
}

impl SessionView {
    /// The counters are within their limits, and every `request` that the
    /// session may build fits the 32 bits of its fields.
    pub open spec fn bounded(self) -> bool {
        &&& self.fails < MAX_FAILS
        &&& self.chokes < MAX_CHOKES
        &&& self.reads <= MAX_READS
        &&& self.total <= u32::MAX
        &&& self.blocks * 16384 <= u32::MAX + 16384
        &&& self.block <= self.blocks
        &&& self.incoming.len() <= DOUBLE_FRAME
    }

    /// A session that is over has nothing more to count; any other is
    /// within its limits, and the piece in hand is one of the torrent with a
    /// block still to fetch.
    pub open spec fn well_formed(self) -> bool {
        match self.phase {
            Phase::Done(_) => true,
            Phase::Requesting(i) => self.bounded() && i < self.total && self.block < self.blocks,
            Phase::Reading(i) => self.bounded() && i < self.total && self.block < self.blocks && self.reads >= 1,
            Phase::Saving(i) => self.bounded() && i < self.total,
            _ => self.bounded(),
        }
    }
}

/// The session that begins with a peer of a torrent of `pieces` pieces of
/// `piece_length` bytes.
pub open spec fn initial(info_hash: Seq<u8>, pieces: nat, piece_length: nat) -> SessionView {
    SessionView {
        phase: Phase::Connecting,
        fails: 0,
        chokes: 0,
        reads: 0,
        block: 0,
        blocks: block_count(piece_length),
        total: pieces,
        bitfield_len: crate::bitfields::bitfield_len(pieces),
        info_hash: info_hash,
        bitfield: Seq::empty(),
        piece: Seq::empty(),
        incoming: Seq::empty(),
    }
}

/// The session with one peer: what it has counted, what it has received,
/// and what it waits for.
pub struct Session {
    phase: Phase,
    fails: u8,
    chokes: u8,
    reads: u8,
    block: u32,
    blocks: u32,
    total: usize,
    bitfield_len: usize,
    info_hash: Vec<u8>,
    bitfield: Vec<u8>,
    piece: Vec<u8>,
    incoming: Vec<u8>,
}

impl View for Session {
    type V = SessionView;

    closed spec fn view(&self) -> SessionView {
        SessionView {
            phase: self.phase,
            fails: self.fails as nat,
            chokes: self.chokes as nat,
            reads: self.reads as nat,
            block: self.block as nat,
            blocks: self.blocks as nat,
            total: self.total as nat,
            bitfield_len: self.bitfield_len as nat,
            info_hash: self.info_hash@,
            bitfield: self.bitfield@,
            piece: self.piece@,
            incoming: self.incoming@,
        }
    }
}

/// Applies one framed message to the count of chokes.
fn apply_frame(chokes: u8, frame: Vec<u8>) -> (r: Option<(u8, Vec<u8>)>)
    requires
        chokes < MAX_CHOKES,
    ensures
        match r {
            Some((count, data)) => digest_frame(chokes as nat, frame@) == Some((count as nat, data@)) && count
                < MAX_CHOKES,
            None => digest_frame(chokes as nat, frame@) is None,
        },
{
    match read_message(frame) {
        Err(_) => None,
        Ok((choked, block)) => {
            let count: u8 = if choked {
                chokes + 1
            } else {
                chokes
            };
            if count >= MAX_CHOKES {
                None
            } else {
                match block {
                    Some(b) => Some((count, b)),
                    None => Some((count, Vec::new())),
                }
            }
        },
    }
}

impl Session {
    /// Begins a session, and says how it begins: with the handshake. There
    /// is none for a torrent whose piece count or piece length does not fit
    /// the 32 bits of a `request` field.
    pub fn new(info_hash: Vec<u8>, pieces: usize, piece_length: usize) -> (r: Option<(Session, Action)>)
        ensures
            r is Some <==> pieces <= u32::MAX && piece_length <= u32::MAX,
            r matches Some((s, a)) ==> {
                &&& a == Action::Handshake
                &&& s@ == initial(info_hash@, pieces as nat, piece_length as nat)
                &&& s@.well_formed()
            },
    {
        if pieces > u32::MAX as usize || piece_length > u32::MAX as usize {
            return None;
        }
        let blocks: usize = if piece_length % BLOCK_SIZE != 0 {
            piece_length / BLOCK_SIZE + 1
        } else {
            piece_length / BLOCK_SIZE
        };
        let session = Session {
            phase: Phase::Connecting,
            fails: 0,
            chokes: 0,
            reads: 0,
            block: 0,
            blocks: blocks as u32,
            total: pieces,
            bitfield_len: crate::bitfields::bitfield_length(pieces),
            info_hash,
            bitfield: Vec::new(),
            piece: Vec::new(),
            incoming: Vec::new(),
        };
        Some((session, Action::Handshake))
    }

    /// What the session waits for.
    pub fn phase(&self) -> (p: Phase)
        ensures
            p == self@.phase,
    {
        self.phase
    }

    /// The pieces that the peer lacked or got wrong, so far.
    pub fn fails(&self) -> (n: u8)
        ensures
            n == self@.fails,
    {
        self.fails
    }

    /// The `choke` messages so far.
    pub fn times_choked(&self) -> (n: u8)
        ensures
            n == self@.chokes,
    {
        self.chokes
    }

    /// The bytes of the bitfield that the peer has to send.
    pub fn expected_bitfield_length(&self) -> (n: usize)
        ensures
            n == self@.bitfield_len,
    {
        self.bitfield_len
    }

    /// The blocks of the piece in hand that have arrived; after
    /// `Action::Save`, the whole piece.
    pub fn piece(&self) -> (p: &Vec<u8>)
        ensures
            p@ == self@.piece,
    {
        &self.piece
    }

    fn abandon(&mut self, reason: StopReason) -> (action: Action)
        ensures
            final(self)@.well_formed(),
            (final(self)@, action) == abandon(old(self)@, reason),
    {
        match self.phase {
            Phase::Requesting(i) => {
                self.phase = Phase::Done(reason);
                Action::GiveBackThenStop(i)
            },
            Phase::Reading(i) => {
                self.phase = Phase::Done(reason);
                Action::GiveBackThenStop(i)
            },
            Phase::Saving(i) => {
                self.phase = Phase::Done(reason);
                Action::GiveBackThenStop(i)
            },
            Phase::Done(_) => Action::Stop,
            _ => {
                self.phase = Phase::Done(reason);
                Action::Stop
            },
        }
    }

    fn fail_piece(&mut self, i: usize) -> (action: Action)
        requires
            old(self)@.bounded(),
        ensures
            final(self)@.well_formed(),
            (final(self)@, action) == fail_piece(old(self)@, i),
    {
        self.fails = self.fails + 1;
        self.piece = Vec::new();
        if self.fails >= MAX_FAILS {
            self.phase = Phase::Done(StopReason::PeerMisbehaving);
            Action::GiveBackThenStop(i)
        } else {
            self.phase = Phase::Ready;
            Action::GiveBackThenClaim(i)
        }
    }

    fn finish_piece(&mut self, i: usize, pieces: &Vec<Vec<u8>>) -> (action: Action)
        requires
            old(self)@.bounded(),
            i < old(self)@.total,
        ensures
            final(self)@.well_formed(),
            (final(self)@, action) == finish_piece(old(self)@, i, byte_strings(pieces@)),
    {
        if i < pieces.len() && check_piece(&self.piece, &pieces[i]) {
            self.phase = Phase::Saving(i);
            Action::Save(i)
        } else {
            self.fail_piece(i)
        }
    }

    fn request_or_finish(&mut self, i: usize, pieces: &Vec<Vec<u8>>) -> (action: Action)
        requires
            old(self)@.bounded(),
            i < old(self)@.total,
        ensures
            final(self)@.well_formed(),
            (final(self)@, action) == request_or_finish(old(self)@, i, byte_strings(pieces@)),
    {
        if self.block < self.blocks {
            self.phase = Phase::Requesting(i);
            assert(self.block * 16384 <= u32::MAX) by (nonlinear_arith)
                requires
                    self.block < self.blocks,
                    self.blocks * 16384 <= u32::MAX + 16384,
            ;
            Action::SendRequest { index: i as u32, begin: self.block * 16384, length: 16384 }
        } else {
            self.finish_piece(i, pieces)
        }
    }

    fn block_done(&mut self, i: usize, chokes: u8, data: &Vec<u8>, pieces: &Vec<Vec<u8>>) -> (action: Action)
        requires
            old(self)@.well_formed(),
            old(self)@.phase == Phase::Reading(i),
            chokes < MAX_CHOKES,
        ensures
            final(self)@.well_formed(),
            (final(self)@, action) == block_done(old(self)@, i, chokes as nat, data@, byte_strings(pieces@)),
    {
        self.chokes = chokes;
        append_vec(&mut self.piece, data);
        self.block = self.block + 1;
        self.incoming = Vec::new();
        self.request_or_finish(i, pieces)
    }

    fn on_claimed(&mut self, claimed: Option<usize>, pieces: &Vec<Vec<u8>>) -> (action: Action)
        requires
            old(self)@.well_formed(),
            old(self)@.phase == Phase::Ready,
        ensures
            final(self)@.well_formed(),
            (final(self)@, action) == on_claimed(old(self)@, claimed, byte_strings(pieces@)),
    {
        match claimed {
            None => self.abandon(StopReason::QueueEmpty),
            Some(i) => {
                if i >= self.total {
                    self.abandon(StopReason::QueueEmpty)
                } else if !peer_has_piece(&self.bitfield, i) {
                    self.fail_piece(i)
                } else {
                    self.piece = Vec::new();
                    self.block = 0;
                    self.reads = 0;
                    self.incoming = Vec::new();
                    self.request_or_finish(i, pieces)
                }
            },
        }
    }

    fn on_received(&mut self, i: usize, bytes: &Vec<u8>, pieces: &Vec<Vec<u8>>) -> (action: Action)
        requires
            old(self)@.well_formed(),
            old(self)@.phase == Phase::Reading(i),
        ensures
            final(self)@.well_formed(),
            (final(self)@, action) == on_received(old(self)@, i, bytes@, byte_strings(pieces@)),
    {
        if bytes.len() > DOUBLE_FRAME {
            self.incoming = Vec::new();
            return self.fail_piece(i);
        }
        let ghost before = self.incoming@;
        let n: usize = self.incoming.len() + bytes.len();
        if n == 5 || n == PIECE_FRAME {
            let mut frame = copy_range(&self.incoming, 0, self.incoming.len());
            append_vec(&mut frame, bytes);
            assert(frame@ =~= before + bytes@);
            match apply_frame(self.chokes, frame) {
                None => self.abandon(StopReason::PeerMisbehaving),
                Some((chokes, data)) => self.block_done(i, chokes, &data, pieces),
            }
        } else if n == DOUBLE_FRAME {
            let mut both = copy_range(&self.incoming, 0, self.incoming.len());
            append_vec(&mut both, bytes);
            assert(both@ =~= before + bytes@);
            let head = copy_range(&both, 0, 5);
            let tail = copy_range(&both, 5, both.len());
            assert(tail@ =~= both@.skip(5));
            match apply_frame(self.chokes, head) {
                None => self.abandon(StopReason::PeerMisbehaving),
                Some((first, _)) => match apply_frame(first, tail) {
                    None => self.abandon(StopReason::PeerMisbehaving),
                    Some((chokes, data)) => self.block_done(i, chokes, &data, pieces),
                },
            }
        } else if n > DOUBLE_FRAME {
            self.incoming = Vec::new();
            self.fail_piece(i)
        } else if self.reads >= MAX_READS {
            self.abandon(StopReason::PeerMisbehaving)
        } else {
            self.reads = self.reads + 1;
            append_vec(&mut self.incoming, bytes);
            Action::Read
        }
    }

    /// Takes the session one step on: from what it waited for and what
    /// happened to what it waits for next, and what is to be done.
    pub fn step(&mut self, event: Event, pieces: &Vec<Vec<u8>>) -> (action: Action)
        requires
            old(self)@.well_formed(),
        ensures
            final(self)@.well_formed(),
            (final(self)@, action) == next(old(self)@, event, byte_strings(pieces@)),
    {
        match (self.phase, event) {
            (Phase::Connecting, Event::HandshakeReply(reply)) => {
                if check_handshake_reply(&reply, &self.info_hash) {
                    self.phase = Phase::Bitfield;
                    Action::ReadBitfield
                } else {
                    self.abandon(StopReason::PeerUnavailable)
                }
            },
            (Phase::Bitfield, Event::Bitfield(message)) => {
                match parse_bitfield(&message, self.bitfield_len) {
                    Ok(bitfield) => {
                        self.phase = Phase::Unchoke;
                        self.bitfield = bitfield;
                        Action::SendUnchoke
                    },
                    Err(_) => self.abandon(StopReason::PeerUnavailable),
                }
            },
            (Phase::Unchoke, Event::Sent) => {
                self.phase = Phase::Interested;
                Action::SendInterested
            },
            (Phase::Interested, Event::Sent) => {
                self.phase = Phase::Ready;
                Action::Claim
            },
            (Phase::Ready, Event::Claimed(claimed)) => self.on_claimed(claimed, pieces),
            (Phase::Requesting(i), Event::Sent) => {
                self.phase = Phase::Reading(i);
                self.reads = 1;
                self.incoming = Vec::new();
                Action::Read
            },
            (Phase::Reading(i), Event::Received(bytes)) => self.on_received(i, &bytes, pieces),
            (Phase::Saving(i), Event::Saved) => {
                self.phase = Phase::Ready;
                self.piece = Vec::new();
                Action::Claim
            },
            _ => self.abandon(StopReason::PeerUnavailable),
        }
    }
}

/// The index that an action puts back in the queue.
pub open spec fn given_back(a: Action) -> Option<usize> {
    match a {
        Action::GiveBackThenClaim(i) => Some(i),
        Action::GiveBackThenStop(i) => Some(i),
        _ => None,
    }
}

/// Whether the event hands the index `i` to a session that waits for one.
pub open spec fn claims(s: SessionView, e: Event, i: usize) -> bool {
    &&& s.phase == Phase::Ready
    &&& i < s.total
    &&& e matches Event::Claimed(Some(j))
    &&& j == i
}

/// A piece is saved only where its digest is the one that the torrent gives
/// for its index; the session then holds exactly that piece.
pub proof fn lemma_saved_piece_is_verified(s: SessionView, e: Event, pieces: Seq<Seq<u8>>, i: usize)
    requires
        next(s, e, pieces).1 == Action::Save(i),
    ensures
        i < pieces.len(),
        sha1_of(next(s, e, pieces).0.piece) == pieces[i as int],
        next(s, e, pieces).0.phase == Phase::Saving(i),
{
}

/// No step loses an index or makes two of it. An index that goes back to
/// the queue was in hand or had just been claimed, and is in hand no
/// longer; an index in hand stays in hand, goes back, or has been saved;
/// an index that is claimed is in hand afterwards or goes back at once.
pub proof fn lemma_index_accounted(s: SessionView, e: Event, pieces: Seq<Seq<u8>>, i: usize)
    ensures
        ({
            let t = next(s, e, pieces).0;
            let a = next(s, e, pieces).1;
            &&& given_back(a) == Some(i) ==> (held(s.phase) == Some(i) || claims(s, e, i)) && held(t.phase)
                is None
            &&& held(s.phase) == Some(i) ==> held(t.phase) == Some(i) || given_back(a) == Some(i) || (s.phase
                == Phase::Saving(i) && e is Saved && held(t.phase) is None)
            &&& claims(s, e, i) ==> held(t.phase) == Some(i) || given_back(a) == Some(i)
            &&& held(t.phase) == Some(i) ==> given_back(a) is None && (held(s.phase) == Some(i) || claims(s, e, i))
        }),
{
}

/// A session asks the queue for an index only with nothing in hand, and
/// ends only with nothing in hand.
pub proof fn lemma_claims_and_stops_empty_handed(s: SessionView, e: Event, pieces: Seq<Seq<u8>>)
    ensures
        ({
            let t = next(s, e, pieces).0;
            let a = next(s, e, pieces).1;
            &&& (a == Action::Claim || a is GiveBackThenClaim) ==> t.phase == Phase::Ready
            &&& (a == Action::Stop || a is GiveBackThenStop) <==> t.phase is Done
        }),
{
}

/// A session that is over stays over and asks for nothing.
pub proof fn lemma_done_is_final(s: SessionView, e: Event, pieces: Seq<Seq<u8>>)
    requires
        s.phase is Done,
    ensures
        next(s, e, pieces) == (s, Action::Stop),
{
}

/// The counters never pass their limits: a well-formed session stays so.
pub proof fn lemma_step_keeps_limits(s: SessionView, e: Event, pieces: Seq<Seq<u8>>)
    requires
        s.well_formed(),
    ensures
        next(s, e, pieces).0.well_formed(),
        next(s, e, pieces).0.fails >= s.fails,
        !(next(s, e, pieces).0.phase is Done) ==> next(s, e, pieces).0.chokes >= s.chokes,
{
}

} // verus!
