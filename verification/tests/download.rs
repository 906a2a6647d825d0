use torrent_client::download::ledger::Ledger;
use torrent_client::download::worker::{Action, Event, Phase, Session, StopReason};
use torrent_client::download::{
    generate_peer_id, piece_order, progress_percent, round_outcome, start_ledger, status,
    DownloadStatus, RoundOutcome,
};
use torrent_client::handshake::create_handshake_msg;
use torrent_client::sha1::sha1_encode;

#[test]
fn peer_id_has_20_bytes() {
    assert_eq!(generate_peer_id().len(), 20);
    assert_eq!(generate_peer_id().len(), 20);
}

#[test]
fn piece_order_holds_every_index_once() {
    for n in [0usize, 1, 2, 17, 1000] {
        let mut order = piece_order(n);
        assert_eq!(order.len(), n);
        order.sort();
        assert_eq!(order, (0..n).collect::<Vec<usize>>());
    }
}

#[test]
fn ledger_takes_an_order_only() {
    assert!(Ledger::new(&vec![2, 0, 1]).is_some());
    assert!(Ledger::new(&Vec::new()).is_some());
    assert!(Ledger::new(&vec![0, 0]).is_none());
    assert!(Ledger::new(&vec![0, 2]).is_none());
    assert!(Ledger::new(&vec![1]).is_none());
    assert!(Ledger::new(&vec![1, 2, 3]).is_none());
}

#[test]
fn ledger_hands_out_in_order() {
    let mut ledger = Ledger::new(&vec![2, 0, 1]).unwrap();
    assert_eq!(ledger.total_pieces(), 3);
    assert_eq!(ledger.queue_len(), 3);
    assert_eq!(ledger.pieces_downloaded(), 0);
    assert_eq!(ledger.claim(), Some(2));
    assert_eq!(ledger.claim(), Some(0));
    assert_eq!(ledger.queue_len(), 1);
    assert!(ledger.is_held(2));
    assert!(ledger.is_held(0));
    assert!(!ledger.is_held(1));
    assert!(!ledger.is_held(3));
    assert_eq!(ledger.claim(), Some(1));
    assert_eq!(ledger.claim(), None);
    assert_eq!(ledger.claim(), None);
}

#[test]
fn ledger_gives_back_to_the_end_of_the_queue() {
    let mut ledger = Ledger::new(&vec![0, 1, 2]).unwrap();
    assert_eq!(ledger.claim(), Some(0));
    assert!(ledger.give_back(0));
    assert!(!ledger.is_held(0));
    assert_eq!(ledger.queue_len(), 3);
    assert_eq!(ledger.claim(), Some(1));
    assert_eq!(ledger.claim(), Some(2));
    assert_eq!(ledger.claim(), Some(0));
    assert_eq!(ledger.pieces_downloaded(), 0);
}

#[test]
fn ledger_refuses_what_is_not_in_hand() {
    let mut ledger = Ledger::new(&vec![0, 1]).unwrap();
    assert!(!ledger.give_back(0));
    assert!(!ledger.complete(0));
    assert!(!ledger.give_back(2));
    assert!(!ledger.complete(2));
    assert_eq!(ledger.queue_len(), 2);
    assert_eq!(ledger.claim(), Some(0));
    assert!(ledger.complete(0));
    assert!(!ledger.complete(0));
    assert!(!ledger.give_back(0));
    assert_eq!(ledger.pieces_downloaded(), 1);
    assert_eq!(ledger.queue_len(), 1);
}

#[test]
fn ledger_counts_what_is_saved() {
    let mut ledger = start_ledger(5).unwrap();
    let mut seen = Vec::new();
    let mut last = 0;
    let mut given_back = false;
    while let Some(index) = ledger.claim() {
        assert!(index < 5);
        assert!(!seen.contains(&index));
        if seen.len() == 2 && !given_back {
            assert!(ledger.give_back(index));
            assert_eq!(ledger.pieces_downloaded(), last);
            given_back = true;
            continue;
        }
        seen.push(index);
        assert!(ledger.complete(index));
        assert!(ledger.pieces_downloaded() > last);
        last = ledger.pieces_downloaded();
    }
    assert!(given_back);
    assert_eq!(ledger.pieces_downloaded(), 5);
    assert_eq!(ledger.queue_len(), 0);
    assert_eq!(
        status(&ledger),
        DownloadStatus {
            total_pieces: 5,
            pieces_downloaded: 5
        }
    );
}

#[test]
fn rounds() {
    let mut ledger = Ledger::new(&vec![0, 1]).unwrap();
    assert_eq!(round_outcome(&ledger, 0), RoundOutcome::NoProgress);
    assert_eq!(ledger.claim(), Some(0));
    assert!(ledger.complete(0));
    assert_eq!(round_outcome(&ledger, 0), RoundOutcome::Continue);
    assert_eq!(round_outcome(&ledger, 1), RoundOutcome::NoProgress);
    assert_eq!(ledger.claim(), Some(1));
    assert!(ledger.complete(1));
    assert_eq!(round_outcome(&ledger, 1), RoundOutcome::Finished);
    assert_eq!(round_outcome(&ledger, 2), RoundOutcome::Finished);
    let empty = Ledger::new(&Vec::new()).unwrap();
    assert_eq!(round_outcome(&empty, 0), RoundOutcome::Finished);
}

#[test]
fn percent() {
    let of = |pieces_downloaded, total_pieces| {
        progress_percent(DownloadStatus {
            total_pieces,
            pieces_downloaded,
        })
    };
    assert_eq!(of(0, 3), 0);
    assert_eq!(of(1, 3), 33);
    assert_eq!(of(2, 3), 66);
    assert_eq!(of(3, 3), 100);
    assert_eq!(of(0, 0), 100);
    assert_eq!(of(u32::MAX, u32::MAX), 100);
    assert_eq!(of(u32::MAX - 1, u32::MAX), 99);
}

fn info_hash() -> Vec<u8> {
    vec![
        255, 125, 75, 51, 96, 126, 249, 69, 90, 173, 209, 54, 159, 46, 10, 142, 230, 141, 83, 200,
    ]
}

fn block(fill: u8) -> Vec<u8> {
    vec![fill; 16384]
}

fn piece_msg(index: u32, begin: u32, data: &[u8]) -> Vec<u8> {
    let mut msg = Vec::new();
    msg.extend_from_slice(&(9 + data.len() as u32).to_be_bytes());
    msg.push(7);
    msg.extend_from_slice(&index.to_be_bytes());
    msg.extend_from_slice(&begin.to_be_bytes());
    msg.extend_from_slice(data);
    msg
}

/// Two pieces of two blocks each; the peer has both.
fn pieces() -> Vec<Vec<u8>> {
    let mut first = block(1);
    first.extend_from_slice(&block(2));
    let mut second = block(3);
    second.extend_from_slice(&block(4));
    vec![sha1_encode(&first), sha1_encode(&second)]
}

fn ready(bitfield: u8) -> Session {
    let (mut session, action) = Session::new(info_hash(), 2, 32768).unwrap();
    assert_eq!(action, Action::Handshake);
    assert_eq!(session.phase(), Phase::Connecting);
    assert_eq!(session.expected_bitfield_length(), 1);
    let reply = create_handshake_msg(&info_hash(), &vec![7; 20], None);
    assert_eq!(
        session.step(Event::HandshakeReply(reply), &pieces()),
        Action::ReadBitfield
    );
    assert_eq!(
        session.step(Event::Bitfield(vec![0, 0, 0, 2, 5, bitfield]), &pieces()),
        Action::SendUnchoke
    );
    assert_eq!(session.step(Event::Sent, &pieces()), Action::SendInterested);
    assert_eq!(session.step(Event::Sent, &pieces()), Action::Claim);
    assert_eq!(session.phase(), Phase::Ready);
    session
}

#[test]
fn session_downloads_a_piece() {
    let mut s = ready(0b1100_0000);
    assert_eq!(
        s.step(Event::Claimed(Some(1)), &pieces()),
        Action::SendRequest {
            index: 1,
            begin: 0,
            length: 16384
        }
    );
    assert_eq!(s.phase(), Phase::Requesting(1));
    assert_eq!(s.step(Event::Sent, &pieces()), Action::Read);
    assert_eq!(s.phase(), Phase::Reading(1));
    // The block arrives in two reads.
    let msg = piece_msg(1, 0, &block(3));
    assert_eq!(
        s.step(Event::Received(msg[..1000].to_vec()), &pieces()),
        Action::Read
    );
    assert_eq!(
        s.step(Event::Received(msg[1000..].to_vec()), &pieces()),
        Action::SendRequest {
            index: 1,
            begin: 16384,
            length: 16384
        }
    );
    assert_eq!(s.piece().len(), 16384);
    assert_eq!(s.step(Event::Sent, &pieces()), Action::Read);
    // An unchoke comes with the second block.
    let mut both = vec![0, 0, 0, 1, 1];
    both.extend_from_slice(&piece_msg(1, 16384, &block(4)));
    assert_eq!(both.len(), 16402);
    assert_eq!(s.step(Event::Received(both), &pieces()), Action::Save(1));
    assert_eq!(s.phase(), Phase::Saving(1));
    assert_eq!(sha1_encode(s.piece()), pieces()[1]);
    assert_eq!(s.step(Event::Saved, &pieces()), Action::Claim);
    assert_eq!(s.phase(), Phase::Ready);
    assert!(s.piece().is_empty());
    assert_eq!(s.step(Event::Claimed(None), &pieces()), Action::Stop);
    assert_eq!(s.phase(), Phase::Done(StopReason::QueueEmpty));
    assert_eq!(s.step(Event::Sent, &pieces()), Action::Stop);
    assert_eq!(s.fails(), 0);
}

#[test]
fn session_gives_back_what_the_peer_lacks() {
    let mut s = ready(0b0100_0000);
    for n in 1..5 {
        assert_eq!(
            s.step(Event::Claimed(Some(0)), &pieces()),
            Action::GiveBackThenClaim(0)
        );
        assert_eq!(s.fails(), n);
        assert_eq!(s.phase(), Phase::Ready);
    }
    assert_eq!(
        s.step(Event::Claimed(Some(0)), &pieces()),
        Action::GiveBackThenStop(0)
    );
    assert_eq!(s.fails(), 5);
    assert_eq!(s.phase(), Phase::Done(StopReason::PeerMisbehaving));
}

#[test]
fn session_gives_back_a_piece_with_a_wrong_digest() {
    let mut s = ready(0b1100_0000);
    s.step(Event::Claimed(Some(0)), &pieces());
    s.step(Event::Sent, &pieces());
    assert_eq!(
        s.step(Event::Received(piece_msg(0, 0, &block(1))), &pieces()),
        Action::SendRequest {
            index: 0,
            begin: 16384,
            length: 16384
        }
    );
    s.step(Event::Sent, &pieces());
    assert_eq!(
        s.step(Event::Received(piece_msg(0, 16384, &block(9))), &pieces()),
        Action::GiveBackThenClaim(0)
    );
    assert_eq!(s.fails(), 1);
    assert_eq!(s.phase(), Phase::Ready);
    assert!(s.piece().is_empty());
}

#[test]
fn session_counts_a_control_message_as_the_block() {
    // A message of five bytes ends the wait for the block; the piece then
    // lacks the block and fails its digest.
    let mut s = ready(0b1100_0000);
    s.step(Event::Claimed(Some(0)), &pieces());
    s.step(Event::Sent, &pieces());
    assert_eq!(
        s.step(Event::Received(vec![0, 0, 0, 1, 1]), &pieces()),
        Action::SendRequest {
            index: 0,
            begin: 16384,
            length: 16384
        }
    );
    assert!(s.piece().is_empty());
}

#[test]
fn session_ends_at_the_fourth_choke() {
    let mut s = ready(0b1100_0000);
    s.step(Event::Claimed(Some(0)), &pieces());
    for n in 1..4 {
        assert_eq!(s.step(Event::Sent, &pieces()), Action::Read);
        let action = s.step(Event::Received(vec![0, 0, 0, 1, 0]), &pieces());
        assert_eq!(s.times_choked(), n);
        if n % 2 == 1 {
            assert_eq!(
                action,
                Action::SendRequest {
                    index: 0,
                    begin: 16384,
                    length: 16384
                }
            );
        } else {
            // Both blocks were answered by a choke: the piece is empty.
            assert_eq!(action, Action::GiveBackThenClaim(0));
            assert_eq!(
                s.step(Event::Claimed(Some(0)), &pieces()),
                Action::SendRequest {
                    index: 0,
                    begin: 0,
                    length: 16384
                }
            );
        }
    }
    assert_eq!(s.step(Event::Sent, &pieces()), Action::Read);
    assert_eq!(
        s.step(Event::Received(vec![0, 0, 0, 1, 0]), &pieces()),
        Action::GiveBackThenStop(0)
    );
    assert_eq!(s.phase(), Phase::Done(StopReason::PeerMisbehaving));
}

#[test]
fn session_gives_up_a_block_after_20_reads() {
    let mut s = ready(0b1100_0000);
    s.step(Event::Claimed(Some(1)), &pieces());
    assert_eq!(s.step(Event::Sent, &pieces()), Action::Read);
    for _ in 1..20 {
        assert_eq!(s.step(Event::Received(vec![0, 0]), &pieces()), Action::Read);
    }
    assert_eq!(
        s.step(Event::Received(vec![0, 0]), &pieces()),
        Action::GiveBackThenStop(1)
    );
    assert_eq!(s.phase(), Phase::Done(StopReason::PeerMisbehaving));
}

#[test]
fn session_gives_up_a_piece_on_too_many_bytes() {
    let mut s = ready(0b1100_0000);
    s.step(Event::Claimed(Some(1)), &pieces());
    s.step(Event::Sent, &pieces());
    assert_eq!(
        s.step(Event::Received(vec![0; 16403]), &pieces()),
        Action::GiveBackThenClaim(1)
    );
    assert_eq!(s.fails(), 1);
    let mut s = ready(0b1100_0000);
    s.step(Event::Claimed(Some(1)), &pieces());
    s.step(Event::Sent, &pieces());
    assert_eq!(s.step(Event::Received(vec![0; 16400]), &pieces()), Action::Read);
    assert_eq!(
        s.step(Event::Received(vec![0; 3]), &pieces()),
        Action::GiveBackThenClaim(1)
    );
}

#[test]
fn session_ends_on_a_message_it_cannot_read() {
    let mut s = ready(0b1100_0000);
    s.step(Event::Claimed(Some(1)), &pieces());
    s.step(Event::Sent, &pieces());
    let mut msg = piece_msg(1, 0, &block(3));
    msg[3] = 0;
    assert_eq!(
        s.step(Event::Received(msg), &pieces()),
        Action::GiveBackThenStop(1)
    );
}

#[test]
fn session_ends_on_failure_and_returns_what_it_holds() {
    let mut s = ready(0b1100_0000);
    assert_eq!(s.step(Event::Failed, &pieces()), Action::Stop);
    let mut s = ready(0b1100_0000);
    s.step(Event::Claimed(Some(1)), &pieces());
    assert_eq!(s.step(Event::Failed, &pieces()), Action::GiveBackThenStop(1));
    let mut s = ready(0b1100_0000);
    s.step(Event::Claimed(Some(1)), &pieces());
    s.step(Event::Sent, &pieces());
    assert_eq!(s.step(Event::Failed, &pieces()), Action::GiveBackThenStop(1));
    let mut s = ready(0b1100_0000);
    s.step(Event::Claimed(Some(1)), &pieces());
    assert_eq!(s.step(Event::Saved, &pieces()), Action::GiveBackThenStop(1));
    assert_eq!(s.phase(), Phase::Done(StopReason::PeerUnavailable));
}

#[test]
fn session_ends_on_a_bad_handshake_or_bitfield() {
    let (mut s, _) = Session::new(info_hash(), 2, 32768).unwrap();
    let reply = create_handshake_msg(&vec![0; 20], &vec![7; 20], None);
    assert_eq!(s.step(Event::HandshakeReply(reply), &pieces()), Action::Stop);
    assert_eq!(s.phase(), Phase::Done(StopReason::PeerUnavailable));
    let (mut s, _) = Session::new(info_hash(), 2, 32768).unwrap();
    assert_eq!(s.step(Event::Failed, &pieces()), Action::Stop);
    let (mut s, _) = Session::new(info_hash(), 2, 32768).unwrap();
    let reply = create_handshake_msg(&info_hash(), &vec![7; 20], None);
    s.step(Event::HandshakeReply(reply), &pieces());
    assert_eq!(
        s.step(Event::Bitfield(vec![0, 0, 0, 3, 5, 0xff, 0xff]), &pieces()),
        Action::Stop
    );
    assert_eq!(s.phase(), Phase::Done(StopReason::PeerUnavailable));
}

#[test]
fn session_takes_an_index_that_names_no_piece_as_none() {
    let mut s = ready(0b1100_0000);
    assert_eq!(s.step(Event::Claimed(Some(2)), &pieces()), Action::Stop);
    assert_eq!(s.phase(), Phase::Done(StopReason::QueueEmpty));
}

#[test]
fn session_that_is_over_keeps_its_reason() {
    let mut s = ready(0b1100_0000);
    assert_eq!(s.step(Event::Claimed(None), &pieces()), Action::Stop);
    for event in [
        Event::Failed,
        Event::Sent,
        Event::Saved,
        Event::Claimed(Some(0)),
        Event::Received(vec![0; 5]),
    ] {
        assert_eq!(s.step(event, &pieces()), Action::Stop);
        assert_eq!(s.phase(), Phase::Done(StopReason::QueueEmpty));
    }
}

#[test]
fn session_of_a_short_piece_length() {
    // Pieces of 20000 bytes take two requests of a full block each.
    let (mut s, _) = Session::new(info_hash(), 1, 20000).unwrap();
    let reply = create_handshake_msg(&info_hash(), &vec![7; 20], None);
    s.step(Event::HandshakeReply(reply), &pieces());
    s.step(Event::Bitfield(vec![0, 0, 0, 2, 5, 0x80]), &pieces());
    s.step(Event::Sent, &pieces());
    s.step(Event::Sent, &pieces());
    assert_eq!(
        s.step(Event::Claimed(Some(0)), &pieces()),
        Action::SendRequest {
            index: 0,
            begin: 0,
            length: 16384
        }
    );
}

#[test]
fn session_needs_sizes_of_32_bits() {
    assert!(Session::new(info_hash(), 0, 0).is_some());
    assert!(Session::new(info_hash(), u32::MAX as usize, u32::MAX as usize).is_some());
    if usize::BITS > 32 {
        assert!(Session::new(info_hash(), u32::MAX as usize + 1, 1).is_none());
        assert!(Session::new(info_hash(), 1, u32::MAX as usize + 1).is_none());
    }
}
