use torrent_client::bitfields::bitfield_length;
use torrent_client::descriptor::{read_descriptor, Malformed};
use torrent_client::download::worker::{Action, Event, Phase, Session};
use torrent_client::download::{piece_order, round_outcome, start_ledger, RoundOutcome};
use torrent_client::filewriter::{compose_plan, file_location};
use torrent_client::handshake::create_handshake_msg;
use torrent_client::sha1::sha1_encode;
use torrent_client::torrent_data_extractor::{extract_data, ExtractError, Field};
use torrent_client::torrent_file_parser::{parse_torrent_file, ParseError};
use torrent_client::tracker::tcp_connection::create_tcp_tracker_url;
use torrent_client::tracker::{announce_targets, tracker_target, TrackerTarget};

/// Two files of 20000 and 12768 bytes over two pieces of 16384 bytes.
fn payload() -> Vec<u8> {
    (0..32768u32).map(|i| (i % 251) as u8).collect()
}

fn metainfo() -> Vec<u8> {
    let payload = payload();
    let mut data = "d8:announce30:udp://tracker.example.org:69694:infod5:filesld6:lengthi20000e4:pathl5:a.bineed6:lengthi12768e4:pathl3:sub5:b.bineee4:name4:root12:piece lengthi16384e6:pieces40:"
        .as_bytes()
        .to_vec();
    data.extend_from_slice(&sha1_encode(&payload[..16384].to_vec()));
    data.extend_from_slice(&sha1_encode(&payload[16384..].to_vec()));
    data.extend_from_slice("ee".as_bytes());
    data
}

fn piece_msg(index: u32, begin: u32, data: &[u8]) -> Vec<u8> {
    let mut msg = Vec::new();
    msg.extend_from_slice(&(9 + data.len() as u32).to_be_bytes());
    msg.push(7);
    msg.extend_from_slice(&index.to_be_bytes());
    msg.extend_from_slice(&begin.to_be_bytes());
    msg.extend_from_slice(data);
    msg
}

#[test]
fn from_the_file_to_the_files() {
    let data = metainfo();
    let (dict, info_hash) = parse_torrent_file(&data).unwrap();
    let start = data.windows(6).position(|w| w == "4:info".as_bytes()).unwrap() + 6;
    assert_eq!(info_hash, sha1_encode(&data[start..data.len() - 1].to_vec()));
    let torrent = extract_data(dict).unwrap();
    assert_eq!(torrent.pieces.len(), 2);
    assert_eq!(torrent.piece_length, 16384);

    let targets = announce_targets(&torrent);
    assert_eq!(targets, vec!["udp://tracker.example.org:6969".to_string()]);
    assert_eq!(
        tracker_target(&targets[0]),
        Ok(TrackerTarget::Udp("tracker.example.org:6969".to_string()))
    );
    let url = create_tcp_tracker_url(
        "http://t/a".to_string(),
        &torrent,
        &vec![b'x'; 20],
        7878,
        &info_hash,
    );
    assert!(url.contains("&left=32768&"));

    // One peer with both pieces serves the whole torrent.
    let mut ledger = start_ledger(torrent.pieces.len()).unwrap();
    let (mut session, mut action) =
        Session::new(info_hash.clone(), torrent.pieces.len(), torrent.piece_length).unwrap();
    assert_eq!(
        session.expected_bitfield_length(),
        bitfield_length(torrent.pieces.len())
    );
    let payload = payload();
    let mut saved: Vec<Option<Vec<u8>>> = vec![None, None];
    let mut steps = 0;
    loop {
        steps += 1;
        assert!(steps < 100);
        let event = match action {
            Action::Handshake => {
                Event::HandshakeReply(create_handshake_msg(&info_hash, &vec![b'y'; 20], None))
            }
            Action::ReadBitfield => Event::Bitfield(vec![0, 0, 0, 2, 5, 0b1100_0000]),
            Action::SendUnchoke | Action::SendInterested => Event::Sent,
            Action::Claim => Event::Claimed(ledger.claim()),
            Action::SendRequest { .. } => Event::Sent,
            Action::Read => match session.phase() {
                Phase::Reading(index) => {
                    let begin = index * 16384 + session.piece().len();
                    Event::Received(piece_msg(
                        index as u32,
                        session.piece().len() as u32,
                        &payload[begin..begin + 16384],
                    ))
                }
                _ => unreachable!(),
            },
            Action::Save(index) => {
                assert_eq!(sha1_encode(session.piece()), torrent.pieces[index]);
                saved[index] = Some(session.piece().clone());
                assert!(ledger.complete(index));
                Event::Saved
            }
            Action::GiveBackThenClaim(_) | Action::GiveBackThenStop(_) => unreachable!(),
            Action::Stop => break,
        };
        action = session.step(event, &torrent.pieces);
    }
    assert_eq!(round_outcome(&ledger, 0), RoundOutcome::Finished);
    assert_eq!(ledger.pieces_downloaded(), 2);

    // The files are put together from the saved pieces as the plan says.
    let plan = compose_plan(&torrent).unwrap();
    let mut files: Vec<Vec<u8>> = torrent.files.iter().map(|f| vec![0; f.size]).collect();
    for segment in plan.iter() {
        let piece = saved[segment.piece as usize].as_ref().unwrap();
        let from = segment.begin as usize;
        let to = segment.offset as usize;
        let length = segment.length as usize;
        files[segment.file][to..to + length].copy_from_slice(&piece[from..from + length]);
    }
    assert_eq!(files[0], payload[..20000].to_vec());
    assert_eq!(files[1], payload[20000..].to_vec());
    assert_eq!(
        file_location(&torrent.files[0].path_to_file),
        Some(("root/".to_string(), "root/a.bin".to_string()))
    );
    assert_eq!(
        file_location(&torrent.files[1].path_to_file),
        Some(("root/sub/".to_string(), "root/sub/b.bin".to_string()))
    );
}

#[test]
fn a_shuffled_order_is_not_the_plain_one() {
    let plain: Vec<usize> = (0..1000).collect();
    assert_ne!(piece_order(1000), plain);
    assert_ne!(piece_order(1000), piece_order(1000));
}

#[test]
fn descriptor_of_a_file() {
    let data = metainfo();
    let d = read_descriptor(&data).unwrap();
    let (dict, info_hash) = parse_torrent_file(&data).unwrap();
    let torrent = extract_data(dict).unwrap();
    assert_eq!(d.info_hash, info_hash);
    assert_eq!(d.info_hash.len(), 20);
    assert_eq!(d.torrent_data.pieces, torrent.pieces);
    assert_eq!(d.torrent_data.piece_length, 16384);
    assert_eq!(d.torrent_data.announce, "udp://tracker.example.org:6969");
    assert_eq!(d.torrent_data.files.len(), 2);
    assert_eq!(d.torrent_data.files[1].size, 12768);
}

#[test]
fn descriptor_errors() {
    assert_eq!(
        read_descriptor(&"d8:announce1:xe".as_bytes().to_vec()).unwrap_err(),
        Malformed::Metainfo(ExtractError::MissingField(Field::Info))
    );
    assert_eq!(
        read_descriptor(&"d4:infodee".as_bytes().to_vec()).unwrap_err(),
        Malformed::Metainfo(ExtractError::MissingField(Field::Pieces))
    );
    assert_eq!(
        read_descriptor(&"d4:infoi1e".as_bytes().to_vec()).unwrap_err(),
        Malformed::Bencode(ParseError::LengthOverrun)
    );
    assert_eq!(
        read_descriptor(&"i1e".as_bytes().to_vec()).unwrap_err(),
        Malformed::Bencode(ParseError::UnexpectedByte)
    );
    let mut cut = metainfo();
    cut.pop();
    assert_eq!(
        read_descriptor(&cut).unwrap_err(),
        Malformed::Bencode(ParseError::LengthOverrun)
    );
    let mut more = metainfo();
    more.push(b'e');
    assert_eq!(
        read_descriptor(&more).unwrap_err(),
        Malformed::Bencode(ParseError::TrailingGarbage)
    );
}
