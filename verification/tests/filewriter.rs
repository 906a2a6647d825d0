use torrent_client::filewriter::{
    compose_plan, file_location, piece_file_name, ComposeError, Segment,
};
use torrent_client::torrent_data_extractor::{File, TorrentData};

fn torrent(piece_length: usize, pieces: usize, sizes: &[usize]) -> TorrentData {
    TorrentData {
        pieces: vec![vec![0u8; 20]; pieces],
        piece_length,
        files: sizes
            .iter()
            .map(|s| File {
                path_to_file: vec!["f".to_string()],
                size: *s,
            })
            .collect(),
        announce: String::new(),
        announce_list: None,
    }
}

fn seg(file: usize, offset: u64, piece: u64, begin: u64, length: u64) -> Segment {
    Segment {
        file,
        offset,
        piece,
        begin,
        length,
    }
}

#[test]
fn piece_names() {
    assert_eq!(piece_file_name(".test", 0), ".test/.0");
    assert_eq!(piece_file_name(".test", 1234), ".test/.1234");
    assert_eq!(piece_file_name("", 7), "/.7");
}

#[test]
fn file_locations() {
    assert_eq!(
        file_location(&vec!["a.txt".to_string()]),
        Some((String::new(), "a.txt".to_string()))
    );
    assert_eq!(
        file_location(&vec!["dir".to_string(), "sub".to_string(), "a.txt".to_string()]),
        Some(("dir/sub/".to_string(), "dir/sub/a.txt".to_string()))
    );
    assert_eq!(file_location(&Vec::new()), None);
}

#[test]
fn one_file_over_whole_pieces() {
    assert_eq!(
        compose_plan(&torrent(4, 2, &[8])),
        Ok(vec![seg(0, 0, 0, 0, 4), seg(0, 4, 1, 0, 4)])
    );
}

#[test]
fn one_file_with_a_short_last_piece() {
    assert_eq!(
        compose_plan(&torrent(4, 3, &[9])),
        Ok(vec![seg(0, 0, 0, 0, 4), seg(0, 4, 1, 0, 4), seg(0, 8, 2, 0, 1)])
    );
}

#[test]
fn pieces_that_straddle_files() {
    assert_eq!(
        compose_plan(&torrent(4, 3, &[3, 6, 0, 1])),
        Ok(vec![
            seg(0, 0, 0, 0, 3),
            seg(1, 0, 0, 3, 1),
            seg(1, 1, 1, 0, 4),
            seg(1, 5, 2, 0, 1),
            seg(3, 0, 2, 1, 1),
        ])
    );
}

#[test]
fn many_files_in_one_piece() {
    assert_eq!(
        compose_plan(&torrent(16, 1, &[1, 2, 3])),
        Ok(vec![seg(0, 0, 0, 0, 1), seg(1, 0, 0, 1, 2), seg(2, 0, 0, 3, 3)])
    );
}

#[test]
fn every_file_gets_its_size() {
    let sizes = [0usize, 5, 16384, 1, 40000, 0, 7];
    let t = torrent(16384, 4, &sizes);
    let plan = compose_plan(&t).unwrap();
    for (k, size) in sizes.iter().enumerate() {
        let written: u64 = plan.iter().filter(|s| s.file == k).map(|s| s.length).sum();
        assert_eq!(written, *size as u64);
    }
    let mut at: u64 = 0;
    for s in plan.iter() {
        assert!(s.length > 0);
        assert!(s.begin + s.length <= 16384);
        assert_eq!(s.piece * 16384 + s.begin, at);
        at += s.length;
    }
    assert_eq!(at, sizes.iter().sum::<usize>() as u64);
}

#[test]
fn nothing_to_lay_out() {
    assert_eq!(compose_plan(&torrent(4, 0, &[])), Ok(Vec::new()));
    assert_eq!(compose_plan(&torrent(4, 0, &[0, 0])), Ok(Vec::new()));
    assert_eq!(compose_plan(&torrent(0, 0, &[0])), Ok(Vec::new()));
    assert_eq!(compose_plan(&torrent(0, 5, &[])), Ok(Vec::new()));
}

#[test]
fn compose_errors() {
    assert_eq!(
        compose_plan(&torrent(0, 3, &[1])),
        Err(ComposeError::ZeroPieceLength)
    );
    assert_eq!(
        compose_plan(&torrent(4, 2, &[9])),
        Err(ComposeError::NotEnoughPieces)
    );
    assert_eq!(
        compose_plan(&torrent(4, 0, &[1])),
        Err(ComposeError::NotEnoughPieces)
    );
    assert_eq!(
        compose_plan(&torrent(4, 2, &[usize::MAX, usize::MAX])),
        Err(ComposeError::TooLarge)
    );
}
