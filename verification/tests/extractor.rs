use torrent_client::bencode_content::{Content, Dict};
use torrent_client::torrent_data_extractor::{extract_data, ExtractError, Field};
use torrent_client::torrent_file_parser::parse_byte_data;

fn dict(entries: Vec<(&str, Content)>) -> Dict {
    let mut d = Dict::new();
    for (key, value) in entries {
        d.push(key.to_string(), value);
    }
    d
}

fn text(s: &str) -> Content {
    Content::Str(s.to_string())
}

fn single_info() -> Vec<(&'static str, Content)> {
    vec![
        ("name", text("file.bin")),
        ("length", Content::Int(40000)),
        ("piece length", Content::Int(16384)),
        ("pieces", Content::Bytes((0..60).collect())),
    ]
}

fn single() -> Vec<(&'static str, Content)> {
    vec![
        ("announce", text("http://t/announce")),
        ("info", Content::Dict(dict(single_info()))),
    ]
}

fn without(entries: Vec<(&'static str, Content)>, key: &str) -> Vec<(&'static str, Content)> {
    entries.into_iter().filter(|(k, _)| *k != key).collect()
}

fn with(
    entries: Vec<(&'static str, Content)>,
    key: &'static str,
    value: Content,
) -> Vec<(&'static str, Content)> {
    let mut entries = without(entries, key);
    entries.push((key, value));
    entries
}

fn in_info(info: Vec<(&'static str, Content)>) -> Dict {
    dict(with(single(), "info", Content::Dict(dict(info))))
}

fn error_of(d: Dict) -> ExtractError {
    extract_data(d).unwrap_err()
}

#[test]
fn single_file_torrent() {
    let t = extract_data(dict(single())).unwrap();
    assert_eq!(t.piece_length, 16384);
    assert_eq!(t.announce, "http://t/announce");
    assert!(t.announce_list.is_none());
    assert_eq!(t.files.len(), 1);
    assert_eq!(t.files[0].path_to_file, vec!["file.bin".to_string()]);
    assert_eq!(t.files[0].size, 40000);
    assert_eq!(t.pieces.len(), 3);
    assert_eq!(t.pieces[0], (0..20).collect::<Vec<u8>>());
    assert_eq!(t.pieces[1], (20..40).collect::<Vec<u8>>());
    assert_eq!(t.pieces[2], (40..60).collect::<Vec<u8>>());
}

fn file_entry(path: Vec<&str>, length: i64) -> Content {
    Content::Dict(dict(vec![
        ("length", Content::Int(length)),
        ("path", Content::List(path.into_iter().map(text).collect())),
    ]))
}

fn multi_info() -> Vec<(&'static str, Content)> {
    vec![
        ("name", text("dir")),
        (
            "files",
            Content::List(vec![
                file_entry(vec!["a.txt"], 10),
                file_entry(vec!["sub", "deep", "b.txt"], 0),
                file_entry(vec![], 5),
            ]),
        ),
        ("piece length", Content::Int(32768)),
        ("pieces", Content::Bytes(vec![7; 20])),
    ]
}

#[test]
fn multi_file_torrent() {
    let t = extract_data(in_info(multi_info())).unwrap();
    assert_eq!(t.files.len(), 3);
    assert_eq!(
        t.files[0].path_to_file,
        vec!["dir".to_string(), "a.txt".to_string()]
    );
    assert_eq!(t.files[0].size, 10);
    assert_eq!(
        t.files[1].path_to_file,
        vec![
            "dir".to_string(),
            "sub".to_string(),
            "deep".to_string(),
            "b.txt".to_string()
        ]
    );
    assert_eq!(t.files[1].size, 0);
    assert_eq!(t.files[2].path_to_file, vec!["dir".to_string()]);
    assert_eq!(t.files[2].size, 5);
    assert_eq!(t.pieces, vec![vec![7u8; 20]]);
    assert_eq!(t.piece_length, 32768);
}

#[test]
fn files_win_over_length() {
    let t = extract_data(in_info(with(multi_info(), "length", Content::Int(99)))).unwrap();
    assert_eq!(t.files.len(), 3);
}

#[test]
fn announce_list_takes_the_first_of_each_tier() {
    let tiers = Content::List(vec![
        Content::List(vec![text("udp://a:1"), text("udp://b:2")]),
        Content::List(vec![text("http://c/")]),
    ]);
    let t = extract_data(dict(with(single(), "announce-list", tiers))).unwrap();
    assert_eq!(
        t.announce_list,
        Some(vec!["udp://a:1".to_string(), "http://c/".to_string()])
    );
    let t = extract_data(dict(with(single(), "announce-list", Content::List(Vec::new())))).unwrap();
    assert_eq!(t.announce_list, Some(Vec::new()));
}

#[test]
fn no_pieces_at_all() {
    let t = extract_data(in_info(with(single_info(), "pieces", Content::Bytes(Vec::new())))).unwrap();
    assert!(t.pieces.is_empty());
}

#[test]
fn missing_fields() {
    assert_eq!(
        error_of(dict(without(single(), "info"))),
        ExtractError::MissingField(Field::Info)
    );
    assert_eq!(
        error_of(dict(without(single(), "announce"))),
        ExtractError::MissingField(Field::Announce)
    );
    assert_eq!(
        error_of(in_info(without(single_info(), "pieces"))),
        ExtractError::MissingField(Field::Pieces)
    );
    assert_eq!(
        error_of(in_info(without(single_info(), "name"))),
        ExtractError::MissingField(Field::Name)
    );
    assert_eq!(
        error_of(in_info(without(single_info(), "length"))),
        ExtractError::MissingField(Field::Length)
    );
    assert_eq!(
        error_of(in_info(without(single_info(), "piece length"))),
        ExtractError::MissingField(Field::PieceLength)
    );
    assert_eq!(
        error_of(in_info(without(multi_info(), "name"))),
        ExtractError::MissingField(Field::Name)
    );
    let no_path = Content::List(vec![Content::Dict(dict(vec![("length", Content::Int(1))]))]);
    assert_eq!(
        error_of(in_info(with(multi_info(), "files", no_path))),
        ExtractError::MissingField(Field::Path)
    );
    let no_length = Content::List(vec![Content::Dict(dict(vec![(
        "path",
        Content::List(vec![text("a")]),
    )]))]);
    assert_eq!(
        error_of(in_info(with(multi_info(), "files", no_length))),
        ExtractError::MissingField(Field::Length)
    );
    let empty_tier = Content::List(vec![Content::List(Vec::new())]);
    assert_eq!(
        error_of(dict(with(single(), "announce-list", empty_tier))),
        ExtractError::MissingField(Field::AnnounceList)
    );
}

#[test]
fn wrong_tags() {
    assert_eq!(
        error_of(dict(with(single(), "info", Content::Int(1)))),
        ExtractError::WrongTag(Field::Info)
    );
    assert_eq!(
        error_of(dict(with(single(), "announce", Content::Int(1)))),
        ExtractError::WrongTag(Field::Announce)
    );
    assert_eq!(
        error_of(dict(with(single(), "announce-list", text("x")))),
        ExtractError::WrongTag(Field::AnnounceList)
    );
    assert_eq!(
        error_of(dict(with(
            single(),
            "announce-list",
            Content::List(vec![text("x")])
        ))),
        ExtractError::WrongTag(Field::AnnounceList)
    );
    assert_eq!(
        error_of(dict(with(
            single(),
            "announce-list",
            Content::List(vec![Content::List(vec![Content::Int(1)])])
        ))),
        ExtractError::WrongTag(Field::AnnounceList)
    );
    assert_eq!(
        error_of(in_info(with(single_info(), "pieces", text("abc")))),
        ExtractError::WrongTag(Field::Pieces)
    );
    assert_eq!(
        error_of(in_info(with(single_info(), "name", Content::Int(1)))),
        ExtractError::WrongTag(Field::Name)
    );
    assert_eq!(
        error_of(in_info(with(single_info(), "length", text("1")))),
        ExtractError::WrongTag(Field::Length)
    );
    assert_eq!(
        error_of(in_info(with(single_info(), "length", Content::Int(-1)))),
        ExtractError::WrongTag(Field::Length)
    );
    assert_eq!(
        error_of(in_info(with(single_info(), "piece length", Content::Int(-16384)))),
        ExtractError::WrongTag(Field::PieceLength)
    );
    assert_eq!(
        error_of(in_info(with(single_info(), "piece length", Content::List(Vec::new())))),
        ExtractError::WrongTag(Field::PieceLength)
    );
    assert_eq!(
        error_of(in_info(with(multi_info(), "files", Content::Int(1)))),
        ExtractError::WrongTag(Field::Files)
    );
    assert_eq!(
        error_of(in_info(with(
            multi_info(),
            "files",
            Content::List(vec![Content::Int(1)])
        ))),
        ExtractError::WrongTag(Field::Files)
    );
    let path_no_list = Content::List(vec![Content::Dict(dict(vec![
        ("length", Content::Int(1)),
        ("path", text("a")),
    ]))]);
    assert_eq!(
        error_of(in_info(with(multi_info(), "files", path_no_list))),
        ExtractError::WrongTag(Field::Path)
    );
    let path_of_numbers = Content::List(vec![Content::Dict(dict(vec![
        ("length", Content::Int(1)),
        ("path", Content::List(vec![text("a"), Content::Int(2)])),
    ]))]);
    assert_eq!(
        error_of(in_info(with(multi_info(), "files", path_of_numbers))),
        ExtractError::WrongTag(Field::Path)
    );
}

#[test]
fn pieces_that_are_no_whole_digests() {
    assert_eq!(
        error_of(in_info(with(single_info(), "pieces", Content::Bytes(vec![0; 59])))),
        ExtractError::BadPiecesLength
    );
    assert_eq!(
        error_of(in_info(with(single_info(), "pieces", Content::Bytes(vec![0; 1])))),
        ExtractError::BadPiecesLength
    );
}

#[test]
fn the_first_failure_is_the_one_reported() {
    // The files are looked at before the piece length, and the piece
    // length before the digests.
    let info = with(
        with(single_info(), "pieces", Content::Bytes(vec![0; 5])),
        "piece length",
        text("x"),
    );
    assert_eq!(error_of(in_info(info)), ExtractError::WrongTag(Field::PieceLength));
    let info = without(with(single_info(), "piece length", text("x")), "length");
    assert_eq!(error_of(in_info(info)), ExtractError::MissingField(Field::Length));
    let second_bad = Content::List(vec![
        file_entry(vec!["a"], 1),
        Content::Int(3),
        Content::Dict(Dict::new()),
    ]);
    assert_eq!(
        error_of(in_info(with(multi_info(), "files", second_bad))),
        ExtractError::WrongTag(Field::Files)
    );
}

#[test]
fn from_the_bytes_of_a_file() {
    let mut data = "d8:announce17:http://t/announce13:announce-listll9:udp://a:1ee4:infod6:lengthi5e4:name1:x12:piece lengthi4e6:pieces40:"
        .as_bytes()
        .to_vec();
    data.extend_from_slice(&[0xab; 40]);
    data.extend_from_slice("ee".as_bytes());
    let t = extract_data(parse_byte_data(&data).unwrap()).unwrap();
    assert_eq!(t.announce, "http://t/announce");
    assert_eq!(t.announce_list, Some(vec!["udp://a:1".to_string()]));
    assert_eq!(t.piece_length, 4);
    assert_eq!(t.pieces, vec![vec![0xab; 20], vec![0xab; 20]]);
    assert_eq!(t.files[0].size, 5);
}
