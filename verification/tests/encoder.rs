use torrent_client::bencode_content::{Content, Dict};
use torrent_client::bencode_encoder::encode_content;
use torrent_client::torrent_file_parser::{create_info_hash, parse_document};

fn text(s: &str) -> Content {
    Content::Str(s.to_string())
}

#[test]
fn encodes_integers() {
    assert_eq!(encode_content(&Content::Int(0)), "i0e".as_bytes());
    assert_eq!(encode_content(&Content::Int(42)), "i42e".as_bytes());
    assert_eq!(encode_content(&Content::Int(-75637)), "i-75637e".as_bytes());
    assert_eq!(
        encode_content(&Content::Int(i64::MAX)),
        "i9223372036854775807e".as_bytes()
    );
    assert_eq!(
        encode_content(&Content::Int(i64::MIN)),
        "i-9223372036854775808e".as_bytes()
    );
}

#[test]
fn encodes_strings_with_their_length_in_bytes() {
    assert_eq!(encode_content(&text("spam")), "4:spam".as_bytes());
    assert_eq!(encode_content(&text("")), "0:".as_bytes());
    assert_eq!(encode_content(&text("при")), "6:при".as_bytes());
    assert_eq!(
        encode_content(&text("parrot sketch")),
        "13:parrot sketch".as_bytes()
    );
    assert_eq!(
        encode_content(&Content::Bytes(vec![0, 255])),
        vec![b'2', b':', 0, 255]
    );
}

#[test]
fn encodes_lists_and_dicts() {
    assert_eq!(encode_content(&Content::List(Vec::new())), "le".as_bytes());
    assert_eq!(
        encode_content(&Content::List(vec![text("parrot sketch"), Content::Int(42)])),
        "l13:parrot sketchi42ee".as_bytes()
    );
    let mut d = Dict::new();
    assert_eq!(encode_content(&Content::Dict(Dict::new())), "de".as_bytes());
    d.push("bar".to_string(), text("spam"));
    d.push("foo".to_string(), Content::Int(42));
    d.push("l".to_string(), Content::List(vec![Content::List(Vec::new())]));
    assert_eq!(
        encode_content(&Content::Dict(d)),
        "d3:bar4:spam3:fooi42e1:llleee".as_bytes()
    );
}

fn info_roundtrip(data: &[u8]) -> bool {
    let data = data.to_vec();
    let (d, info) = parse_document(&data).unwrap();
    let (start, end) = info.unwrap();
    encode_content(d.get("info").unwrap()) == data[start..end]
}

#[test]
fn parse_then_encode_gives_the_info_bytes_back() {
    let mut data = "d8:announce17:http://t/announce4:infod5:filesld6:lengthi615e4:pathl1:a1:beee4:name3:dir12:piece lengthi16384e6:pieces20:"
        .as_bytes()
        .to_vec();
    data.extend_from_slice(&[0xfe; 20]);
    data.extend_from_slice("e5:extrai-1ee".as_bytes());
    assert!(info_roundtrip(&data));
    assert!(info_roundtrip("d4:info4:spam3:fooi42ee".as_bytes()));
    assert!(info_roundtrip("d4:infoi0ee".as_bytes()));
    assert!(info_roundtrip("d4:infolee".as_bytes()));
    // The keys need not be sorted: their order is kept.
    assert!(info_roundtrip("d4:infod1:zi1e1:ai2eee".as_bytes()));
}

#[test]
fn the_hash_of_the_encoding_is_the_info_hash() {
    let data = "d4:infod6:lengthi5e4:name1:xe1:ai1ee".as_bytes().to_vec();
    let (d, info) = parse_document(&data).unwrap();
    let encoded = encode_content(d.get("info").unwrap());
    let whole = encoded.len();
    assert_eq!(
        create_info_hash(&encoded, Some((0, whole))),
        create_info_hash(&data, info)
    );
}

#[test]
fn what_is_not_written_the_one_way_does_not_come_back() {
    assert!(!info_roundtrip("d4:infod1:ai007eee".as_bytes()));
    assert!(!info_roundtrip("d4:infoi+5ee".as_bytes()));
    assert!(!info_roundtrip("d4:infoi-0ee".as_bytes()));
    assert!(!info_roundtrip("d4:info04:spame".as_bytes()));
    assert!(!info_roundtrip("d4:infod1:aee".as_bytes()));
}
