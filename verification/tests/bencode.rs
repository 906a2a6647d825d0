use torrent_client::bencode_content::{Content, Dict};
use torrent_client::torrent_file_parser::{
    create_info_hash, parse_dict, parse_int, parse_list, parse_string,
};

// The functions take the text without its first letter: "42e" for "i42e".
#[test]
fn parsing_positive_int() {
    let mut index = 0;
    assert_eq!(
        parse_int(&"42e".to_string().as_bytes().to_vec(), &mut index).unwrap(),
        42
    );
    assert_eq!(index, 3);
}

#[test]
fn parsing_zero_int() {
    let mut index = 0;
    assert_eq!(
        parse_int(&"0e".to_string().as_bytes().to_vec(), &mut index).unwrap(),
        0
    );
    assert_eq!(index, 2);
}

#[test]
fn parsing_negative_int() {
    let mut index = 0;
    assert_eq!(
        parse_int(&"-75637e".to_string().as_bytes().to_vec(), &mut index).unwrap(),
        -75637
    );
    assert_eq!(index, 7);
}

#[test]
fn parsing_string_1() {
    let mut index = 0;
    assert_eq!(
        parse_string(&"4:spam".to_string().as_bytes().to_vec(), &mut index).unwrap(),
        "spam"
    );
    assert_eq!(index, 6);
}

#[test]
fn parsing_string_2() {
    let mut index = 0;
    assert_eq!(
        parse_string(
            &"13:parrot sketch".to_string().as_bytes().to_vec(),
            &mut index
        )
        .unwrap(),
        "parrot sketch"
    );
    assert_eq!(index, 16);
}

#[test]
fn parsing_list() {
    let mut index = 0;
    let result: Vec<Content> = {
        parse_list(
            &"13:parrot sketchi42ee".to_string().as_bytes().to_vec(),
            &mut index,
        )
        .unwrap()
    };
    assert_eq!(result[0], Content::Str("parrot sketch".to_string()));
    assert_eq!(result[1], Content::Int(42));
    assert_eq!(index, 21);
}

#[test]
fn parsing_dict() {
    let mut index = 0;
    let (result, _): (Dict, Option<(usize, usize)>) = {
        parse_dict(
            &"3:bar4:spam3:fooi42ee".to_string().as_bytes().to_vec(),
            &mut index,
        )
        .unwrap()
    };
    assert_eq!(
        *result.get("bar").unwrap(),
        Content::Str("spam".to_string())
    );
    assert_eq!(*result.get("foo").unwrap(), Content::Int(42));
    assert_eq!(index, 21);
}

#[test]
fn testing_info_hash() {
    let mut index = 0;
    let example = "4:info4:spam3:fooi42ee".to_string().as_bytes().to_vec();
    let (_, info) = parse_dict(&example, &mut index).unwrap();
    assert_eq!(info, Some((6, 12)));
    assert_eq!(
        create_info_hash(&example, info),
        vec![
            151, 39, 109, 243, 254, 149, 209, 1, 232, 44, 41, 51, 88, 33, 38, 89, 2, 164, 15, 144
        ]
    );
}

#[test]
fn testing_info_hash_2() {
    let mut index = 0;
    let example = "4:infod5:filesld6:lengthi615e4:patheeee"
        .to_string()
        .as_bytes()
        .to_vec();
    let (_, info) = parse_dict(&example, &mut index).unwrap();
    assert_eq!(info, Some((6, 38)));
    assert_eq!(
        create_info_hash(&example, info),
        vec![
            4, 126, 211, 231, 220, 45, 82, 116, 37, 135, 96, 198, 181, 86, 85, 175, 170, 126, 67,
            178
        ]
    );
}
