use torrent_client::handshake::{check_handshake_reply, create_handshake_msg, handshake_rest_len};

fn info_hash() -> Vec<u8> {
    vec![
        255, 125, 75, 51, 96, 126, 249, 69, 90, 173, 209, 54, 159, 46, 10, 142, 230, 141, 83, 200,
    ]
}

fn peer_id() -> Vec<u8> {
    vec![
        1, 2, 3, 4, 5, 6, 7, 8, 9, 10, 11, 12, 13, 14, 15, 16, 17, 18, 19, 20,
    ]
}

#[test]
fn handshake_create_handshake_default_msg_test() {
    let info_hash = vec![
        255, 125, 75, 51, 96, 126, 249, 69, 90, 173, 209, 54, 159, 46, 10, 142, 230, 141, 83, 200,
    ];
    let peer_id = vec![
        1, 2, 3, 4, 5, 6, 7, 8, 9, 10, 11, 12, 13, 14, 15, 16, 17, 18, 19, 20,
    ];
    let result = vec![
        19, 66, 105, 116, 84, 111, 114, 114, 101, 110, 116, 32, 112, 114, 111, 116, 111, 99, 111,
        108, 0, 0, 0, 0, 0, 0, 0, 0, 255, 125, 75, 51, 96, 126, 249, 69, 90, 173, 209, 54, 159, 46,
        10, 142, 230, 141, 83, 200, 1, 2, 3, 4, 5, 6, 7, 8, 9, 10, 11, 12, 13, 14, 15, 16, 17, 18,
        19, 20,
    ];
    assert_eq!(create_handshake_msg(&info_hash, &peer_id, None), result);
}

#[test]
fn handshake_create_handshake_msg_test() {
    let info_hash = vec![
        255, 125, 75, 51, 96, 126, 249, 69, 90, 173, 209, 54, 159, 46, 10, 142, 230, 141, 83, 200,
    ];
    let peer_id = vec![
        1, 2, 3, 4, 5, 6, 7, 8, 9, 10, 11, 12, 13, 14, 15, 16, 17, 18, 19, 20,
    ];
    let pstr = "ajhfhavbghajgjahwygajbg".to_string();
    let result = vec![
        23, 97, 106, 104, 102, 104, 97, 118, 98, 103, 104, 97, 106, 103, 106, 97, 104, 119, 121,
        103, 97, 106, 98, 103, 0, 0, 0, 0, 0, 0, 0, 0, 255, 125, 75, 51, 96, 126, 249, 69, 90, 173,
        209, 54, 159, 46, 10, 142, 230, 141, 83, 200, 1, 2, 3, 4, 5, 6, 7, 8, 9, 10, 11, 12, 13,
        14, 15, 16, 17, 18, 19, 20,
    ];
    assert_eq!(
        create_handshake_msg(&info_hash, &peer_id, Some(pstr)),
        result
    );
}

#[test]
fn default_handshake_is_68_bytes() {
    let msg = create_handshake_msg(&info_hash(), &peer_id(), None);
    assert_eq!(msg.len(), 68);
    assert_eq!(msg[0], 19);
    assert_eq!(&msg[1..20], "BitTorrent protocol".as_bytes());
    assert_eq!(&msg[20..28], &[0u8; 8]);
    assert_eq!(&msg[28..48], info_hash().as_slice());
    assert_eq!(&msg[48..68], peer_id().as_slice());
}

#[test]
fn handshake_with_empty_protocol_string() {
    let msg = create_handshake_msg(&info_hash(), &peer_id(), Some(String::new()));
    assert_eq!(msg.len(), 49);
    assert_eq!(msg[0], 0);
}

#[test]
fn handshake_rest_length() {
    assert_eq!(handshake_rest_len(19), 67);
    assert_eq!(handshake_rest_len(0), 48);
    assert_eq!(handshake_rest_len(255), 303);
}

#[test]
fn reply_with_our_hash_is_accepted() {
    let reply = create_handshake_msg(&info_hash(), &vec![9u8; 20], None);
    assert!(check_handshake_reply(&reply, &info_hash()));
}

#[test]
fn reply_with_another_hash_is_rejected() {
    let mut other = info_hash();
    other[19] = 201;
    let reply = create_handshake_msg(&other, &vec![9u8; 20], None);
    assert!(!check_handshake_reply(&reply, &info_hash()));
}

#[test]
fn reply_that_is_cut_short_is_rejected() {
    let mut reply = create_handshake_msg(&info_hash(), &vec![9u8; 20], None);
    reply.pop();
    assert!(!check_handshake_reply(&reply, &info_hash()));
    assert!(!check_handshake_reply(&Vec::new(), &info_hash()));
}

#[test]
fn reply_with_bytes_after_it_is_rejected() {
    let mut reply = create_handshake_msg(&info_hash(), &vec![9u8; 20], None);
    reply.push(0);
    assert!(!check_handshake_reply(&reply, &info_hash()));
}

#[test]
fn reply_is_checked_against_a_hash_of_20_bytes_only() {
    let reply = create_handshake_msg(&info_hash(), &vec![9u8; 20], None);
    assert!(!check_handshake_reply(&reply, &info_hash()[..19].to_vec()));
}
