use torrent_client::handshake::create_handshake_msg;

#[test]
fn create_handshake_default_msg_test() {
    let info_hash = vec![
        255, 125, 75, 51, 96, 126, 249, 69, 90, 173, 209, 54, 159, 46, 10, 142, 230, 141, 83, 200,
    ];
    let peer_id = vec![
        1, 2, 3, 4, 5, 6, 7, 8, 9, 10, 11, 12, 13, 14, 15, 16, 17, 18, 19, 20,
    ];
    let result = vec![
        19, 66, 105, 116, 84, 111, 114, 114, 101, 110, 116, 32, 112, 114, 111, 116, 111, 99, 111,
        108, 0, 0, 0, 0, 0, 0, 0, 0, 255, 125, 75, 51, 96, 126, 249, 69, 90, 173, 209, 54, 159, 46,
        10, 142, 230, 141, 83, 200, 1, 2, 3, 4, 5, 6, 7, 8, 9, 10, 11, 12, 13, 14, 15, 16, 17, 18,
        19, 20,
    ];
    assert_eq!(create_handshake_msg(&info_hash, &peer_id, None), result);
}

#[test]
fn create_handshake_msg_test() {
    let info_hash = vec![
        255, 125, 75, 51, 96, 126, 249, 69, 90, 173, 209, 54, 159, 46, 10, 142, 230, 141, 83, 200,
    ];
    let peer_id = vec![
        1, 2, 3, 4, 5, 6, 7, 8, 9, 10, 11, 12, 13, 14, 15, 16, 17, 18, 19, 20,
    ];
    let pstr = "ajhfhavbghajgjahwygajbg".to_string();
    let result = vec![
        23, 97, 106, 104, 102, 104, 97, 118, 98, 103, 104, 97, 106, 103, 106, 97, 104, 119, 121,
        103, 97, 106, 98, 103, 0, 0, 0, 0, 0, 0, 0, 0, 255, 125, 75, 51, 96, 126, 249, 69, 90, 173,
        209, 54, 159, 46, 10, 142, 230, 141, 83, 200, 1, 2, 3, 4, 5, 6, 7, 8, 9, 10, 11, 12, 13,
        14, 15, 16, 17, 18, 19, 20,
    ];
    assert_eq!(
        create_handshake_msg(&info_hash, &peer_id, Some(pstr)),
        result
    );
}
