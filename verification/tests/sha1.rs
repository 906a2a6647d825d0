use torrent_client::digest::check_piece;
use torrent_client::sha1::sha1_encode;

#[test]
fn test_sha1_1() {
    let example = "The quick brown fox jumps over the lazy dog"
        .to_string()
        .as_bytes()
        .to_vec();
    assert_eq!(
        sha1_encode(&example),
        vec![
            47, 212, 225, 198, 122, 45, 40, 252, 237, 132, 158, 225, 187, 118, 231, 57, 27, 147,
            235, 18
        ]
    )
}

#[test]
fn sha1_of_nothing() {
    assert_eq!(
        sha1_encode(&Vec::new()),
        vec![
            0xda, 0x39, 0xa3, 0xee, 0x5e, 0x6b, 0x4b, 0x0d, 0x32, 0x55, 0xbf, 0xef, 0x95, 0x60,
            0x18, 0x90, 0xaf, 0xd8, 0x07, 0x09
        ]
    );
}

#[test]
fn sha1_of_abc() {
    assert_eq!(
        sha1_encode(&"abc".as_bytes().to_vec()),
        vec![
            0xa9, 0x99, 0x3e, 0x36, 0x47, 0x06, 0x81, 0x6a, 0xba, 0x3e, 0x25, 0x71, 0x78, 0x50,
            0xc2, 0x6c, 0x9c, 0xd0, 0xd8, 0x9d
        ]
    );
}

#[test]
fn sha1_of_two_blocks() {
    let message = "abcdbcdecdefdefgefghfghighijhijkijkljklmklmnlmnomnopnopq"
        .as_bytes()
        .to_vec();
    assert_eq!(
        sha1_encode(&message),
        vec![
            0x84, 0x98, 0x3e, 0x44, 0x1c, 0x3b, 0xd2, 0x6e, 0xba, 0xae, 0x4a, 0xa1, 0xf9, 0x51,
            0x29, 0xe5, 0xe5, 0x46, 0x70, 0xf1
        ]
    );
}

#[test]
fn sha1_at_the_padding_boundaries() {
    // 55 bytes fill one block with the padding, 56 bytes need a second one.
    for len in [55usize, 56, 63, 64, 65, 119, 120, 128] {
        let message = vec![b'a'; len];
        let digest = sha1_encode(&message);
        assert_eq!(digest.len(), 20);
        assert!(check_piece(&message, &digest), "length {}", len);
    }
}

#[test]
fn sha1_of_a_million_a() {
    let message = vec![b'a'; 1_000_000];
    assert_eq!(
        sha1_encode(&message),
        vec![
            0x34, 0xaa, 0x97, 0x3c, 0xd4, 0xc4, 0xda, 0xa4, 0xf6, 0x1e, 0xeb, 0x2b, 0xdb, 0xad,
            0x27, 0x31, 0x65, 0x34, 0x01, 0x6f
        ]
    );
}

#[test]
fn check_piece_accepts_the_digest_and_nothing_else() {
    let piece = "The quick brown fox jumps over the lazy dog".as_bytes().to_vec();
    let digest = vec![
        47, 212, 225, 198, 122, 45, 40, 252, 237, 132, 158, 225, 187, 118, 231, 57, 27, 147, 235,
        18,
    ];
    assert!(check_piece(&piece, &digest));
    let mut wrong = digest.clone();
    wrong[0] = 48;
    assert!(!check_piece(&piece, &wrong));
    assert!(!check_piece(&piece, &digest[..19].to_vec()));
    assert!(!check_piece(&piece, &piece));
    assert!(!check_piece(&Vec::new(), &Vec::new()));
}
