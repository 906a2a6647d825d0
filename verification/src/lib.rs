pub mod bencode_content;
pub mod bencode_encoder;
pub mod bitfields;
pub mod bytes;
pub mod descriptor;
pub mod digest;
pub mod download;
pub mod filewriter;
pub mod handshake;
pub mod messages;
pub mod random;
pub mod sha1;
pub mod text;
pub mod torrent_data_extractor;
pub mod torrent_file_parser;
pub mod tracker;
