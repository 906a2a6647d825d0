use vstd::prelude::*;
use crate::bencode_content::lookup;
use crate::digest::sha1_of;
use crate::torrent_data_extractor::{descriptor_of, extract_data, ExtractError, TorrentData, TorrentView};
use crate::torrent_file_parser::{
    document, info_bytes, lemma_info_range_is_the_value, parse_torrent_file, ParseError,
};

verus! {

/// Why the bytes of a metainfo file describe no torrent.
#[derive(Clone, Copy, Debug, PartialEq, Eq, Structural)]
pub enum Malformed {
    /// The bytes are no bencoded dictionary.
    Bencode(ParseError),
    /// The dictionary lacks a field, or has one of the wrong kind.
    Metainfo(ExtractError),
}

/// A torrent: what its metainfo file says of it, and its info hash, by
/// which trackers and peers know it.
#[derive(Debug, Clone)]
pub struct TorrentDescriptor {
    pub torrent_data: TorrentData,
    pub info_hash: Vec<u8>,
}

/// What `read_descriptor` makes of the bytes of a metainfo file: the
/// description of the torrent and the bytes of the value under `info`, of
/// which the info hash is the digest.
pub open spec fn described(data: Seq<u8>) -> Result<(TorrentView, Seq<u8>), Malformed> {
    match document(data) {
        Err(e) => Err(Malformed::Bencode(e)),
        Ok((entries, info)) => match descriptor_of(entries) {
            Err(e) => Err(Malformed::Metainfo(e)),
            Ok(torrent) => Ok((torrent, info_bytes(data, info))),
        },
    }
}

/// A document that describes a torrent has a value under `info`, and the
/// bytes that are hashed are the bytes of that value: they begin and end
/// within the buffer, and there is at least one.
pub proof fn lemma_described_has_info(data: Seq<u8>)
    requires
        described(data) is Ok,
    ensures
        document(data)->Ok_0.1 matches Some((start, end)) && 0 < start < end <= data.len() && described(
            data,
        )->Ok_0.1 == data.subrange(start, end),
{
    lemma_info_range_is_the_value(data);
    let entries = document(data)->Ok_0.0;
    assert(lookup(entries, "info"@) is Some);
}

/// Reads the bytes of a metainfo file into the descriptor of its torrent.
/// The info hash is the digest of the bytes of the value under `info`
/// just as they stand in the file.
pub fn read_descriptor(binary_contents: &Vec<u8>) -> (r: Result<TorrentDescriptor, Malformed>)
    ensures
        match described(binary_contents@) {
            Ok((torrent, hashed)) => r matches Ok(d) && d.torrent_data@ == torrent && d.torrent_data@.well_formed()
                && d.info_hash@ == sha1_of(hashed) && d.info_hash@.len() == 20,
            Err(e) => r matches Err(f) && f == e,
        },
{
    match parse_torrent_file(binary_contents) {
        Err(e) => Err(Malformed::Bencode(e)),
        Ok((torrent_contents, info_hash)) => match extract_data(torrent_contents) {
            Err(e) => Err(Malformed::Metainfo(e)),
            Ok(torrent_data) => Ok(TorrentDescriptor { torrent_data, info_hash }),
        },
    }
}

} // verus!
