use vstd::prelude::*;
use crate::bytes::{
    append_bytes, be_value, push_u16_be, push_u32_be, push_u64_be, read_u32_be, read_u64_be, u16_be, u32_be, u64_be,
};
use crate::random::random_u32;
use crate::torrent_data_extractor::{texts, total_size, TorrentData};
use crate::tracker::left_to_download;
use crate::tracker::tcp_connection::{compact_peers, peer_addresses};
use crate::tracker::TrackerError;

verus! {

/// The number that opens every connect request.
pub const PROTOCOL_ID: u64 = 0x41727101980;

/// The key that our announces carry.
pub const ANNOUNCE_KEY: u32 = 7561816;

/// A connect request: the protocol id, the action 0, the transaction id.
pub open spec fn connect_msg(transaction_id: u32) -> Seq<u8> {
    u64_be(PROTOCOL_ID) + u32_be(0) + u32_be(transaction_id)
}

/// An announce: the connection id, the action 1, the transaction id, the
/// info hash, the peer id, nothing downloaded, what is left, nothing
/// uploaded, no event, no address, our key, no limit on the peers wanted
/// (-1), and our port.
pub open spec fn announce_msg(
    connection_id: u64,
    transaction_id: u32,
    info_hash: Seq<u8>,
    peer_id: Seq<u8>,
    left: u64,
    port: u16,
) -> Seq<u8> {
    u64_be(connection_id) + u32_be(1) + u32_be(transaction_id) + info_hash + peer_id + u64_be(0) + u64_be(left)
        + u64_be(0) + u32_be(0) + u32_be(0) + u32_be(ANNOUNCE_KEY) + u32_be(0xffff_ffff) + u16_be(port)
}

/// What `check_udp_response` makes of the answer to a connect request.
pub open spec fn connection_id_of(response: Seq<u8>, transaction_id: u32) -> Result<u64, TrackerError> {
    if response.len() < 16 {
        Err(TrackerError::TooShort)
    } else if be_value(response.subrange(0, 4)) != 0 {
        Err(TrackerError::WrongAction)
    } else if be_value(response.subrange(4, 8)) != transaction_id {
        Err(TrackerError::WrongTransaction)
    } else {
        Ok(be_value(response.subrange(8, 16)) as u64)
    }
}

/// What `parse_udp_announce_response` makes of the answer to an announce:
/// the peers and the interval.
pub open spec fn announce_answer(response: Seq<u8>, transaction_id: u32) -> Result<(Seq<Seq<char>>, int), TrackerError> {
    if response.len() < 20 {
        Err(TrackerError::TooShort)
    } else if be_value(response.subrange(0, 4)) != 1 {
        Err(TrackerError::WrongAction)
    } else if be_value(response.subrange(4, 8)) != transaction_id {
        Err(TrackerError::WrongTransaction)
    } else {
        Ok((peer_addresses(response.skip(20)), be_value(response.subrange(8, 12)) as int))
    }
}

/// The view of an answer with peers.
pub open spec fn answer_view(r: Result<(Vec<String>, i64), TrackerError>) -> Result<(Seq<Seq<char>>, int), TrackerError> {
    match r {
        Ok((peers, interval)) => Ok((texts(peers@), interval as int)),
        Err(e) => Err(e),
    }
}

/// Builds the connect request of the transaction `transaction_id`.
pub fn connect_request(transaction_id: u32) -> (handshake_bytes: Vec<u8>)
    ensures
        handshake_bytes@ == connect_msg(transaction_id),
        handshake_bytes@.len() == 16,
{
    let mut handshake_bytes: Vec<u8> = Vec::new();
    push_u64_be(&mut handshake_bytes, PROTOCOL_ID);
    push_u32_be(&mut handshake_bytes, 0);
    push_u32_be(&mut handshake_bytes, transaction_id);
    assert(handshake_bytes@ =~= connect_msg(transaction_id));
    handshake_bytes
}

/// Builds a connect request under a random transaction id, and hands out
/// that id with it.
pub fn create_udp_handshake() -> (r: (Vec<u8>, u32))
    ensures
        r.0@ == connect_msg(r.1),
        r.0@.len() == 16,
{
    let transaction_id: u32 = random_u32();
    (connect_request(transaction_id), transaction_id)
}

/// Checks the answer to a connect request and takes the connection id
/// out of it.
pub fn check_udp_response(response: &Vec<u8>, transaction_id: u32) -> (r: Result<u64, TrackerError>)
    ensures
        r == connection_id_of(response@, transaction_id),
{
    if response.len() < 16 {
        return Err(TrackerError::TooShort);
    }
    if read_u32_be(response, 0) != 0 {
        return Err(TrackerError::WrongAction);
    }
    if read_u32_be(response, 4) != transaction_id {
        return Err(TrackerError::WrongTransaction);
    }
    Ok(read_u64_be(response, 8))
}

/// Builds the announce of the transaction `transaction_id`.
pub fn announce_request(
    connection_id: u64,
    transaction_id: u32,
    torrent_data: &TorrentData,
    peer_id: &Vec<u8>,
    port: u16,
    info_hash: &Vec<u8>,
) -> (announce_bytes: Vec<u8>)
    requires
        total_size(torrent_data@.files) <= u64::MAX,
    ensures
        announce_bytes@ == announce_msg(
            connection_id,
            transaction_id,
            info_hash@,
            peer_id@,
            total_size(torrent_data@.files) as u64,
            port,
        ),
        info_hash@.len() == 20 && peer_id@.len() == 20 ==> announce_bytes@.len() == 98,
{
    let mut announce_bytes: Vec<u8> = Vec::new();
    push_u64_be(&mut announce_bytes, connection_id);
    push_u32_be(&mut announce_bytes, 1);
    push_u32_be(&mut announce_bytes, transaction_id);
    append_bytes(&mut announce_bytes, info_hash.as_slice());
    append_bytes(&mut announce_bytes, peer_id.as_slice());
    push_u64_be(&mut announce_bytes, 0);
    let left: u64 = left_to_download(torrent_data) as u64;
    push_u64_be(&mut announce_bytes, left);
    push_u64_be(&mut announce_bytes, 0);
    push_u32_be(&mut announce_bytes, 0);
    push_u32_be(&mut announce_bytes, 0);
    push_u32_be(&mut announce_bytes, ANNOUNCE_KEY);
    push_u32_be(&mut announce_bytes, 0xffff_ffff);
    push_u16_be(&mut announce_bytes, port);
    announce_bytes
}

/// Builds an announce under a random transaction id, and hands out that
/// id with it.
pub fn create_udp_announce(
    connection_id: u64,
    torrent_data: &TorrentData,
    peer_id: &Vec<u8>,
    port: u16,
    info_hash: &Vec<u8>,
) -> (r: (Vec<u8>, u32))
    requires
        total_size(torrent_data@.files) <= u64::MAX,
    ensures
        r.0@ == announce_msg(
            connection_id,
            r.1,
            info_hash@,
            peer_id@,
            total_size(torrent_data@.files) as u64,
            port,
        ),
{
    let transaction_id: u32 = random_u32();
    (announce_request(connection_id, transaction_id, torrent_data, peer_id, port, info_hash), transaction_id)
}

/// Checks the answer to an announce and takes the peers and the interval
/// out of it.
pub fn parse_udp_announce_response(response: Vec<u8>, transaction_id: u32) -> (r: Result<
    (Vec<String>, i64),
    TrackerError,
>)
    ensures
        answer_view(r) == announce_answer(response@, transaction_id),
{
    if response.len() < 20 {
        return Err(TrackerError::TooShort);
    }
    if read_u32_be(&response, 0) != 1 {
        return Err(TrackerError::WrongAction);
    }
    if read_u32_be(&response, 4) != transaction_id {
        return Err(TrackerError::WrongTransaction);
    }
    let interval: u32 = read_u32_be(&response, 8);
    let peers_list = compact_peers(&response, 20);
    Ok((peers_list, interval as i64))
}

} // verus!
