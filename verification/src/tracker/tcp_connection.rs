use vstd::prelude::*;
use vstd::string::StringExecFns;
use crate::text::{decimal, hex_digit_str, hex_pair, push_decimal};
use crate::bencode_content::{lookup, Value};
use crate::torrent_data_extractor::{texts, total_size, TorrentData};
use crate::torrent_file_parser::{document, parse_byte_data};
use crate::tracker::{left_to_download, TrackerError};

verus! {

/// Each byte as `%` and its two hexadecimal digits, in upper case.
pub open spec fn percent_encoded(bytes: Seq<u8>) -> Seq<char>
    decreases bytes.len(),
{
    if bytes.len() == 0 {
        Seq::empty()
    } else {
        percent_encoded(bytes.drop_last()) + seq!['%'] + hex_pair(bytes.last())
    }
}

/// The URL of an announce over HTTP.
pub open spec fn tracker_url(tracker: Seq<char>, left: nat, peer_id: Seq<u8>, port: u16, info_hash: Seq<u8>) -> Seq<
    char,
> {
    tracker + "?compact=1&downloaded=0&info_hash="@ + percent_encoded(info_hash) + "&left="@ + decimal(left)
        + "&peer_id="@ + percent_encoded(peer_id) + "&port="@ + decimal(port as nat) + "&uploaded=0"@
}

/// One entry of a compact peer list as text: the four bytes of the
/// address in decimal with dots between them, a colon, and the port.
pub open spec fn peer_address(entry: Seq<u8>) -> Seq<char> {
    decimal(entry[0] as nat) + seq!['.'] + decimal(entry[1] as nat) + seq!['.'] + decimal(entry[2] as nat)
        + seq!['.'] + decimal(entry[3] as nat) + seq![':'] + decimal((entry[4] as nat) * 256 + entry[5] as nat)
}

/// The whole entries of a compact peer list, as texts. Bytes after the
/// last whole entry are passed over.
pub open spec fn peer_addresses(bytes: Seq<u8>) -> Seq<Seq<char>> {
    Seq::new(bytes.len() / 6, |i: int| peer_address(bytes.subrange(6 * i, 6 * i + 6)))
}

/// The length of an encoded byte string is three times that of the bytes.
pub proof fn lemma_percent_encoded_len(bytes: Seq<u8>)
    ensures
        percent_encoded(bytes).len() == 3 * bytes.len(),
    decreases bytes.len(),
{
    if bytes.len() > 0 {
        lemma_percent_encoded_len(bytes.drop_last());
    }
}

/// Encoding goes byte by byte: the characters at `3 * i` and after it are
/// `%` and the two digits of byte `i`.
pub proof fn lemma_percent_encoded_at(bytes: Seq<u8>, i: int)
    requires
        0 <= i < bytes.len(),
    ensures
        percent_encoded(bytes).len() == 3 * bytes.len(),
        percent_encoded(bytes)[3 * i] == '%',
        percent_encoded(bytes)[3 * i + 1] == hex_pair(bytes[i])[0],
        percent_encoded(bytes)[3 * i + 2] == hex_pair(bytes[i])[1],
    decreases bytes.len(),
{
    lemma_percent_encoded_len(bytes);
    lemma_percent_encoded_len(bytes.drop_last());
    if i < bytes.len() - 1 {
        lemma_percent_encoded_at(bytes.drop_last(), i);
    }
}

/// The byte `decimal` as two hexadecimal digits, in upper case.
pub fn u8_decimal_to_hex(decimal: &u8) -> (hex: String)
    ensures
        hex@ == hex_pair(*decimal),
{
    let mut hex = String::new();
    let first_digit: u8 = *decimal / 16;
    let second_digit: u8 = *decimal % 16;
    hex.append(hex_digit_str(first_digit));
    hex.append(hex_digit_str(second_digit));
    assert(hex@ =~= hex_pair(*decimal));
    hex
}

/// Encodes bytes for a URL: each as `%` and two hexadecimal digits.
pub fn bytes_to_url(bytes: &Vec<u8>) -> (url: String)
    ensures
        url@ == percent_encoded(bytes@),
        url@.len() == 3 * bytes@.len(),
{
    let mut url = String::new();
    let mut i: usize = 0;
    proof {
        reveal_strlit("%");
    }
    while i < bytes.len()
        invariant
            i <= bytes@.len(),
            url@ == percent_encoded(bytes@.subrange(0, i as int)),
            "%"@ == seq!['%'],
        decreases bytes@.len() - i,
    {
        url.append("%");
        let hex = u8_decimal_to_hex(&bytes[i]);
        url.append(hex.as_str());
        i += 1;
        proof {
            let now = bytes@.subrange(0, i as int);
            assert(now.drop_last() =~= bytes@.subrange(0, i - 1));
            assert(now.last() == bytes@[i - 1]);
        }
    }
    proof {
        assert(bytes@.subrange(0, i as int) =~= bytes@);
        lemma_percent_encoded_len(bytes@);
    }
    url
}

/// Builds the URL of the announce of a torrent to the tracker at `tracker`.
pub fn create_tcp_tracker_url(
    tracker: String,
    torrent_data: &TorrentData,
    peer_id: &Vec<u8>,
    port: u16,
    info_hash: &Vec<u8>,
) -> (url: String)
    ensures
        url@ == tracker_url(tracker@, total_size(torrent_data@.files), peer_id@, port, info_hash@),
{
    let mut url = String::new();
    url.append(tracker.as_str());
    url.append("?compact=1&downloaded=0&info_hash=");
    url.append(bytes_to_url(info_hash).as_str());
    url.append("&left=");
    push_decimal(&mut url, left_to_download(torrent_data));
    url.append("&peer_id=");
    url.append(bytes_to_url(peer_id).as_str());
    url.append("&port=");
    push_decimal(&mut url, port as u128);
    url.append("&uploaded=0");
    assert(url@ =~= tracker_url(tracker@, total_size(torrent_data@.files), peer_id@, port, info_hash@));
    url
}

/// One entry of a compact peer list, six bytes from `at` on, as text.
pub fn peer_address_at(bytes: &Vec<u8>, at: usize) -> (address: String)
    requires
        at + 6 <= bytes.len(),
    ensures
        address@ == peer_address(bytes@.subrange(at as int, at + 6)),
{
    let mut ip = String::new();
    proof {
        reveal_strlit(".");
        reveal_strlit(":");
    }
    push_decimal(&mut ip, bytes[at] as u128);
    ip.append(".");
    push_decimal(&mut ip, bytes[at + 1] as u128);
    ip.append(".");
    push_decimal(&mut ip, bytes[at + 2] as u128);
    ip.append(".");
    push_decimal(&mut ip, bytes[at + 3] as u128);
    ip.append(":");
    let port: u16 = (bytes[at + 4] as u16) * 256 + bytes[at + 5] as u16;
    push_decimal(&mut ip, port as u128);
    assert(ip@ =~= peer_address(bytes@.subrange(at as int, at + 6)));
    ip
}

/// The peers of a compact peer list that begins at `from`, as texts.
pub fn compact_peers(bytes: &Vec<u8>, from: usize) -> (peers: Vec<String>)
    requires
        from <= bytes.len(),
    ensures
        crate::torrent_data_extractor::texts(peers@) == peer_addresses(bytes@.skip(from as int)),
{
    let mut peers: Vec<String> = Vec::new();
    let count: usize = (bytes.len() - from) / 6;
    let ghost list = bytes@.skip(from as int);
    let mut i: usize = 0;
    while i < count
        invariant
            i <= count,
            count == (bytes@.len() - from) / 6,
            6 * count <= bytes@.len() - from,
            from <= bytes@.len() <= usize::MAX,
            list == bytes@.skip(from as int),
            peers@.len() == i,
            forall|j: int| 0 <= j < i ==> (#[trigger] peers@[j])@ == peer_address(list.subrange(6 * j, 6 * j + 6)),
        decreases count - i,
    {
        let at: usize = from + 6 * i;
        let address = peer_address_at(bytes, at);
        assert(bytes@.subrange(at as int, at + 6) =~= list.subrange(6 * i, 6 * i + 6));
        peers.push(address);
        i += 1;
    }
    assert(crate::torrent_data_extractor::texts(peers@) =~= peer_addresses(list));
    peers
}

/// What `parse_tracker_response` makes of the body of an HTTP response:
/// the peers and the interval, or the first thing that is wrong with it.
pub open spec fn tracker_answer(data: Seq<u8>) -> Result<(Seq<Seq<char>>, int), TrackerError> {
    match document(data) {
        Err(e) => Err(TrackerError::Malformed(e)),
        Ok((entries, _)) => if lookup(entries, "failure reason"@) is Some {
            Err(TrackerError::Failure)
        } else {
            match lookup(entries, "peers"@) {
                None => Err(TrackerError::MissingPeers),
                Some(Value::Bytes(peers)) => match lookup(entries, "interval"@) {
                    None => Err(TrackerError::MissingInterval),
                    Some(Value::Int(interval)) => if peers.len() % 6 != 0 {
                        Err(TrackerError::CorruptedPeers)
                    } else {
                        Ok((peer_addresses(peers), interval))
                    },
                    Some(_) => Err(TrackerError::IntervalNotInt),
                },
                Some(_) => Err(TrackerError::PeersNotBytes),
            }
        },
    }
}

/// Reads the body of the response of an HTTP tracker: a bencoded
/// dictionary with the peers in the compact form and the interval, unless
/// the tracker gives a reason for its failure.
pub fn parse_tracker_response(data: &Vec<u8>) -> (r: Result<(Vec<String>, i64), TrackerError>)
    ensures
        match tracker_answer(data@) {
            Ok((peers, interval)) => r matches Ok((list, n)) && texts(list@) == peers && n == interval,
            Err(e) => r == Err::<(Vec<String>, i64), TrackerError>(e),
        },
{
    let response_data = match parse_byte_data(data) {
        Ok(d) => d,
        Err(e) => {
            return Err(TrackerError::Malformed(e));
        },
    };
    if response_data.get("failure reason").is_some() {
        return Err(TrackerError::Failure);
    }
    let peers: &Vec<u8> = match response_data.get("peers") {
        None => {
            return Err(TrackerError::MissingPeers);
        },
        Some(content) => match content.get_bytes() {
            None => {
                return Err(TrackerError::PeersNotBytes);
            },
            Some(bytes) => bytes,
        },
    };
    let interval: i64 = match response_data.get("interval") {
        None => {
            return Err(TrackerError::MissingInterval);
        },
        Some(content) => match content.get_int() {
            None => {
                return Err(TrackerError::IntervalNotInt);
            },
            Some(n) => *n,
        },
    };
    if peers.len() % 6 != 0 {
        return Err(TrackerError::CorruptedPeers);
    }
    let peers_list = compact_peers(peers, 0);
    assert(peers@.skip(0) =~= peers@);
    Ok((peers_list, interval))
}

} // verus!
