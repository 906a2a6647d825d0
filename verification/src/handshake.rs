use vstd::prelude::*;
use vstd::utf8::encode_utf8;
use crate::bytes::append_bytes;

verus! {

/// The protocol string that a handshake carries where none is given.
pub open spec fn default_pstr() -> Seq<u8> {
    encode_utf8("BitTorrent protocol"@)
}

/// The protocol string of a handshake, in bytes.
pub open spec fn pstr_bytes(pstr_option: Option<String>) -> Seq<u8> {
    match pstr_option {
        Some(s) => encode_utf8(s@),
        None => default_pstr(),
    }
}

/// A handshake: the length of the protocol string in one byte, the protocol
/// string, eight reserved zero bytes, the info hash and the peer id.
pub open spec fn handshake_msg(pstr: Seq<u8>, info_hash: Seq<u8>, peer_id: Seq<u8>) -> Seq<u8> {
    seq![(pstr.len() % 256) as u8] + pstr + Seq::new(8, |i: int| 0u8) + info_hash + peer_id
}

/// Whether `reply` is a whole handshake that names the torrent `info_hash`:
/// after its length byte come that many bytes of protocol string and eight
/// reserved bytes, then 20 bytes equal to `info_hash`, then 20 bytes of peer id.
pub open spec fn reply_matches(reply: Seq<u8>, info_hash: Seq<u8>) -> bool {
    &&& reply.len() >= 1
    &&& reply.len() == 1 + reply[0] + 8 + 20 + 20
    &&& info_hash.len() == 20
    &&& reply.subrange(1 + reply[0] + 8, 1 + reply[0] + 28) == info_hash
}

/// The number of bytes that follow the length byte `pstrlen` of a handshake.
pub open spec fn reply_rest_len(pstrlen: u8) -> nat {
    (pstrlen + 8 + 20 + 20) as nat
}

/// Builds the handshake that opens a peer connection.
pub fn create_handshake_msg(info_hash: &Vec<u8>, peer_id: &Vec<u8>, pstr_option: Option<String>) -> (msg: Vec<u8>)
    ensures
        msg@ == handshake_msg(pstr_bytes(pstr_option), info_hash@, peer_id@),
{
    let mut msg: Vec<u8> = Vec::new();
    let default_pstr: &str = "BitTorrent protocol";
    let pstr: &[u8] = match &pstr_option {
        Some(string) => string.as_str().as_bytes(),
        None => default_pstr.as_bytes(),
    };
    assert(pstr@ == pstr_bytes(pstr_option));
    msg.push((pstr.len() % 256) as u8);
    append_bytes(&mut msg, pstr);
    let mut i: usize = 0;
    while i < 8
        invariant
            i <= 8,
            msg@ == seq![(pstr@.len() % 256) as u8] + pstr@ + Seq::new(i as nat, |k: int| 0u8),
        decreases 8 - i,
    {
        msg.push(0);
        i += 1;
        assert(msg@ =~= seq![(pstr@.len() % 256) as u8] + pstr@ + Seq::new(i as nat, |k: int| 0u8));
    }
    append_bytes(&mut msg, info_hash.as_slice());
    append_bytes(&mut msg, peer_id.as_slice());
    msg
}

/// How many more bytes of a handshake to read once its length byte is known.
pub fn handshake_rest_len(pstrlen: u8) -> (n: usize)
    ensures
        n == reply_rest_len(pstrlen),
{
    pstrlen as usize + 48
}

/// Checks the handshake that a peer sent back: it must be whole and carry
/// our info hash.
pub fn check_handshake_reply(reply: &Vec<u8>, info_hash: &Vec<u8>) -> (ok: bool)
    ensures
        ok == reply_matches(reply@, info_hash@),
{
    if reply.len() < 1 || info_hash.len() != 20 {
        return false;
    }
    let pstrlen: usize = reply[0] as usize;
    if reply.len() != pstrlen + 49 {
        return false;
    }
    let start: usize = pstrlen + 9;
    let mut i: usize = 0;
    while i < 20
        invariant
            i <= 20,
            info_hash.len() == 20,
            start + 40 == reply.len(),
            reply@.subrange(start as int, start + i) == info_hash@.subrange(0, i as int),
        decreases 20 - i,
    {
        if reply[start + i] != info_hash[i] {
            assert(reply@.subrange(start as int, start + 20)[i as int] != info_hash@[i as int]);
            return false;
        }
        i += 1;
        assert(reply@.subrange(start as int, start + i) =~= reply@.subrange(start as int, start + i - 1).push(
            reply@[start + i - 1],
        ));
        assert(info_hash@.subrange(0, i as int) =~= info_hash@.subrange(0, i - 1).push(info_hash@[i - 1]));
    }
    assert(info_hash@.subrange(0, 20) =~= info_hash@);
    true
}

/// The bytes of the protocol string that a handshake carries where none
/// is given: the 19 letters of "BitTorrent protocol".
pub proof fn lemma_default_pstr()
    ensures
        default_pstr() == seq![
            66u8, 105u8, 116u8, 84u8, 111u8, 114u8, 114u8, 101u8, 110u8, 116u8, 32u8, 112u8, 114u8, 111u8, 116u8,
            111u8, 99u8, 111u8, 108u8,
        ],
{
    reveal_strlit("BitTorrent protocol");
    let chars = "BitTorrent protocol"@;
    assert(chars.len() == 19);
    assert(vstd::utf8::is_ascii_chars(chars));
    vstd::utf8::is_ascii_chars_encode_utf8(chars);
    assert(default_pstr() =~= seq![
        66u8, 105u8, 116u8, 84u8, 111u8, 114u8, 114u8, 101u8, 110u8, 116u8, 32u8, 112u8, 114u8, 111u8, 116u8,
        111u8, 99u8, 111u8, 108u8,
    ]);
}

/// The handshake without a protocol string of its own is 68 bytes long
/// and begins with the byte 19, and a reply built the same way for the same
/// torrent is accepted.
pub proof fn lemma_default_handshake(info_hash: Seq<u8>, peer_id: Seq<u8>)
    requires
        info_hash.len() == 20,
        peer_id.len() == 20,
    ensures
        handshake_msg(default_pstr(), info_hash, peer_id).len() == 68,
        handshake_msg(default_pstr(), info_hash, peer_id)[0] == 19,
        reply_matches(handshake_msg(default_pstr(), info_hash, peer_id), info_hash),
{
    lemma_default_pstr();
    let msg = handshake_msg(default_pstr(), info_hash, peer_id);
    assert(msg.subrange(28, 48) =~= info_hash);
}

} // verus!
