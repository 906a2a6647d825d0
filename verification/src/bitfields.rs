use vstd::prelude::*;
use crate::bytes::{be_value, read_u32_be};

verus! {

/// Why the first message of a peer was not taken as its bitfield.
#[derive(Clone, Copy, Debug, PartialEq, Eq)]
pub enum BitfieldError {
    /// The message is shorter than a length prefix and an id.
    TooShort,
    /// The declared length is not that of the expected bitfield and its id.
    WrongLength,
    /// The id is not 5.
    WrongId,
    /// The payload does not have the declared length.
    Truncated,
}

/// The number of bytes that a bitfield for `pieces` pieces takes.
pub open spec fn bitfield_len(pieces: nat) -> nat {
    if pieces % 8 > 0 {
        pieces / 8 + 1
    } else {
        pieces / 8
    }
}

/// Whether bit `index` is set, counting from the most significant bit of the
/// first byte. Beyond the end of the bitfield no bit is set.
pub open spec fn has_piece(bitfield: Seq<u8>, index: nat) -> bool {
    index / 8 < bitfield.len() && (bitfield[(index / 8) as int] >> ((7 - index % 8) as u8)) & 1 == 1
}

/// What `parse_bitfield` makes of a framed message.
pub open spec fn bitfield_of(message: Seq<u8>, expected_length: nat) -> Result<Seq<u8>, BitfieldError> {
    if message.len() < 5 {
        Err(BitfieldError::TooShort)
    } else if be_value(message.subrange(0, 4)) != expected_length + 1 {
        Err(BitfieldError::WrongLength)
    } else if message[4] != 5 {
        Err(BitfieldError::WrongId)
    } else if message.len() - 5 != expected_length {
        Err(BitfieldError::Truncated)
    } else {
        Ok(message.skip(5))
    }
}

/// The view of the result of `parse_bitfield`.
pub open spec fn bitfield_view(r: Result<Vec<u8>, BitfieldError>) -> Result<Seq<u8>, BitfieldError> {
    match r {
        Ok(b) => Ok(b@),
        Err(e) => Err(e),
    }
}

/// The number of bytes of a bitfield for `pieces` pieces.
pub fn bitfield_length(pieces: usize) -> (n: usize)
    ensures
        n == bitfield_len(pieces as nat),
{
    if pieces % 8 > 0 {
        pieces / 8 + 1
    } else {
        pieces / 8
    }
}

/// Whether the peer that sent `bitfield` has piece `index`.
pub fn peer_has_piece(bitfield: &Vec<u8>, index: usize) -> (has: bool)
    ensures
        has == has_piece(bitfield@, index as nat),
{
    if index / 8 >= bitfield.len() {
        return false;
    }
    let shift: u8 = (7 - index % 8) as u8;
    (bitfield[index / 8] >> shift) & 1 == 1
}

/// Takes the bitfield out of the first framed message of a peer. The message
/// is accepted if it declares the length of the expected bitfield and one id
/// byte, has the id 5, and holds exactly the bytes it declares.
pub fn parse_bitfield(message: &Vec<u8>, expected_length: usize) -> (r: Result<Vec<u8>, BitfieldError>)
    ensures
        bitfield_view(r) == bitfield_of(message@, expected_length as nat),
{
    if message.len() < 5 {
        return Err(BitfieldError::TooShort);
    }
    let length: u32 = read_u32_be(message, 0);
    if length == 0 || (length - 1) as usize != expected_length {
        return Err(BitfieldError::WrongLength);
    }
    if message[4] != 5 {
        return Err(BitfieldError::WrongId);
    }
    if message.len() - 5 != expected_length {
        return Err(BitfieldError::Truncated);
    }
    let mut bitfield: Vec<u8> = Vec::new();
    let mut i: usize = 5;
    while i < message.len()
        invariant
            5 <= i <= message.len(),
            bitfield@ == message@.subrange(5, i as int),
        decreases message.len() - i,
    {
        bitfield.push(message[i]);
        i += 1;
        assert(bitfield@ =~= message@.subrange(5, i as int));
    }
    assert(bitfield@ =~= message@.skip(5));
    Ok(bitfield)
}

} // verus!
