use vstd::prelude::*;
use crate::bytes::{be_value, push_u32_be, read_u32_be, u32_be};

verus! {

/// Why a framed peer message was rejected.
#[derive(Clone, Copy, Debug, PartialEq, Eq)]
pub enum MessageError {
    /// The message is shorter than a length prefix and an id, or, for a
    /// `piece`, shorter than its fixed header.
    TooShort,
    /// A `piece` was asked for and the id is not 7.
    NotAPiece,
    /// The declared length cannot hold the header of a `piece`.
    LengthTooSmall,
    /// The block does not have the declared length.
    LengthMismatch,
    /// A `have` was asked for and the message does not have its nine bytes.
    NotNineBytes,
    /// A `have` was asked for and the id is not 4.
    NotAHave,
    /// The `have` names another piece than the expected one.
    WrongIndex,
}

/// A `request`: length prefix 13, id 6, then index, offset and length.
pub open spec fn request_msg(index: u32, begin: u32, length: u32) -> Seq<u8> {
    u32_be(13) + seq![6u8] + u32_be(index) + u32_be(begin) + u32_be(length)
}

/// A `have`: length prefix 5, id 4, then the index.
pub open spec fn have_msg(index: u32) -> Seq<u8> {
    u32_be(5) + seq![4u8] + u32_be(index)
}

/// An `unchoke`: length prefix 1, then id 1.
pub open spec fn unchoke_msg() -> Seq<u8> {
    u32_be(1) + seq![1u8]
}

/// An `interested`: length prefix 1, then id 2.
pub open spec fn interested_msg() -> Seq<u8> {
    u32_be(1) + seq![2u8]
}

/// The length that a message declares in its first four bytes.
pub open spec fn declared_len(message: Seq<u8>) -> nat {
    be_value(message.subrange(0, 4))
}

/// What `parse_piece_msg` makes of a framed message: the block of a `piece`,
/// or the first check that fails.
pub open spec fn piece_block(message: Seq<u8>) -> Result<Seq<u8>, MessageError> {
    if message.len() < 13 {
        Err(MessageError::TooShort)
    } else if message[4] != 7 {
        Err(MessageError::NotAPiece)
    } else if declared_len(message) < 9 {
        Err(MessageError::LengthTooSmall)
    } else if message.len() - 13 != declared_len(message) - 9 {
        Err(MessageError::LengthMismatch)
    } else {
        Ok(message.skip(13))
    }
}

/// What `read_message` makes of a framed message: whether the peer choked us,
/// and the block if the message is a `piece`.
pub open spec fn message_meaning(message: Seq<u8>) -> Result<(bool, Option<Seq<u8>>), MessageError> {
    if message.len() < 5 {
        Err(MessageError::TooShort)
    } else if message[4] == 0 {
        Ok((true, None))
    } else if message[4] == 7 {
        match piece_block(message) {
            Ok(block) => Ok((false, Some(block))),
            Err(e) => Err(e),
        }
    } else {
        Ok((false, None))
    }
}

/// What `parse_have_msg` makes of a framed message: nothing is wrong with
/// it if it is a `have` for the piece `expected_index`.
pub open spec fn have_check(expected_index: u32, message: Seq<u8>) -> Result<(), MessageError> {
    if message.len() != 9 {
        Err(MessageError::NotNineBytes)
    } else if message[4] != 4 {
        Err(MessageError::NotAHave)
    } else if be_value(message.subrange(5, 9)) != expected_index {
        Err(MessageError::WrongIndex)
    } else {
        Ok(())
    }
}

/// The view of the result of `read_message`.
pub open spec fn meaning_view(r: Result<(bool, Option<Vec<u8>>), MessageError>) -> Result<
    (bool, Option<Seq<u8>>),
    MessageError,
> {
    match r {
        Ok((choked, Some(block))) => Ok((choked, Some(block@))),
        Ok((choked, None)) => Ok((choked, None)),
        Err(e) => Err(e),
    }
}

/// The view of the result of `parse_piece_msg`.
pub open spec fn block_view(r: Result<Vec<u8>, MessageError>) -> Result<Seq<u8>, MessageError> {
    match r {
        Ok(block) => Ok(block@),
        Err(e) => Err(e),
    }
}

/// Builds a `request` for `length` bytes of piece `index` from offset `begin`.
pub fn create_request_msg(index: u32, begin: u32, length: u32) -> (request: Vec<u8>)
    ensures
        request@ == request_msg(index, begin, length),
        request@.len() == 17,
{
    let mut request: Vec<u8> = Vec::new();
    push_u32_be(&mut request, 13);
    request.push(6);
    push_u32_be(&mut request, index);
    push_u32_be(&mut request, begin);
    push_u32_be(&mut request, length);
    assert(request@ =~= request_msg(index, begin, length));
    request
}

/// Builds a `have` for piece `index`.
pub fn create_have_msg(index: u32) -> (have: Vec<u8>)
    ensures
        have@ == have_msg(index),
        have@.len() == 9,
{
    let mut have: Vec<u8> = Vec::new();
    push_u32_be(&mut have, 5);
    have.push(4);
    push_u32_be(&mut have, index);
    assert(have@ =~= have_msg(index));
    have
}

/// Builds the `unchoke` message.
pub fn create_unchoke_msg() -> (msg: Vec<u8>)
    ensures
        msg@ == unchoke_msg(),
        msg@.len() == 5,
{
    let mut msg: Vec<u8> = Vec::new();
    push_u32_be(&mut msg, 1);
    msg.push(1);
    assert(msg@ =~= unchoke_msg());
    msg
}

/// Builds the `interested` message.
pub fn create_interested_msg() -> (msg: Vec<u8>)
    ensures
        msg@ == interested_msg(),
        msg@.len() == 5,
{
    let mut msg: Vec<u8> = Vec::new();
    push_u32_be(&mut msg, 1);
    msg.push(2);
    assert(msg@ =~= interested_msg());
    msg
}

/// Copies `message` from `from` to its end.
fn tail_of(message: &Vec<u8>, from: usize) -> (tail: Vec<u8>)
    requires
        from <= message.len(),
    ensures
        tail@ == message@.skip(from as int),
{
    let mut tail: Vec<u8> = Vec::new();
    let mut i: usize = from;
    while i < message.len()
        invariant
            from <= i <= message.len(),
            tail@ == message@.subrange(from as int, i as int),
        decreases message.len() - i,
    {
        tail.push(message[i]);
        i += 1;
        assert(tail@ =~= message@.subrange(from as int, i as int));
    }
    assert(tail@ =~= message@.skip(from as int));
    tail
}

/// Takes the block out of a framed `piece` message.
pub fn parse_piece_msg(message: Vec<u8>) -> (block: Result<Vec<u8>, MessageError>)
    ensures
        block_view(block) == piece_block(message@),
{
    if message.len() < 13 {
        return Err(MessageError::TooShort);
    }
    let id: u8 = message[4];
    if id != 7 {
        return Err(MessageError::NotAPiece);
    }
    let len: u32 = read_u32_be(&message, 0);
    if len < 9 {
        return Err(MessageError::LengthTooSmall);
    }
    if message.len() - 13 != (len - 9) as usize {
        return Err(MessageError::LengthMismatch);
    }
    Ok(tail_of(&message, 13))
}

/// Reads a framed message: a `choke` reports that the peer choked us, a
/// `piece` hands out its block, and any other message is passed over.
pub fn read_message(message: Vec<u8>) -> (r: Result<(bool, Option<Vec<u8>>), MessageError>)
    ensures
        meaning_view(r) == message_meaning(message@),
{
    if message.len() < 5 {
        return Err(MessageError::TooShort);
    }
    let id: u8 = message[4];
    if id == 0 {
        Ok((true, None))
    } else if id == 7 {
        match parse_piece_msg(message) {
            Ok(block) => Ok((false, Some(block))),
            Err(e) => Err(e),
        }
    } else {
        Ok((false, None))
    }
}

/// Checks that a framed message is a `have` for the piece `expected_index`.
pub fn parse_have_msg(expected_index: u32, message: Vec<u8>) -> (r: Result<(), MessageError>)
    ensures
        r == have_check(expected_index, message@),
{
    if message.len() != 9 {
        return Err(MessageError::NotNineBytes);
    }
    let id: u8 = message[4];
    if id != 4 {
        return Err(MessageError::NotAHave);
    }
    let index: u32 = read_u32_be(&message, 5);
    if index != expected_index {
        return Err(MessageError::WrongIndex);
    }
    Ok(())
}

/// The `have` that is built for a piece is accepted for that piece, and
/// for no other.
pub proof fn lemma_have_is_accepted(index: u32, expected_index: u32)
    ensures
        have_check(expected_index, have_msg(index)) is Ok <==> index == expected_index,
{
    let m = have_msg(index);
    assert(m.subrange(5, 9) =~= u32_be(index));
    crate::bytes::lemma_u32_be_value(index);
}

/// A `request` is 17 bytes long and a `have` 9; `unchoke` and `interested`
/// are 5 bytes each.
pub proof fn lemma_message_lengths(index: u32, begin: u32, length: u32)
    ensures
        request_msg(index, begin, length).len() == 17,
        have_msg(index).len() == 9,
        unchoke_msg().len() == 5,
        interested_msg().len() == 5,
{
}

/// A `request` declares 13 bytes after its prefix, and its fields read back.
pub proof fn lemma_request_fields(index: u32, begin: u32, length: u32)
    ensures
        declared_len(request_msg(index, begin, length)) == 13,
        request_msg(index, begin, length)[4] == 6,
        be_value(request_msg(index, begin, length).subrange(5, 9)) == index,
        be_value(request_msg(index, begin, length).subrange(9, 13)) == begin,
        be_value(request_msg(index, begin, length).subrange(13, 17)) == length,
{
    let m = request_msg(index, begin, length);
    assert(m.subrange(0, 4) =~= u32_be(13));
    assert(m.subrange(5, 9) =~= u32_be(index));
    assert(m.subrange(9, 13) =~= u32_be(begin));
    assert(m.subrange(13, 17) =~= u32_be(length));
    crate::bytes::lemma_u32_be_value(13);
    crate::bytes::lemma_u32_be_value(index);
    crate::bytes::lemma_u32_be_value(begin);
    crate::bytes::lemma_u32_be_value(length);
}

} // verus!
