use vstd::prelude::*;
use vstd::string::StringExecFns;
use vstd::utf8::{decode_utf8, valid_utf8};
use crate::bencode_content::{
    distinct_keys, has_key, item_views, lemma_content_views, lemma_lookup_entry, lemma_lookup_has_key,
    lemma_lookup_push, lookup, Content, Dict, Entries, Value,
};
use crate::bytes::copy_range;
use crate::digest::{sha1_digest, sha1_of};

verus! {

/// Why a byte buffer was not taken as bencode.
#[derive(Clone, Copy, Debug, PartialEq, Eq, Structural)]
pub enum ParseError {
    /// A byte that cannot stand where it stands: no value begins with it,
    /// a text is not UTF-8, or a dictionary has something else than a
    /// string for a key.
    UnexpectedByte,
    /// The digits of an integer or of a length are no number, or the
    /// integer does not fit 64 bits.
    MalformedInteger,
    /// A value runs past the end of the buffer.
    LengthOverrun,
    /// A dictionary has the same key twice.
    DuplicateKey,
    /// Bytes follow the value.
    TrailingGarbage,
}

/// Whether `b` is an ASCII digit.
pub open spec fn is_digit(b: u8) -> bool {
    48 <= b <= 57
}

/// Whether `text` is made of ASCII digits, and of one at least.
pub open spec fn is_number(text: Seq<u8>) -> bool {
    text.len() > 0 && forall|i: int| 0 <= i < text.len() ==> is_digit(#[trigger] text[i])
}

/// The number that the digits `text` write in decimal.
pub open spec fn number(text: Seq<u8>) -> nat
    decreases text.len(),
{
    if text.len() == 0 {
        0
    } else {
        number(text.drop_last()) * 10 + (text.last() - 48) as nat
    }
}

/// The first place at or after `from` where `data` has the byte `byte`,
/// or the length of `data` if there is none.
pub open spec fn first_at(data: Seq<u8>, from: int, byte: u8) -> int
    decreases data.len() - from,
{
    if from < 0 || from >= data.len() {
        data.len() as int
    } else if data[from] == byte {
        from
    } else {
        first_at(data, from + 1, byte)
    }
}

/// The integer that `text` writes: a sign or none, then digits, within
/// 64 bits.
pub open spec fn int_of_text(text: Seq<u8>) -> Option<int> {
    let signed = text.len() > 0 && (text[0] == 45 || text[0] == 43);
    let digits = if signed {
        text.skip(1)
    } else {
        text
    };
    let value = if text.len() > 0 && text[0] == 45 {
        -(number(digits) as int)
    } else {
        number(digits) as int
    };
    if is_number(digits) && i64::MIN <= value <= i64::MAX {
        Some(value)
    } else {
        None
    }
}

/// The length that `text` writes: a plus sign or none, then digits.
pub open spec fn len_of_text(text: Seq<u8>) -> Option<nat> {
    let digits = if text.len() > 0 && text[0] == 43 {
        text.skip(1)
    } else {
        text
    };
    if is_number(digits) {
        Some(number(digits))
    } else {
        None
    }
}

/// The integer whose text begins at `pos` and ends before the next `e`,
/// and the place after that `e`.
pub open spec fn int_at(data: Seq<u8>, pos: int) -> Result<(int, int), ParseError> {
    let end = first_at(data, pos, 101);
    if pos < 0 || end >= data.len() {
        Err(ParseError::LengthOverrun)
    } else {
        match int_of_text(data.subrange(pos, end)) {
            Some(value) => Ok((value, end + 1)),
            None => Err(ParseError::MalformedInteger),
        }
    }
}

/// The byte string that begins at `pos` with its length and a colon, and
/// the place after its last byte.
pub open spec fn bytes_at(data: Seq<u8>, pos: int) -> Result<(Seq<u8>, int), ParseError> {
    let colon = first_at(data, pos, 58);
    if pos < 0 || colon >= data.len() {
        Err(ParseError::LengthOverrun)
    } else {
        match len_of_text(data.subrange(pos, colon)) {
            None => Err(ParseError::MalformedInteger),
            Some(n) => if colon + 1 + n > data.len() {
                Err(ParseError::LengthOverrun)
            } else {
                Ok((data.subrange(colon + 1, colon + 1 + n), colon + 1 + n))
            },
        }
    }
}

/// The text that begins at `pos`: a byte string that is UTF-8.
pub open spec fn string_at(data: Seq<u8>, pos: int) -> Result<(Seq<char>, int), ParseError> {
    match bytes_at(data, pos) {
        Err(e) => Err(e),
        Ok((bytes, end)) => if valid_utf8(bytes) {
            Ok((decode_utf8(bytes), end))
        } else {
            Err(ParseError::UnexpectedByte)
        },
    }
}

/// Whether the byte string under `key` is kept raw.
pub open spec fn keeps_raw(key: Seq<char>) -> bool {
    key == "pieces"@ || key == "peers"@ || key == "peers6"@
}

/// The value that begins at `pos`, and the place after it.
pub open spec fn value_at(data: Seq<u8>, pos: int) -> Result<(Value, int), ParseError>
    decreases data.len() - pos, 0int,
{
    if pos < 0 || pos >= data.len() {
        Err(ParseError::LengthOverrun)
    } else if data[pos] == 105 {
        match int_at(data, pos + 1) {
            Ok((n, end)) => Ok((Value::Int(n), end)),
            Err(e) => Err(e),
        }
    } else if is_digit(data[pos]) {
        match string_at(data, pos) {
            Ok((s, end)) => Ok((Value::Str(s), end)),
            Err(e) => Err(e),
        }
    } else if data[pos] == 108 {
        match list_at(data, pos + 1, Seq::empty()) {
            Ok((items, end)) => Ok((Value::List(items), end)),
            Err(e) => Err(e),
        }
    } else if data[pos] == 100 {
        match dict_at(data, pos + 1, Seq::empty(), None) {
            Ok((entries, _, end)) => Ok((Value::Dict(entries), end)),
            Err(e) => Err(e),
        }
    } else {
        Err(ParseError::UnexpectedByte)
    }
}

/// The items of a list from `pos` up to its `e`, after the items `items`,
/// and the place after that `e`. (A value takes at least one byte and ends
/// within the buffer: the test of that is there for the definition to be
/// well founded.)
pub open spec fn list_at(data: Seq<u8>, pos: int, items: Seq<Value>) -> Result<(Seq<Value>, int), ParseError>
    decreases data.len() - pos, 1int,
{
    if pos < 0 || pos >= data.len() {
        Err(ParseError::LengthOverrun)
    } else if data[pos] == 101 {
        Ok((items, pos + 1))
    } else {
        match value_at(data, pos) {
            Err(e) => Err(e),
            Ok((item, next)) => if next <= pos || next > data.len() {
                Err(ParseError::LengthOverrun)
            } else {
                list_at(data, next, items.push(item))
            },
        }
    }
}

/// The value of a dictionary entry that begins at `pos` under the key
/// `key`: a byte string is kept raw under some keys and is a text under
/// all others.
pub open spec fn entry_value_at(data: Seq<u8>, pos: int, key: Seq<char>) -> Result<(Value, int), ParseError>
    decreases data.len() - pos, 1int,
{
    if 0 <= pos < data.len() && is_digit(data[pos]) && keeps_raw(key) {
        match bytes_at(data, pos) {
            Ok((b, end)) => Ok((Value::Bytes(b), end)),
            Err(e) => Err(e),
        }
    } else {
        value_at(data, pos)
    }
}

/// The entries of a dictionary from `pos` up to its `e`, after the entries
/// `entries`; the places where the value under `info` begins and ends, if
/// that key was met, `info` being what was known of them before; and the
/// place after that `e`. A key that the `e` follows at once has no value
/// and makes no entry.
pub open spec fn dict_at(data: Seq<u8>, pos: int, entries: Entries, info: Option<(int, int)>) -> Result<
    (Entries, Option<(int, int)>, int),
    ParseError,
>
    decreases data.len() - pos, 2int,
{
    if pos < 0 || pos >= data.len() {
        Err(ParseError::LengthOverrun)
    } else if data[pos] == 101 {
        Ok((entries, info, pos + 1))
    } else if !is_digit(data[pos]) {
        Err(ParseError::UnexpectedByte)
    } else {
        match string_at(data, pos) {
            Err(e) => Err(e),
            Ok((key, start)) => if has_key(entries, key) {
                Err(ParseError::DuplicateKey)
            } else if start <= pos {
                Err(ParseError::LengthOverrun)
            } else if start < data.len() && data[start] == 101 {
                Ok((entries, info, start + 1))
            } else {
                match entry_value_at(data, start, key) {
                    Err(e) => Err(e),
                    Ok((value, next)) => if next <= start || next > data.len() {
                        Err(ParseError::LengthOverrun)
                    } else {
                        dict_at(
                            data,
                            next,
                            entries.push((key, value)),
                            if key == "info"@ {
                                Some((start, next))
                            } else {
                                info
                            },
                        )
                    },
                }
            },
        }
    }
}

/// What a whole buffer holds: a dictionary from its first byte to its
/// last, and the places where the value under `info` begins and ends.
pub open spec fn document(data: Seq<u8>) -> Result<(Entries, Option<(int, int)>), ParseError> {
    if data.len() == 0 {
        Err(ParseError::LengthOverrun)
    } else if data[0] != 100 {
        Err(ParseError::UnexpectedByte)
    } else {
        match dict_at(data, 1, Seq::empty(), None) {
            Err(e) => Err(e),
            Ok((entries, info, end)) => if end != data.len() {
                Err(ParseError::TrailingGarbage)
            } else {
                Ok((entries, info))
            },
        }
    }
}

/// The bytes of the value under `info`; none where that key was not met.
pub open spec fn info_bytes(data: Seq<u8>, info: Option<(int, int)>) -> Seq<u8> {
    match info {
        Some((start, end)) => data.subrange(start, end),
        None => Seq::empty(),
    }
}

/// Up to the first place where `data` has `byte`, it does not have it.
pub proof fn lemma_first_at(data: Seq<u8>, from: int, byte: u8)
    requires
        0 <= from <= data.len(),
    ensures
        from <= first_at(data, from, byte) <= data.len(),
        first_at(data, from, byte) < data.len() ==> data[first_at(data, from, byte)] == byte,
        forall|i: int| from <= i < first_at(data, from, byte) ==> data[i] != byte,
    decreases data.len() - from,
{
    if from < data.len() && data[from] != byte {
        lemma_first_at(data, from + 1, byte);
    }
}

/// Places without `byte` can be passed over.
pub proof fn lemma_first_at_skips(data: Seq<u8>, from: int, to: int, byte: u8)
    requires
        0 <= from <= to <= data.len(),
        forall|i: int| from <= i < to ==> data[i] != byte,
    ensures
        first_at(data, from, byte) == first_at(data, to, byte),
    decreases to - from,
{
    if from < to {
        lemma_first_at_skips(data, from + 1, to, byte);
    }
}

/// A digit more makes the number at least as large.
pub proof fn lemma_number_grows(text: Seq<u8>)
    requires
        text.len() > 0,
        is_digit(text.last()),
    ensures
        number(text) >= number(text.drop_last()),
        number(text) == number(text.drop_last()) * 10 + (text.last() - 48),
{
}

/// Turns bytes into a text.
///
/// Trusted: calls `String::from_utf8`. The contract claims what the
/// documentation of that function says: it succeeds exactly on UTF-8, and
/// the text is then the one that the bytes encode.
#[verifier::external_body]
pub(crate) fn string_from_utf8(bytes: Vec<u8>) -> (r: Option<String>)
    ensures
        r is Some <==> valid_utf8(bytes@),
        r matches Some(s) ==> s@ == decode_utf8(bytes@),
{
    match String::from_utf8(bytes) {
        Ok(s) => Some(s),
        Err(_) => None,
    }
}

/// The first place at or after `from` where `data` has `byte`.
fn find_byte(data: &Vec<u8>, from: usize, byte: u8) -> (at: usize)
    requires
        from <= data.len(),
    ensures
        at == first_at(data@, from as int, byte),
        from <= at <= data.len(),
{
    let mut at: usize = from;
    while at < data.len() && data[at] != byte
        invariant
            from <= at <= data.len(),
            forall|i: int| from <= i < at ==> data@[i] != byte,
        decreases data.len() - at,
    {
        at += 1;
    }
    proof {
        lemma_first_at_skips(data@, from as int, at as int, byte);
    }
    at
}

/// The number that the bytes of `data` from `from` up to `to` write, or
/// `cap + 1` if it is larger than `cap`; nothing if they are no number.
fn parse_digits(data: &Vec<u8>, from: usize, to: usize, cap: u128) -> (r: Option<u128>)
    requires
        from <= to <= data.len(),
        cap <= 0x1_0000_0000_0000_0000,
    ensures
        r is Some <==> is_number(data@.subrange(from as int, to as int)),
        r matches Some(v) ==> v == if number(data@.subrange(from as int, to as int)) > cap {
            cap + 1
        } else {
            number(data@.subrange(from as int, to as int)) as int
        },
{
    if from == to {
        return None;
    }
    let ghost text = data@.subrange(from as int, to as int);
    let mut acc: u128 = 0;
    let mut i: usize = from;
    assert(data@.subrange(from as int, from as int) =~= Seq::<u8>::empty());
    while i < to
        invariant
            from <= i <= to <= data.len(),
            cap <= 0x1_0000_0000_0000_0000,
            text == data@.subrange(from as int, to as int),
            forall|j: int| from <= j < i ==> is_digit(data@[j]),
            acc == if number(data@.subrange(from as int, i as int)) > cap {
                cap + 1
            } else {
                number(data@.subrange(from as int, i as int)) as int
            },
        decreases to - i,
    {
        let b: u8 = data[i];
        if b < 48 || b > 57 {
            assert(!is_digit(text[i - from]));
            return None;
        }
        proof {
            let now = data@.subrange(from as int, i + 1);
            assert(now.drop_last() =~= data@.subrange(from as int, i as int));
            assert(now.last() == b);
            lemma_number_grows(now);
        }
        if acc <= cap {
            acc = acc * 10 + (b - 48) as u128;
            if acc > cap {
                acc = cap + 1;
            }
        }
        i += 1;
    }
    assert(data@.subrange(from as int, i as int) =~= text);
    assert(is_number(text)) by {
        assert forall|j: int| 0 <= j < text.len() implies is_digit(#[trigger] text[j]) by {
            assert(text[j] == data@[from + j]);
        }
    }
    Some(acc)
}

/// The view of a parsed integer.
pub open spec fn int_view(r: Result<(i64, usize), ParseError>) -> Result<(int, int), ParseError> {
    match r {
        Ok((v, end)) => Ok((v as int, end as int)),
        Err(e) => Err(e),
    }
}

/// The view of a parsed byte string.
pub open spec fn bytes_view(r: Result<(Vec<u8>, usize), ParseError>) -> Result<(Seq<u8>, int), ParseError> {
    match r {
        Ok((b, end)) => Ok((b@, end as int)),
        Err(e) => Err(e),
    }
}

/// The view of a parsed text.
pub open spec fn string_view(r: Result<(String, usize), ParseError>) -> Result<(Seq<char>, int), ParseError> {
    match r {
        Ok((s, end)) => Ok((s@, end as int)),
        Err(e) => Err(e),
    }
}

/// Reads the integer whose text begins at `pos`.
fn int_from(data: &Vec<u8>, pos: usize) -> (r: Result<(i64, usize), ParseError>)
    requires
        pos <= data.len(),
    ensures
        int_view(r) == int_at(data@, pos as int),
        r matches Ok((_, end)) ==> pos < end <= data.len(),
{
    let end = find_byte(data, pos, 101);
    if end >= data.len() {
        return Err(ParseError::LengthOverrun);
    }
    let negative: bool = end > pos && data[pos] == 45;
    let signed: bool = end > pos && (data[pos] == 45 || data[pos] == 43);
    let start: usize = if signed {
        pos + 1
    } else {
        pos
    };
    let ghost text = data@.subrange(pos as int, end as int);
    proof {
        if signed {
            assert(text.skip(1) =~= data@.subrange(start as int, end as int));
        }
    }
    match parse_digits(data, start, end, 0x8000_0000_0000_0000) {
        None => Err(ParseError::MalformedInteger),
        Some(v) => {
            if negative {
                if v > 0x8000_0000_0000_0000 {
                    Err(ParseError::MalformedInteger)
                } else {
                    let value: i64 = (0 - (v as i128)) as i64;
                    Ok((value, end + 1))
                }
            } else {
                if v > 0x7fff_ffff_ffff_ffff {
                    Err(ParseError::MalformedInteger)
                } else {
                    Ok((v as i64, end + 1))
                }
            }
        },
    }
}

/// Reads the byte string that begins at `pos` with its length.
fn bytes_from(data: &Vec<u8>, pos: usize) -> (r: Result<(Vec<u8>, usize), ParseError>)
    requires
        pos <= data.len(),
    ensures
        bytes_view(r) == bytes_at(data@, pos as int),
        r matches Ok((_, end)) ==> pos < end <= data.len(),
{
    let colon = find_byte(data, pos, 58);
    if colon >= data.len() {
        return Err(ParseError::LengthOverrun);
    }
    let signed: bool = colon > pos && data[pos] == 43;
    let start: usize = if signed {
        pos + 1
    } else {
        pos
    };
    let ghost text = data@.subrange(pos as int, colon as int);
    proof {
        if signed {
            assert(text.skip(1) =~= data@.subrange(start as int, colon as int));
        }
    }
    match parse_digits(data, start, colon, data.len() as u128) {
        None => Err(ParseError::MalformedInteger),
        Some(n) => {
            if n > (data.len() - colon - 1) as u128 {
                Err(ParseError::LengthOverrun)
            } else {
                let end: usize = colon + 1 + n as usize;
                Ok((copy_range(data, colon + 1, end), end))
            }
        },
    }
}

/// Reads the text that begins at `pos` with its length.
fn string_from(data: &Vec<u8>, pos: usize) -> (r: Result<(String, usize), ParseError>)
    requires
        pos <= data.len(),
    ensures
        string_view(r) == string_at(data@, pos as int),
        r matches Ok((_, end)) ==> pos < end <= data.len(),
{
    match bytes_from(data, pos) {
        Err(e) => Err(e),
        Ok((bytes, end)) => match string_from_utf8(bytes) {
            Some(s) => Ok((s, end)),
            None => Err(ParseError::UnexpectedByte),
        },
    }
}

/// The view of a parsed value.
pub open spec fn value_view(r: Result<(Content, usize), ParseError>) -> Result<(Value, int), ParseError> {
    match r {
        Ok((v, end)) => Ok((v@, end as int)),
        Err(e) => Err(e),
    }
}

/// The view of a parsed list.
pub open spec fn list_view(r: Result<(Vec<Content>, usize), ParseError>) -> Result<(Seq<Value>, int), ParseError> {
    match r {
        Ok((items, end)) => Ok((item_views(items@), end as int)),
        Err(e) => Err(e),
    }
}

/// The view of the places of the value under `info`.
pub open spec fn range_view(info: Option<(usize, usize)>) -> Option<(int, int)> {
    match info {
        Some((start, end)) => Some((start as int, end as int)),
        None => None,
    }
}

/// The view of a parsed dictionary.
pub open spec fn dict_view(r: Result<(Dict, Option<(usize, usize)>, usize), ParseError>) -> Result<
    (Entries, Option<(int, int)>, int),
    ParseError,
> {
    match r {
        Ok((d, info, end)) => Ok((d@, range_view(info), end as int)),
        Err(e) => Err(e),
    }
}

/// Whether `key` is one of the keys under which a byte string is kept raw.
fn is_raw_key(key: &String) -> (raw: bool)
    ensures
        raw == keeps_raw(key@),
{
    let pieces = String::from_str("pieces");
    let peers = String::from_str("peers");
    let peers6 = String::from_str("peers6");
    *key == pieces || *key == peers || *key == peers6
}

/// Reads the value that begins at `pos`.
fn value_from(data: &Vec<u8>, pos: usize) -> (r: Result<(Content, usize), ParseError>)
    requires
        pos <= data.len(),
    ensures
        value_view(r) == value_at(data@, pos as int),
        r matches Ok((_, end)) ==> pos < end <= data.len(),
    decreases data.len() - pos, 0int,
{
    if pos >= data.len() {
        return Err(ParseError::LengthOverrun);
    }
    let symbol: u8 = data[pos];
    if symbol == 105 {
        match int_from(data, pos + 1) {
            Ok((n, end)) => Ok((Content::Int(n), end)),
            Err(e) => Err(e),
        }
    } else if symbol >= 48 && symbol <= 57 {
        match string_from(data, pos) {
            Ok((s, end)) => Ok((Content::Str(s), end)),
            Err(e) => Err(e),
        }
    } else if symbol == 108 {
        match list_from(data, pos + 1) {
            Ok((items, end)) => {
                let list = Content::List(items);
                proof {
                    lemma_content_views(list);
                }
                Ok((list, end))
            },
            Err(e) => Err(e),
        }
    } else if symbol == 100 {
        match dict_from(data, pos + 1) {
            Ok((d, _, end)) => {
                let dict = Content::Dict(d);
                proof {
                    lemma_content_views(dict);
                }
                Ok((dict, end))
            },
            Err(e) => Err(e),
        }
    } else {
        Err(ParseError::UnexpectedByte)
    }
}

/// Reads the items of a list from `pos` up to its `e`.
fn list_from(data: &Vec<u8>, pos: usize) -> (r: Result<(Vec<Content>, usize), ParseError>)
    requires
        pos <= data.len(),
    ensures
        list_view(r) == list_at(data@, pos as int, Seq::empty()),
        r matches Ok((_, end)) ==> pos < end <= data.len(),
    decreases data.len() - pos, 1int,
{
    let mut items: Vec<Content> = Vec::new();
    let mut at: usize = pos;
    assert(item_views(items@) =~= Seq::<Value>::empty());
    loop
        invariant
            pos <= at <= data.len(),
            list_at(data@, pos as int, Seq::empty()) == list_at(data@, at as int, item_views(items@)),
        decreases data.len() - at,
    {
        if at >= data.len() {
            return Err(ParseError::LengthOverrun);
        }
        if data[at] == 101 {
            return Ok((items, at + 1));
        }
        match value_from(data, at) {
            Err(e) => {
                return Err(e);
            },
            Ok((item, next)) => {
                let ghost before = item_views(items@);
                items.push(item);
                assert(item_views(items@) =~= before.push(item@));
                at = next;
            },
        }
    }
}

/// Reads the value of a dictionary entry that begins at `pos` under `key`.
fn entry_value_from(data: &Vec<u8>, pos: usize, key: &String) -> (r: Result<(Content, usize), ParseError>)
    requires
        pos <= data.len(),
    ensures
        value_view(r) == entry_value_at(data@, pos as int, key@),
        r matches Ok((_, end)) ==> pos < end <= data.len(),
    decreases data.len() - pos, 1int,
{
    if pos < data.len() && data[pos] >= 48 && data[pos] <= 57 && is_raw_key(key) {
        match bytes_from(data, pos) {
            Ok((b, end)) => Ok((Content::Bytes(b), end)),
            Err(e) => Err(e),
        }
    } else {
        value_from(data, pos)
    }
}

/// Reads the entries of a dictionary from `pos` up to its `e`.
fn dict_from(data: &Vec<u8>, pos: usize) -> (r: Result<(Dict, Option<(usize, usize)>, usize), ParseError>)
    requires
        pos <= data.len(),
    ensures
        dict_view(r) == dict_at(data@, pos as int, Seq::empty(), None),
        r matches Ok((_, _, end)) ==> pos < end <= data.len(),
    decreases data.len() - pos, 2int,
{
    let mut dict_content = Dict::new();
    let mut info: Option<(usize, usize)> = None;
    let mut at: usize = pos;
    let info_key = String::from_str("info");
    loop
        invariant
            pos <= at <= data.len(),
            info_key@ == "info"@,
            dict_at(data@, pos as int, Seq::empty(), None) == dict_at(
                data@,
                at as int,
                dict_content@,
                range_view(info),
            ),
        decreases data.len() - at,
    {
        if at >= data.len() {
            return Err(ParseError::LengthOverrun);
        }
        let symbol: u8 = data[at];
        if symbol == 101 {
            return Ok((dict_content, info, at + 1));
        }
        if symbol < 48 || symbol > 57 {
            return Err(ParseError::UnexpectedByte);
        }
        match string_from(data, at) {
            Err(e) => {
                return Err(e);
            },
            Ok((key, start)) => {
                if dict_content.contains_key(key.as_str()) {
                    return Err(ParseError::DuplicateKey);
                }
                if start < data.len() && data[start] == 101 {
                    return Ok((dict_content, info, start + 1));
                }
                match entry_value_from(data, start, &key) {
                    Err(e) => {
                        return Err(e);
                    },
                    Ok((value, next)) => {
                        if key == info_key {
                            info = Some((start, next));
                        }
                        dict_content.push(key, value);
                        at = next;
                    },
                }
            },
        }
    }
}

/// Reads an integer up to its `e`, the cursor standing after the `i`.
/// The cursor moves past the `e`, or stays where the integer is rejected.
pub fn parse_int(contents: &Vec<u8>, current_index: &mut usize) -> (r: Result<i64, ParseError>)
    ensures
        match int_at(contents@, *old(current_index) as int) {
            Ok((value, end)) => r == Ok::<i64, ParseError>(value as i64) && value == (value as i64) as int
                && *final(current_index) == end,
            Err(e) => r == Err::<i64, ParseError>(e) && *final(current_index) == *old(current_index),
        },
{
    if *current_index > contents.len() {
        proof {
            assert(first_at(contents@, *current_index as int, 101) == contents@.len());
        }
        return Err(ParseError::LengthOverrun);
    }
    match int_from(contents, *current_index) {
        Ok((value, end)) => {
            *current_index = end;
            Ok(value)
        },
        Err(e) => Err(e),
    }
}

/// Reads a byte string: its length, a colon, and that many bytes. The
/// cursor moves past the last byte, or stays where the string is rejected.
pub fn parse_bytes(contents: &Vec<u8>, current_index: &mut usize) -> (r: Result<Vec<u8>, ParseError>)
    ensures
        match bytes_at(contents@, *old(current_index) as int) {
            Ok((bytes, end)) => r matches Ok(b) && b@ == bytes && *final(current_index) == end,
            Err(e) => r == Err::<Vec<u8>, ParseError>(e) && *final(current_index) == *old(current_index),
        },
{
    if *current_index > contents.len() {
        proof {
            assert(first_at(contents@, *current_index as int, 58) == contents@.len());
        }
        return Err(ParseError::LengthOverrun);
    }
    match bytes_from(contents, *current_index) {
        Ok((bytes, end)) => {
            *current_index = end;
            Ok(bytes)
        },
        Err(e) => Err(e),
    }
}

/// Reads a text: a byte string that is UTF-8. The cursor moves past the
/// last byte, or stays where the text is rejected.
pub fn parse_string(contents: &Vec<u8>, current_index: &mut usize) -> (r: Result<String, ParseError>)
    ensures
        match string_at(contents@, *old(current_index) as int) {
            Ok((text, end)) => r matches Ok(s) && s@ == text && *final(current_index) == end,
            Err(e) => r == Err::<String, ParseError>(e) && *final(current_index) == *old(current_index),
        },
{
    if *current_index > contents.len() {
        proof {
            assert(first_at(contents@, *current_index as int, 58) == contents@.len());
        }
        return Err(ParseError::LengthOverrun);
    }
    match string_from(contents, *current_index) {
        Ok((text, end)) => {
            *current_index = end;
            Ok(text)
        },
        Err(e) => Err(e),
    }
}

/// Reads the items of a list up to its `e`, the cursor standing after the
/// `l`. The cursor moves past the `e`, or stays where the list is rejected.
pub fn parse_list(contents: &Vec<u8>, current_index: &mut usize) -> (r: Result<Vec<Content>, ParseError>)
    ensures
        match list_at(contents@, *old(current_index) as int, Seq::empty()) {
            Ok((items, end)) => r matches Ok(list) && item_views(list@) == items && *final(current_index) == end,
            Err(e) => r == Err::<Vec<Content>, ParseError>(e) && *final(current_index) == *old(current_index),
        },
{
    if *current_index > contents.len() {
        return Err(ParseError::LengthOverrun);
    }
    match list_from(contents, *current_index) {
        Ok((items, end)) => {
            *current_index = end;
            Ok(items)
        },
        Err(e) => Err(e),
    }
}

/// Reads the entries of a dictionary up to its `e`, the cursor standing
/// after the `d`, and says where the value under `info` begins and ends.
/// The cursor moves past the `e`, or stays where the dictionary is rejected.
pub fn parse_dict(contents: &Vec<u8>, current_index: &mut usize) -> (r: Result<
    (Dict, Option<(usize, usize)>),
    ParseError,
>)
    ensures
        match dict_at(contents@, *old(current_index) as int, Seq::empty(), None) {
            Ok((entries, info, end)) => r matches Ok((d, range)) && d@ == entries && range_view(range) == info
                && *final(current_index) == end && distinct_keys(d@),
            Err(e) => r == Err::<(Dict, Option<(usize, usize)>), ParseError>(e) && *final(current_index) == *old(
                current_index,
            ),
        },
{
    if *current_index > contents.len() {
        return Err(ParseError::LengthOverrun);
    }
    proof {
        lemma_dict_keys_distinct(contents@, *current_index as int, Seq::empty(), None);
    }
    match dict_from(contents, *current_index) {
        Ok((d, info, end)) => {
            *current_index = end;
            Ok((d, info))
        },
        Err(e) => Err(e),
    }
}

/// Reads a whole buffer as one dictionary, and says where the value under
/// `info` begins and ends.
pub fn parse_document(data: &Vec<u8>) -> (r: Result<(Dict, Option<(usize, usize)>), ParseError>)
    ensures
        match document(data@) {
            Ok((entries, info)) => r matches Ok((d, range)) && d@ == entries && range_view(range) == info
                && distinct_keys(d@),
            Err(e) => r == Err::<(Dict, Option<(usize, usize)>), ParseError>(e),
        },
        r matches Ok((_, Some((start, end)))) ==> start <= end <= data.len(),
{
    if data.len() == 0 {
        return Err(ParseError::LengthOverrun);
    }
    if data[0] != 100 {
        return Err(ParseError::UnexpectedByte);
    }
    match dict_from(data, 1) {
        Err(e) => Err(e),
        Ok((d, info, end)) => {
            if end != data.len() {
                Err(ParseError::TrailingGarbage)
            } else {
                proof {
                    lemma_info_range(data@, 1, Seq::empty(), None);
                    lemma_dict_keys_distinct(data@, 1, Seq::empty(), None);
                }
                Ok((d, info))
            }
        },
    }
}

/// Reads a whole buffer as one dictionary.
pub fn parse_byte_data(data: &Vec<u8>) -> (r: Result<Dict, ParseError>)
    ensures
        match document(data@) {
            Ok((entries, _)) => r matches Ok(d) && d@ == entries && distinct_keys(d@),
            Err(e) => r == Err::<Dict, ParseError>(e),
        },
{
    match parse_document(data) {
        Ok((d, _)) => Ok(d),
        Err(e) => Err(e),
    }
}

/// The digest of the bytes of the value under `info`; where that key was
/// not met, the digest of no bytes.
pub fn create_info_hash(contents: &Vec<u8>, info: Option<(usize, usize)>) -> (hash: Vec<u8>)
    requires
        info matches Some((start, end)) ==> start <= end <= contents.len(),
    ensures
        hash@ == sha1_of(info_bytes(contents@, range_view(info))),
        hash@.len() == 20,
{
    match info {
        Some((start, end)) => sha1_digest(contents, start, end),
        None => {
            assert(contents@.subrange(0, 0) =~= Seq::<u8>::empty());
            sha1_digest(contents, 0, 0)
        },
    }
}

/// Reads the bytes of a metainfo file: the dictionary that they hold, and
/// the info hash, which is the digest of the bytes of the value under
/// `info` just as they stand in the file.
pub fn parse_torrent_file(binary_contents: &Vec<u8>) -> (r: Result<(Dict, Vec<u8>), ParseError>)
    ensures
        match document(binary_contents@) {
            Ok((entries, info)) => r matches Ok((d, hash)) && d@ == entries && distinct_keys(d@) && hash@
                == sha1_of(info_bytes(binary_contents@, info)) && hash@.len() == 20,
            Err(e) => r == Err::<(Dict, Vec<u8>), ParseError>(e),
        },
{
    match parse_document(binary_contents) {
        Ok((torrent_contents, info)) => {
            let info_hash = create_info_hash(binary_contents, info);
            Ok((torrent_contents, info_hash))
        },
        Err(e) => Err(e),
    }
}

/// A value that is read takes at least one byte and ends within the buffer.
pub proof fn lemma_value_advances(data: Seq<u8>, pos: int, key: Seq<char>)
    requires
        0 <= pos,
    ensures
        value_at(data, pos) matches Ok((_, end)) ==> pos < end <= data.len(),
        bytes_at(data, pos) matches Ok((_, end)) ==> pos < end <= data.len(),
        string_at(data, pos) matches Ok((_, end)) ==> pos < end <= data.len(),
        int_at(data, pos) matches Ok((_, end)) ==> pos < end <= data.len(),
        entry_value_at(data, pos, key) matches Ok((_, end)) ==> pos < end <= data.len(),
{
    if pos <= data.len() {
        lemma_first_at(data, pos, 101);
        lemma_first_at(data, pos, 58);
    }
    if pos < data.len() {
        lemma_first_at(data, pos + 1, 101);
        lemma_list_ends(data, pos + 1, Seq::empty());
        lemma_dict_ends(data, pos + 1, Seq::empty(), None);
    }
}

/// A list that is read ends after where it began, within the buffer.
pub proof fn lemma_list_ends(data: Seq<u8>, pos: int, items: Seq<Value>)
    requires
        0 <= pos,
    ensures
        list_at(data, pos, items) matches Ok((_, end)) ==> pos < end <= data.len(),
    decreases data.len() - pos,
{
    if pos < data.len() && data[pos] != 101 {
        match value_at(data, pos) {
            Ok((item, next)) => {
                if pos < next <= data.len() {
                    lemma_list_ends(data, next, items.push(item));
                }
            },
            Err(_) => {},
        }
    }
}

/// A dictionary that is read ends after where it began, within the buffer.
pub proof fn lemma_dict_ends(data: Seq<u8>, pos: int, entries: Entries, info: Option<(int, int)>)
    requires
        0 <= pos,
    ensures
        dict_at(data, pos, entries, info) matches Ok((_, _, end)) ==> pos < end <= data.len(),
    decreases data.len() - pos,
{
    if pos < data.len() && data[pos] != 101 && is_digit(data[pos]) {
        match string_at(data, pos) {
            Ok((key, start)) => {
                if !has_key(entries, key) && start > pos && !(start < data.len() && data[start] == 101) {
                    match entry_value_at(data, start, key) {
                        Ok((value, next)) => {
                            if start < next <= data.len() {
                                lemma_dict_ends(
                                    data,
                                    next,
                                    entries.push((key, value)),
                                    if key == "info"@ {
                                        Some((start, next))
                                    } else {
                                        info
                                    },
                                );
                            }
                        },
                        Err(_) => {},
                    }
                }
            },
            Err(_) => {},
        }
    }
}

/// The places that a dictionary gives for the value under `info` lie
/// within the buffer, in order.
pub proof fn lemma_info_range(data: Seq<u8>, pos: int, entries: Entries, info: Option<(int, int)>)
    requires
        0 <= pos,
        info matches Some((a, b)) ==> 0 <= a <= b <= data.len(),
    ensures
        dict_at(data, pos, entries, info) matches Ok((_, Some((a, b)), _)) ==> 0 <= a <= b <= data.len(),
    decreases data.len() - pos,
{
    if pos < data.len() && data[pos] != 101 && is_digit(data[pos]) {
        match string_at(data, pos) {
            Ok((key, start)) => {
                if !has_key(entries, key) && start > pos && !(start < data.len() && data[start] == 101) {
                    match entry_value_at(data, start, key) {
                        Ok((value, next)) => {
                            if start < next <= data.len() {
                                lemma_info_range(
                                    data,
                                    next,
                                    entries.push((key, value)),
                                    if key == "info"@ {
                                        Some((start, next))
                                    } else {
                                        info
                                    },
                                );
                            }
                        },
                        Err(_) => {},
                    }
                }
            },
            Err(_) => {},
        }
    }
}

/// What the places `info` say of the entries `entries`: where there are
/// places, they are those where the value under `info` begins and ends;
/// where there are none, there is no such value.
pub open spec fn marks_info(data: Seq<u8>, entries: Entries, info: Option<(int, int)>) -> bool {
    match info {
        Some((start, end)) => lookup(entries, "info"@) matches Some(value) && value_at(data, start) == Ok::<
            (Value, int),
            ParseError,
        >((value, end)),
        None => lookup(entries, "info"@) is None,
    }
}

/// The key `info` is none of those under which a byte string is kept raw.
pub proof fn lemma_info_is_text()
    ensures
        !keeps_raw("info"@),
{
    reveal_strlit("info");
    reveal_strlit("pieces");
    reveal_strlit("peers");
    reveal_strlit("peers6");
    assert("info"@.len() == 4);
    assert("pieces"@.len() == 6);
    assert("peers"@.len() == 5);
    assert("peers6"@.len() == 6);
}

/// A dictionary marks the value under `info`, if it did so before.
pub proof fn lemma_dict_marks_info(data: Seq<u8>, pos: int, entries: Entries, info: Option<(int, int)>)
    requires
        0 <= pos,
        marks_info(data, entries, info),
    ensures
        dict_at(data, pos, entries, info) matches Ok((all, places, _)) ==> marks_info(data, all, places),
    decreases data.len() - pos,
{
    if pos < data.len() && data[pos] != 101 && is_digit(data[pos]) {
        match string_at(data, pos) {
            Ok((key, start)) => {
                if !has_key(entries, key) && start > pos && !(start < data.len() && data[start] == 101) {
                    match entry_value_at(data, start, key) {
                        Ok((value, next)) => {
                            if start < next <= data.len() {
                                let places = if key == "info"@ {
                                    Some((start, next))
                                } else {
                                    info
                                };
                                lemma_lookup_push(entries, (key, value), "info"@);
                                lemma_lookup_has_key(entries, "info"@);
                                lemma_info_is_text();
                                lemma_dict_marks_info(data, next, entries.push((key, value)), places);
                            }
                        },
                        Err(_) => {},
                    }
                }
            },
            Err(_) => {},
        }
    }
}

/// The places that a document records for `info` are those of the value
/// under that key and of nothing else: the value begins at the first and
/// ends before the second, so that the info hash is the digest of the bytes
/// of that value just as they stand in the buffer. A document without such
/// a value records no places.
pub proof fn lemma_info_range_is_the_value(data: Seq<u8>)
    requires
        document(data) is Ok,
    ensures
        ({
            let (entries, info) = document(data)->Ok_0;
            &&& marks_info(data, entries, info)
            &&& info matches Some((start, end)) ==> 0 < start < end <= data.len()
        }),
{
    lemma_dict_marks_info(data, 1, Seq::empty(), None);
    let (entries, info) = document(data)->Ok_0;
    match info {
        Some((start, end)) => {
            lemma_info_range(data, 1, Seq::empty(), None);
            lemma_info_starts_late(data, 1, Seq::empty(), None);
            lemma_value_advances(data, start, "info"@);
        },
        None => {},
    }
}

/// The value under `info` begins after the place where its dictionary
/// begins.
pub proof fn lemma_info_starts_late(data: Seq<u8>, pos: int, entries: Entries, info: Option<(int, int)>)
    requires
        0 <= pos,
        info matches Some((a, _)) ==> a > 0,
    ensures
        dict_at(data, pos, entries, info) matches Ok((_, Some((a, _)), _)) ==> a > 0,
    decreases data.len() - pos,
{
    if pos < data.len() && data[pos] != 101 && is_digit(data[pos]) {
        match string_at(data, pos) {
            Ok((key, start)) => {
                if !has_key(entries, key) && start > pos && !(start < data.len() && data[start] == 101) {
                    match entry_value_at(data, start, key) {
                        Ok((value, next)) => {
                            if start < next <= data.len() {
                                lemma_info_starts_late(
                                    data,
                                    next,
                                    entries.push((key, value)),
                                    if key == "info"@ {
                                        Some((start, next))
                                    } else {
                                        info
                                    },
                                );
                            }
                        },
                        Err(_) => {},
                    }
                }
            },
            Err(_) => {},
        }
    }
}

/// Every dictionary that is read has each of its keys once, if the
/// entries before had.
pub proof fn lemma_dict_keys_distinct(data: Seq<u8>, pos: int, entries: Entries, info: Option<(int, int)>)
    requires
        0 <= pos,
        distinct_keys(entries),
    ensures
        dict_at(data, pos, entries, info) matches Ok((all, _, _)) ==> distinct_keys(all),
    decreases data.len() - pos,
{
    if pos < data.len() && data[pos] != 101 && is_digit(data[pos]) {
        match string_at(data, pos) {
            Ok((key, start)) => {
                if !has_key(entries, key) && start > pos && !(start < data.len() && data[start] == 101) {
                    match entry_value_at(data, start, key) {
                        Ok((value, next)) => {
                            if start < next <= data.len() {
                                let more = entries.push((key, value));
                                assert forall|i: int, j: int| 0 <= i < j < more.len() implies (#[trigger] more[i]).0 != (
                                #[trigger] more[j]).0 by {
                                    if j == entries.len() {
                                        assert(more[i] == entries[i]);
                                    } else {
                                        assert(more[i] == entries[i]);
                                        assert(more[j] == entries[j]);
                                    }
                                }
                                lemma_dict_keys_distinct(
                                    data,
                                    next,
                                    more,
                                    if key == "info"@ {
                                        Some((start, next))
                                    } else {
                                        info
                                    },
                                );
                            }
                        },
                        Err(_) => {},
                    }
                }
            },
            Err(_) => {},
        }
    }
}

/// A document has each of its keys once.
pub proof fn lemma_document_keys_distinct(data: Seq<u8>)
    requires
        document(data) is Ok,
    ensures
        distinct_keys(document(data)->Ok_0.0),
{
    lemma_dict_keys_distinct(data, 1, Seq::empty(), None);
}

/// A document is a mapping: every entry of it is found under its key.
pub proof fn lemma_document_entry_found(data: Seq<u8>, i: int)
    requires
        document(data) matches Ok((entries, _)) && 0 <= i < entries.len(),
    ensures
        ({
            let entries = document(data)->Ok_0.0;
            lookup(entries, entries[i].0) == Some(entries[i].1)
        }),
{
    lemma_document_keys_distinct(data);
    lemma_lookup_entry(document(data)->Ok_0.0, i);
}

} // verus!
