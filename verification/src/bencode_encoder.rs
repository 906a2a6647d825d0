use vstd::prelude::*;
use vstd::utf8::encode_utf8;
use crate::bencode_content::{item_views, lemma_content_views, lookup, Content, Entries, Value};
use crate::bytes::append_bytes;
use crate::torrent_file_parser::{
    bytes_at, dict_at, document, entry_value_at, first_at, int_of_text, is_digit, keeps_raw, len_of_text,
    lemma_first_at, lemma_info_range_is_the_value, list_at, string_at, value_at,
};

verus! {

/// The number `n` in decimal digits, without leading zeros.
pub open spec fn decimal_bytes(n: nat) -> Seq<u8>
    decreases n,
{
    if n < 10 {
        seq![(48 + n) as u8]
    } else {
        decimal_bytes(n / 10).push((48 + n % 10) as u8)
    }
}

/// The integer `n` the one way that bencode writes it.
pub open spec fn int_text(n: int) -> Seq<u8> {
    if n < 0 {
        seq![45u8] + decimal_bytes((-n) as nat)
    } else {
        decimal_bytes(n as nat)
    }
}

/// A byte string with its length before it.
pub open spec fn encode_bytes(bytes: Seq<u8>) -> Seq<u8> {
    decimal_bytes(bytes.len()) + seq![58u8] + bytes
}

/// The bytes that bencode writes for a value.
pub open spec fn encode(v: Value) -> Seq<u8>
    decreases v,
{
    match v {
        Value::Int(n) => seq![105u8] + int_text(n) + seq![101u8],
        Value::Str(s) => encode_bytes(encode_utf8(s)),
        Value::Bytes(b) => encode_bytes(b),
        Value::List(items) => seq![108u8] + encode_items(items) + seq![101u8],
        Value::Dict(entries) => seq![100u8] + encode_entries(entries) + seq![101u8],
    }
}

/// The bytes of the items of a list, one after the other.
pub open spec fn encode_items(items: Seq<Value>) -> Seq<u8>
    decreases items,
{
    if items.len() == 0 {
        Seq::empty()
    } else {
        encode_items(items.drop_last()) + encode(items.last())
    }
}

/// The bytes of the entries of a dictionary, one after the other: each
/// key as a string, then its value.
pub open spec fn encode_entries(entries: Entries) -> Seq<u8>
    decreases entries,
{
    if entries.len() == 0 {
        Seq::empty()
    } else {
        encode_entries(entries.drop_last()) + encode_bytes(encode_utf8(entries.last().0)) + encode(entries.last().1)
    }
}

/// Whether `text` writes an integer the one way that bencode writes it:
/// no plus sign, no zeros before the number, no minus before a zero.
pub open spec fn is_canonical_int(text: Seq<u8>) -> bool {
    int_of_text(text) matches Some(n) && text == int_text(n)
}

/// Whether `text` writes a length without a plus sign and without zeros
/// before the number.
pub open spec fn is_canonical_len(text: Seq<u8>) -> bool {
    len_of_text(text) matches Some(n) && text == decimal_bytes(n)
}

/// Whether the string that begins at `pos` has its length written the one
/// way.
pub open spec fn canonical_string_at(data: Seq<u8>, pos: int) -> bool {
    is_canonical_len(data.subrange(pos, first_at(data, pos, 58)))
}

/// Whether the value that begins at `pos` is written the one way that
/// bencode writes it: every integer and every length in it is, and no
/// dictionary in it ends after a key.
pub open spec fn canonical_at(data: Seq<u8>, pos: int) -> bool
    decreases data.len() - pos, 0int,
{
    if pos < 0 || pos >= data.len() {
        false
    } else if data[pos] == 105 {
        is_canonical_int(data.subrange(pos + 1, first_at(data, pos + 1, 101)))
    } else if is_digit(data[pos]) {
        canonical_string_at(data, pos)
    } else if data[pos] == 108 {
        canonical_list_at(data, pos + 1)
    } else if data[pos] == 100 {
        canonical_dict_at(data, pos + 1)
    } else {
        false
    }
}

/// Whether the items of a list from `pos` on are written the one way.
pub open spec fn canonical_list_at(data: Seq<u8>, pos: int) -> bool
    decreases data.len() - pos, 1int,
{
    if pos < 0 || pos >= data.len() {
        false
    } else if data[pos] == 101 {
        true
    } else {
        canonical_at(data, pos) && match value_at(data, pos) {
            Ok((_, next)) => pos < next <= data.len() && canonical_list_at(data, next),
            Err(_) => false,
        }
    }
}

/// Whether the entries of a dictionary from `pos` on are written the one
/// way, and each key has a value.
pub open spec fn canonical_dict_at(data: Seq<u8>, pos: int) -> bool
    decreases data.len() - pos, 1int,
{
    if pos < 0 || pos >= data.len() {
        false
    } else if data[pos] == 101 {
        true
    } else {
        canonical_string_at(data, pos) && match string_at(data, pos) {
            Ok((key, start)) => pos < start < data.len() && data[start] != 101 && (if is_digit(data[start]) {
                canonical_string_at(data, start)
            } else {
                canonical_at(data, start)
            }) && match entry_value_at(data, start, key) {
                Ok((_, next)) => start < next <= data.len() && canonical_dict_at(data, next),
                Err(_) => false,
            },
            Err(_) => false,
        }
    }
}

/// A canonical byte string encodes to the bytes from which it was read.
pub proof fn lemma_bytes_roundtrip(data: Seq<u8>, pos: int)
    requires
        0 <= pos,
        canonical_string_at(data, pos),
        bytes_at(data, pos) is Ok,
    ensures
        ({
            let (bytes, end) = bytes_at(data, pos)->Ok_0;
            &&& pos < end <= data.len()
            &&& encode_bytes(bytes) == data.subrange(pos, end)
        }),
{
    lemma_first_at(data, pos, 58);
    let (bytes, end) = bytes_at(data, pos)->Ok_0;
    assert(encode_bytes(bytes) =~= data.subrange(pos, end));
}

/// A canonical text encodes to the bytes from which it was read.
pub proof fn lemma_string_roundtrip(data: Seq<u8>, pos: int)
    requires
        0 <= pos,
        canonical_string_at(data, pos),
        string_at(data, pos) is Ok,
    ensures
        ({
            let (text, end) = string_at(data, pos)->Ok_0;
            &&& pos < end <= data.len()
            &&& encode_bytes(encode_utf8(text)) == data.subrange(pos, end)
        }),
{
    lemma_bytes_roundtrip(data, pos);
    vstd::utf8::decode_utf8_encode_utf8(bytes_at(data, pos)->Ok_0.0);
}

/// A canonical value encodes to the bytes from which it was read.
pub proof fn lemma_value_roundtrip(data: Seq<u8>, pos: int)
    requires
        canonical_at(data, pos),
        value_at(data, pos) is Ok,
    ensures
        ({
            let (value, end) = value_at(data, pos)->Ok_0;
            &&& pos < end <= data.len()
            &&& encode(value) == data.subrange(pos, end)
        }),
    decreases data.len() - pos, 0int,
{
    let (value, end) = value_at(data, pos)->Ok_0;
    if data[pos] == 105 {
        lemma_first_at(data, pos + 1, 101);
        assert(encode(value) =~= data.subrange(pos, end));
    } else if is_digit(data[pos]) {
        lemma_string_roundtrip(data, pos);
    } else if data[pos] == 108 {
        assert(encode_items(Seq::<Value>::empty()) =~= data.subrange(pos + 1, pos + 1));
        lemma_list_roundtrip(data, pos + 1, pos + 1, Seq::empty());
        assert(encode(value) =~= data.subrange(pos, end));
    } else {
        assert(encode_entries(Seq::<(Seq<char>, Value)>::empty()) =~= data.subrange(pos + 1, pos + 1));
        lemma_dict_roundtrip(data, pos + 1, pos + 1, Seq::empty(), None);
        assert(encode(value) =~= data.subrange(pos, end));
    }
}

/// The items of a canonical list encode to the bytes from which they were
/// read: those from `begin` up to the `e` of the list.
pub proof fn lemma_list_roundtrip(data: Seq<u8>, begin: int, pos: int, items: Seq<Value>)
    requires
        0 <= begin <= pos,
        encode_items(items) == data.subrange(begin, pos),
        canonical_list_at(data, pos),
        list_at(data, pos, items) is Ok,
    ensures
        ({
            let (all, end) = list_at(data, pos, items)->Ok_0;
            &&& pos < end <= data.len()
            &&& data[end - 1] == 101
            &&& encode_items(all) == data.subrange(begin, end - 1)
        }),
    decreases data.len() - pos, 1int,
{
    if data[pos] != 101 {
        lemma_value_roundtrip(data, pos);
        let (item, next) = value_at(data, pos)->Ok_0;
        let more = items.push(item);
        assert(more.drop_last() =~= items);
        assert(encode_items(more) =~= data.subrange(begin, next));
        lemma_list_roundtrip(data, begin, next, more);
    }
}

/// The entries of a canonical dictionary encode to the bytes from which
/// they were read: those from `begin` up to the `e` of the dictionary.
pub proof fn lemma_dict_roundtrip(data: Seq<u8>, begin: int, pos: int, entries: Entries, info: Option<(int, int)>)
    requires
        0 <= begin <= pos,
        encode_entries(entries) == data.subrange(begin, pos),
        canonical_dict_at(data, pos),
        dict_at(data, pos, entries, info) is Ok,
    ensures
        ({
            let (all, _, end) = dict_at(data, pos, entries, info)->Ok_0;
            &&& pos < end <= data.len()
            &&& data[end - 1] == 101
            &&& encode_entries(all) == data.subrange(begin, end - 1)
        }),
    decreases data.len() - pos, 1int,
{
    if data[pos] != 101 {
        lemma_string_roundtrip(data, pos);
        let (key, start) = string_at(data, pos)->Ok_0;
        let (value, next) = entry_value_at(data, start, key)->Ok_0;
        if is_digit(data[start]) {
            if keeps_raw(key) {
                lemma_bytes_roundtrip(data, start);
            } else {
                lemma_string_roundtrip(data, start);
            }
        } else {
            lemma_value_roundtrip(data, start);
        }
        assert(encode(value) == data.subrange(start, next));
        let more = entries.push((key, value));
        assert(more.drop_last() =~= entries);
        assert(encode_entries(more) =~= data.subrange(begin, next));
        lemma_dict_roundtrip(
            data,
            begin,
            next,
            more,
            if key == "info"@ {
                Some((start, next))
            } else {
                info
            },
        );
    }
}

/// To parse a document and then encode the value under `info` gives back
/// the bytes of that value, byte for byte, where they are written the one
/// way that bencode writes them.
pub proof fn lemma_parse_then_encode_is_identity(data: Seq<u8>)
    requires
        document(data) matches Ok((_, Some((start, _)))) && canonical_at(data, start),
    ensures
        ({
            let (entries, info) = document(data)->Ok_0;
            let (start, end) = info->Some_0;
            &&& lookup(entries, "info"@) is Some
            &&& encode(lookup(entries, "info"@)->Some_0) == data.subrange(start, end)
        }),
{
    lemma_info_range_is_the_value(data);
    lemma_value_roundtrip(data, document(data)->Ok_0.1->Some_0.0);
}

/// Appends `n` in decimal digits to `out`.
fn push_decimal_bytes(out: &mut Vec<u8>, n: u128)
    ensures
        final(out)@ == old(out)@ + decimal_bytes(n as nat),
    decreases n,
{
    if n >= 10 {
        push_decimal_bytes(out, n / 10);
    }
    out.push((48 + n % 10) as u8);
    assert(out@ =~= old(out)@ + decimal_bytes(n as nat));
}

/// Appends a byte string with its length before it to `out`.
fn push_byte_string(out: &mut Vec<u8>, bytes: &[u8])
    ensures
        final(out)@ == old(out)@ + encode_bytes(bytes@),
{
    push_decimal_bytes(out, bytes.len() as u128);
    out.push(58);
    append_bytes(out, bytes);
    assert(out@ =~= old(out)@ + encode_bytes(bytes@));
}

/// Appends the bytes that bencode writes for `c` to `out`.
fn push_content(out: &mut Vec<u8>, c: &Content)
    ensures
        final(out)@ == old(out)@ + encode(c@),
    decreases c,
{
    proof {
        lemma_content_views(*c);
    }
    match c {
        Content::Int(n) => {
            out.push(105);
            if *n < 0 {
                out.push(45);
                push_decimal_bytes(out, (0 - (*n as i128)) as u128);
            } else {
                push_decimal_bytes(out, *n as u128);
            }
            out.push(101);
            assert(out@ =~= old(out)@ + encode(c@));
        },
        Content::Str(s) => {
            push_byte_string(out, s.as_str().as_bytes());
        },
        Content::Bytes(b) => {
            push_byte_string(out, b.as_slice());
        },
        Content::List(items) => {
            out.push(108);
            let ghost views = item_views(items@);
            let mut i: usize = 0;
            assert(encode_items(views.subrange(0, 0)) =~= Seq::<u8>::empty());
            while i < items.len()
                invariant
                    i <= items@.len(),
                    views == item_views(items@),
                    decreases_to!(c => items),
                    out@ == old(out)@ + seq![108u8] + encode_items(views.subrange(0, i as int)),
                decreases items@.len() - i,
            {
                assert(decreases_to!(items => items@[i as int]));
                push_content(out, &items[i]);
                i += 1;
                proof {
                    let now = views.subrange(0, i as int);
                    assert(now.drop_last() =~= views.subrange(0, i - 1));
                    assert(now.last() == items@[i - 1]@);
                    assert(out@ =~= old(out)@ + seq![108u8] + encode_items(now));
                }
            }
            out.push(101);
            assert(views.subrange(0, i as int) =~= views);
            assert(out@ =~= old(out)@ + encode(c@));
        },
        Content::Dict(d) => {
            out.push(100);
            let ghost views = d@;
            let mut i: usize = 0;
            assert(encode_entries(views.subrange(0, 0)) =~= Seq::<u8>::empty());
            while i < d.entries.len()
                invariant
                    i <= d.entries@.len(),
                    views == d@,
                    decreases_to!(c => d),
                    out@ == old(out)@ + seq![100u8] + encode_entries(views.subrange(0, i as int)),
                decreases d.entries@.len() - i,
            {
                push_byte_string(out, d.entries[i].0.as_str().as_bytes());
                assert(decreases_to!(d => d.entries));
                assert(decreases_to!(d.entries => d.entries@[i as int]));
                assert(decreases_to!(d.entries@[i as int] => d.entries@[i as int].1));
                push_content(out, &d.entries[i].1);
                i += 1;
                proof {
                    let now = views.subrange(0, i as int);
                    assert(now.drop_last() =~= views.subrange(0, i - 1));
                    assert(now.last() == (d.entries@[i - 1].0@, d.entries@[i - 1].1@));
                    assert(out@ =~= old(out)@ + seq![100u8] + encode_entries(now));
                }
            }
            out.push(101);
            assert(views.subrange(0, i as int) =~= views);
            assert(out@ =~= old(out)@ + encode(c@));
        },
    }
}

/// The bytes that bencode writes for a value.
pub fn encode_content(c: &Content) -> (out: Vec<u8>)
    ensures
        out@ == encode(c@),
{
    let mut out: Vec<u8> = Vec::new();
    push_content(&mut out, c);
    assert(out@ =~= encode(c@));
    out
}

} // verus!
