use vstd::prelude::*;

verus! {

/// The two bytes of `x`, most significant first.
pub open spec fn u16_be(x: u16) -> Seq<u8> {
    seq![(x / 0x100) as u8, (x % 0x100) as u8]
}

/// The four bytes of `x`, most significant first.
pub open spec fn u32_be(x: u32) -> Seq<u8> {
    seq![
        (x / 0x100_0000) as u8,
        (x / 0x1_0000 % 0x100) as u8,
        (x / 0x100 % 0x100) as u8,
        (x % 0x100) as u8,
    ]
}

/// The eight bytes of `x`, most significant first.
pub open spec fn u64_be(x: u64) -> Seq<u8> {
    u32_be((x / 0x1_0000_0000) as u32) + u32_be((x % 0x1_0000_0000) as u32)
}

/// The number whose big-endian digits in base 256 are `bytes`.
pub open spec fn be_value(bytes: Seq<u8>) -> nat
    decreases bytes.len(),
{
    if bytes.len() == 0 {
        0
    } else {
        be_value(bytes.drop_last()) * 256 + bytes.last() as nat
    }
}

/// The value of four big-endian bytes, written out.
pub open spec fn be_value4(b0: u8, b1: u8, b2: u8, b3: u8) -> nat {
    (b0 as nat) * 0x100_0000 + (b1 as nat) * 0x1_0000 + (b2 as nat) * 0x100 + b3 as nat
}

/// Four bytes have the value that `be_value4` spells out.
pub proof fn lemma_be_value4(bytes: Seq<u8>)
    requires
        bytes.len() == 4,
    ensures
        be_value(bytes) == be_value4(bytes[0], bytes[1], bytes[2], bytes[3]),
{
    let s3 = bytes.drop_last();
    let s2 = s3.drop_last();
    let s1 = s2.drop_last();
    let s0 = s1.drop_last();
    assert(s0.len() == 0);
    assert(be_value(s0) == 0);
    assert(be_value(s1) == be_value(s0) * 256 + s1.last() as nat);
    assert(be_value(s2) == be_value(s1) * 256 + s2.last() as nat);
    assert(be_value(s3) == be_value(s2) * 256 + s3.last() as nat);
    assert(be_value(bytes) == be_value(s3) * 256 + bytes.last() as nat);
}

/// Reading back the big-endian bytes of a `u32` gives the number.
pub proof fn lemma_u32_be_value(x: u32)
    ensures
        u32_be(x).len() == 4,
        be_value(u32_be(x)) == x,
{
    lemma_be_value4(u32_be(x));
}

/// Appends the big-endian bytes of `x` to `out`.
pub fn push_u16_be(out: &mut Vec<u8>, x: u16)
    ensures
        final(out)@ == old(out)@ + u16_be(x),
{
    out.push((x / 0x100) as u8);
    out.push((x % 0x100) as u8);
    assert(out@ =~= old(out)@ + u16_be(x));
}

/// Appends the big-endian bytes of `x` to `out`.
pub fn push_u32_be(out: &mut Vec<u8>, x: u32)
    ensures
        final(out)@ == old(out)@ + u32_be(x),
{
    out.push((x / 0x100_0000) as u8);
    out.push((x / 0x1_0000 % 0x100) as u8);
    out.push((x / 0x100 % 0x100) as u8);
    out.push((x % 0x100) as u8);
    assert(out@ =~= old(out)@ + u32_be(x));
}

/// Appends the big-endian bytes of `x` to `out`.
pub fn push_u64_be(out: &mut Vec<u8>, x: u64)
    ensures
        final(out)@ == old(out)@ + u64_be(x),
{
    let ghost before = out@;
    push_u32_be(out, (x / 0x1_0000_0000) as u32);
    push_u32_be(out, (x % 0x1_0000_0000) as u32);
    assert(out@ =~= before + u64_be(x));
}

/// Copies the bytes of `data` from `from` up to `to`.
pub fn copy_range(data: &Vec<u8>, from: usize, to: usize) -> (part: Vec<u8>)
    requires
        from <= to <= data.len(),
    ensures
        part@ == data@.subrange(from as int, to as int),
{
    let mut part: Vec<u8> = Vec::new();
    let mut i: usize = from;
    while i < to
        invariant
            from <= i <= to <= data.len(),
            part@ == data@.subrange(from as int, i as int),
        decreases to - i,
    {
        part.push(data[i]);
        i += 1;
        assert(part@ =~= data@.subrange(from as int, i as int));
    }
    part
}

/// Appends the bytes `from` to `out`.
pub fn append_bytes(out: &mut Vec<u8>, from: &[u8])
    ensures
        final(out)@ == old(out)@ + from@,
{
    let mut i: usize = 0;
    while i < from.len()
        invariant
            i <= from@.len(),
            out@ == old(out)@ + from@.subrange(0, i as int),
        decreases from@.len() - i,
    {
        out.push(from[i]);
        i += 1;
        assert(out@ =~= old(out)@ + from@.subrange(0, i as int));
    }
    assert(from@.subrange(0, i as int) =~= from@);
}

/// Appends the vector `from` to `out`.
pub fn append_vec(out: &mut Vec<u8>, from: &Vec<u8>)
    ensures
        final(out)@ == old(out)@ + from@,
{
    append_bytes(out, from.as_slice());
}

/// Reads the four bytes of `data` from `at` on as a big-endian number.
pub fn read_u32_be(data: &Vec<u8>, at: usize) -> (x: u32)
    requires
        at + 4 <= data.len(),
    ensures
        x == be_value(data@.subrange(at as int, at + 4)),
{
    proof {
        lemma_be_value4(data@.subrange(at as int, at + 4));
    }
    let b0: u32 = data[at] as u32;
    let b1: u32 = data[at + 1] as u32;
    let b2: u32 = data[at + 2] as u32;
    let b3: u32 = data[at + 3] as u32;
    b0 * 0x100_0000 + b1 * 0x1_0000 + b2 * 0x100 + b3
}

/// Reads the eight bytes of `data` from `at` on as a big-endian number.
pub fn read_u64_be(data: &Vec<u8>, at: usize) -> (x: u64)
    requires
        at + 8 <= data.len(),
    ensures
        x == be_value(data@.subrange(at as int, at + 8)),
{
    let hi: u64 = read_u32_be(data, at) as u64;
    let lo: u64 = read_u32_be(data, at + 4) as u64;
    proof {
        lemma_be_value_concat(
            data@.subrange(at as int, at + 4),
            data@.subrange(at + 4, at + 8),
        );
        assert(data@.subrange(at as int, at + 4) + data@.subrange(at + 4, at + 8)
            =~= data@.subrange(at as int, at + 8));
    }
    hi * 0x1_0000_0000 + lo
}

/// The value of a concatenation: the left part is shifted by the length of the right part.
pub proof fn lemma_be_value_concat(a: Seq<u8>, b: Seq<u8>)
    requires
        b.len() == 4,
    ensures
        be_value(a + b) == be_value(a) * 0x1_0000_0000 + be_value(b),
{
    let s4 = a + b;
    let s3 = s4.drop_last();
    let s2 = s3.drop_last();
    let s1 = s2.drop_last();
    let s0 = s1.drop_last();
    assert(s0 =~= a);
    lemma_be_value4(b);
    assert(be_value(s1) == be_value(s0) * 256 + s1.last() as nat);
    assert(be_value(s2) == be_value(s1) * 256 + s2.last() as nat);
    assert(be_value(s3) == be_value(s2) * 256 + s3.last() as nat);
    assert(be_value(s4) == be_value(s3) * 256 + s4.last() as nat);
    assert(s1.last() == b[0]);
    assert(s2.last() == b[1]);
    assert(s3.last() == b[2]);
    assert(s4.last() == b[3]);
}

} // verus!
