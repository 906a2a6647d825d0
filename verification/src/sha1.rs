use vstd::prelude::*;
use crate::bytes::{be_value, push_u32_be, push_u64_be, read_u32_be, u32_be, u64_be};

verus! {

/// The five words of a SHA-1 state.
#[derive(Clone, Copy, Debug, PartialEq, Eq, Structural)]
pub struct State {
    pub a: u32,
    pub b: u32,
    pub c: u32,
    pub d: u32,
    pub e: u32,
}

/// The state before any block.
pub open spec fn initial_state() -> State {
    State { a: 0x67452301, b: 0xEFCDAB89, c: 0x98BADCFE, d: 0x10325476, e: 0xC3D2E1F0 }
}

/// Addition of words, modulo 2 to the 32.
pub open spec fn add32(x: u32, y: u32) -> u32 {
    ((x + y) % 0x1_0000_0000) as u32
}

/// The word `x` turned left by `n` bits.
pub open spec fn rotl(x: u32, n: u32) -> u32 {
    (x << n) | (x >> ((32 - n) as u32))
}

/// The function of round `t`.
pub open spec fn round_fn(t: int, b: u32, c: u32, d: u32) -> u32 {
    if t < 20 {
        (b & c) | ((!b) & d)
    } else if t < 40 {
        b ^ c ^ d
    } else if t < 60 {
        (b & c) | (b & d) | (c & d)
    } else {
        b ^ c ^ d
    }
}

/// The constant of round `t`.
pub open spec fn round_const(t: int) -> u32 {
    if t < 20 {
        0x5A827999
    } else if t < 40 {
        0x6ED9EBA1
    } else if t < 60 {
        0x8F1BBCDC
    } else {
        0xCA62C1D6
    }
}

/// Word `t` of the message schedule of a block of 64 bytes.
pub open spec fn schedule(block: Seq<u8>, t: int) -> u32
    decreases t,
{
    if t < 16 {
        be_value(block.subrange(4 * t, 4 * t + 4)) as u32
    } else {
        rotl(schedule(block, t - 3) ^ schedule(block, t - 8) ^ schedule(block, t - 14) ^ schedule(block, t - 16), 1)
    }
}

/// One round: the state `s` takes in the word `w` in round `t`.
pub open spec fn round(s: State, w: u32, t: int) -> State {
    State {
        a: add32(add32(add32(add32(rotl(s.a, 5), round_fn(t, s.b, s.c, s.d)), s.e), round_const(t)), w),
        b: s.a,
        c: rotl(s.b, 30),
        d: s.c,
        e: s.d,
    }
}

/// The state after the first `t` rounds on a block.
pub open spec fn rounds(s: State, block: Seq<u8>, t: nat) -> State
    decreases t,
{
    if t == 0 {
        s
    } else {
        round(rounds(s, block, (t - 1) as nat), schedule(block, t - 1), t - 1)
    }
}

/// The state after a block: the 80 rounds on it, added to the state before.
pub open spec fn compress(h: State, block: Seq<u8>) -> State {
    let r = rounds(h, block, 80);
    State { a: add32(h.a, r.a), b: add32(h.b, r.b), c: add32(h.c, r.c), d: add32(h.d, r.d), e: add32(h.e, r.e) }
}

/// The state after the first `n` blocks of `padded`.
pub open spec fn absorb(padded: Seq<u8>, n: nat) -> State
    decreases n,
{
    if n == 0 {
        initial_state()
    } else {
        compress(absorb(padded, (n - 1) as nat), padded.subrange(64 * (n - 1), 64 * (n as int)))
    }
}

/// The zero bytes that the padding of a message of `len` bytes takes.
pub open spec fn zero_count(len: nat) -> nat {
    if len % 64 < 56 {
        (55 - len % 64) as nat
    } else {
        (119 - len % 64) as nat
    }
}

/// What is appended to a message of `len` bytes: the byte 0x80, zero bytes
/// up to 8 bytes before a multiple of 64, and the length of the message in
/// bits as 8 bytes.
pub open spec fn padding(len: nat) -> Seq<u8> {
    seq![0x80u8] + Seq::new(zero_count(len), |i: int| 0u8) + u64_be(((8 * len) % 0x1_0000_0000_0000_0000) as u64)
}

/// The SHA-1 digest of a message.
pub open spec fn sha1(message: Seq<u8>) -> Seq<u8> {
    let padded = message + padding(message.len());
    let h = absorb(padded, padded.len() / 64);
    u32_be(h.a) + u32_be(h.b) + u32_be(h.c) + u32_be(h.d) + u32_be(h.e)
}

fn sum32(x: u32, y: u32) -> (r: u32)
    ensures
        r == add32(x, y),
{
    ((x as u64 + y as u64) % 0x1_0000_0000) as u32
}

fn rotate(x: u32, n: u32) -> (r: u32)
    requires
        0 < n < 32,
    ensures
        r == rotl(x, n),
{
    (x << n) | (x >> (32 - n))
}

/// The words of the message schedule of the block of `padded` at `base`.
fn expand(padded: &Vec<u8>, base: usize) -> (w: Vec<u32>)
    requires
        base + 64 <= padded.len(),
    ensures
        w@.len() == 80,
        forall|t: int| 0 <= t < 80 ==> w@[t] == schedule(padded@.subrange(base as int, base + 64), t),
{
    let ghost block = padded@.subrange(base as int, base + 64);
    let mut w: Vec<u32> = Vec::new();
    let mut t: usize = 0;
    while t < 16
        invariant
            t <= 16,
            base + 64 <= padded.len(),
            block == padded@.subrange(base as int, base + 64),
            w@.len() == t,
            forall|j: int| 0 <= j < t ==> w@[j] == schedule(block, j),
        decreases 16 - t,
    {
        let word = read_u32_be(padded, base + 4 * t);
        assert(padded@.subrange(base + 4 * t, base + 4 * t + 4) =~= block.subrange(4 * t, 4 * t + 4));
        assert(word == schedule(block, t as int));
        w.push(word);
        t += 1;
    }
    while t < 80
        invariant
            16 <= t <= 80,
            w@.len() == t,
            forall|j: int| 0 <= j < t ==> w@[j] == schedule(block, j),
        decreases 80 - t,
    {
        let word = rotate(w[t - 3] ^ w[t - 8] ^ w[t - 14] ^ w[t - 16], 1);
        assert(w@[t - 3] == schedule(block, t - 3));
        assert(w@[t - 8] == schedule(block, t - 8));
        assert(w@[t - 14] == schedule(block, t - 14));
        assert(w@[t - 16] == schedule(block, t - 16));
        assert(schedule(block, t as int) == rotl(
            schedule(block, t - 3) ^ schedule(block, t - 8) ^ schedule(block, t - 14) ^ schedule(block, t - 16),
            1,
        ));
        assert(word == schedule(block, t as int));
        w.push(word);
        t += 1;
    }
    w
}

/// The state after the block of `padded` at `base`.
fn compress_block(h: State, padded: &Vec<u8>, base: usize) -> (r: State)
    requires
        base + 64 <= padded.len(),
    ensures
        r == compress(h, padded@.subrange(base as int, base + 64)),
{
    let ghost block = padded@.subrange(base as int, base + 64);
    let w = expand(padded, base);
    let mut s = h;
    let mut t: usize = 0;
    while t < 80
        invariant
            t <= 80,
            w@.len() == 80,
            forall|j: int| 0 <= j < 80 ==> w@[j] == schedule(block, j),
            s == rounds(h, block, t as nat),
        decreases 80 - t,
    {
        let f: u32 = if t < 20 {
            (s.b & s.c) | ((!s.b) & s.d)
        } else if t < 40 {
            s.b ^ s.c ^ s.d
        } else if t < 60 {
            (s.b & s.c) | (s.b & s.d) | (s.c & s.d)
        } else {
            s.b ^ s.c ^ s.d
        };
        let k: u32 = if t < 20 {
            0x5A827999
        } else if t < 40 {
            0x6ED9EBA1
        } else if t < 60 {
            0x8F1BBCDC
        } else {
            0xCA62C1D6
        };
        let tmp = sum32(sum32(sum32(sum32(rotate(s.a, 5), f), s.e), k), w[t]);
        s = State { a: tmp, b: s.a, c: rotate(s.b, 30), d: s.c, e: s.d };
        t += 1;
    }
    State {
        a: sum32(h.a, s.a),
        b: sum32(h.b, s.b),
        c: sum32(h.c, s.c),
        d: sum32(h.d, s.d),
        e: sum32(h.e, s.e),
    }
}

/// The length of a message in bits, as the padding carries it.
fn bit_length(len: usize) -> (bits: u64)
    ensures
        bits == (8 * len) % 0x1_0000_0000_0000_0000,
{
    ((len as u128 * 8) % 0x1_0000_0000_0000_0000) as u64
}

/// A message with its padding is a whole number of blocks.
pub proof fn lemma_padded_len(len: nat)
    ensures
        padding(len).len() == 1 + zero_count(len) + 8,
        (len + padding(len).len()) % 64 == 0,
{
    let rest = len % 64;
    assert(len == 64 * (len / 64) + rest);
    if rest < 56 {
        assert(len + 1 + (55 - rest) + 8 == 64 * (len / 64 + 1));
    } else {
        assert(len + 1 + (119 - rest) + 8 == 64 * (len / 64 + 2));
    }
}

/// The message with its padding.
fn pad(bytes: &Vec<u8>) -> (padded: Vec<u8>)
    ensures
        padded@ == bytes@ + padding(bytes@.len()),
        padded@.len() % 64 == 0,
{
    let mut padded: Vec<u8> = Vec::new();
    let mut i: usize = 0;
    while i < bytes.len()
        invariant
            i <= bytes@.len(),
            padded@ == bytes@.subrange(0, i as int),
        decreases bytes@.len() - i,
    {
        padded.push(bytes[i]);
        i += 1;
        assert(padded@ =~= bytes@.subrange(0, i as int));
    }
    assert(padded@ =~= bytes@);
    padded.push(0x80);
    let rest: usize = bytes.len() % 64;
    let zeros: usize = if rest < 56 {
        55 - rest
    } else {
        119 - rest
    };
    let mut z: usize = 0;
    while z < zeros
        invariant
            z <= zeros,
            padded@ == bytes@ + seq![0x80u8] + Seq::new(z as nat, |i: int| 0u8),
        decreases zeros - z,
    {
        padded.push(0);
        z += 1;
        assert(padded@ =~= bytes@ + seq![0x80u8] + Seq::new(z as nat, |i: int| 0u8));
    }
    let bits: u64 = bit_length(bytes.len());
    push_u64_be(&mut padded, bits);
    proof {
        lemma_padded_len(bytes@.len());
        assert(padded@ =~= bytes@ + padding(bytes@.len()));
    }
    padded
}

/// The SHA-1 digest of `bytes`.
pub fn sha1_encode(bytes: &Vec<u8>) -> (hash: Vec<u8>)
    ensures
        hash@ == sha1(bytes@),
        hash@.len() == 20,
{
    let padded = pad(bytes);
    let blocks: usize = padded.len() / 64;
    let mut h = State { a: 0x67452301, b: 0xEFCDAB89, c: 0x98BADCFE, d: 0x10325476, e: 0xC3D2E1F0 };
    let mut n: usize = 0;
    while n < blocks
        invariant
            n <= blocks,
            blocks == padded@.len() / 64,
            64 * blocks <= padded@.len() <= usize::MAX,
            h == absorb(padded@, n as nat),
        decreases blocks - n,
    {
        h = compress_block(h, &padded, 64 * n);
        n += 1;
    }
    let mut hash: Vec<u8> = Vec::new();
    push_u32_be(&mut hash, h.a);
    push_u32_be(&mut hash, h.b);
    push_u32_be(&mut hash, h.c);
    push_u32_be(&mut hash, h.d);
    push_u32_be(&mut hash, h.e);
    assert(hash@ =~= sha1(bytes@));
    hash
}

} // verus!
