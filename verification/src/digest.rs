use vstd::prelude::*;
use ::sha1::Digest;

verus! {

/// The SHA-1 digest of a byte string, as the `sha1` crate computes it.
pub uninterp spec fn sha1_of(data: Seq<u8>) -> Seq<u8>;

/// Hashes the bytes of `data` from `start` up to `end`.
///
/// Trusted: calls `sha1::Sha1::digest` on that slice. The contract names the
/// result and claims its length, 20 bytes, which is the output size that the
/// crate declares for `Sha1`.
#[verifier::external_body]
pub(crate) fn sha1_digest(data: &Vec<u8>, start: usize, end: usize) -> (digest: Vec<u8>)
    requires
        start <= end <= data.len(),
    ensures
        digest@ == sha1_of(data@.subrange(start as int, end as int)),
        digest@.len() == 20,
{
    ::sha1::Sha1::digest(&data[start..end]).to_vec()
}

/// Whether two byte strings are equal.
pub fn same_bytes(a: &Vec<u8>, b: &Vec<u8>) -> (same: bool)
    ensures
        same == (a@ == b@),
{
    if a.len() != b.len() {
        return false;
    }
    let mut i: usize = 0;
    while i < a.len()
        invariant
            a.len() == b.len(),
            i <= a.len(),
            a@.subrange(0, i as int) == b@.subrange(0, i as int),
        decreases a.len() - i,
    {
        if a[i] != b[i] {
            return false;
        }
        i += 1;
        assert(a@.subrange(0, i as int) =~= a@.subrange(0, i - 1).push(a@[i - 1]));
        assert(b@.subrange(0, i as int) =~= b@.subrange(0, i - 1).push(b@[i - 1]));
    }
    assert(a@ =~= a@.subrange(0, i as int));
    assert(b@ =~= b@.subrange(0, i as int));
    true
}

/// Whether `piece` has the digest `expected_hash`.
pub fn check_piece(piece: &Vec<u8>, expected_hash: &Vec<u8>) -> (ok: bool)
    ensures
        ok == (sha1_of(piece@) == expected_hash@),
{
    let piece_hash = sha1_digest(piece, 0, piece.len());
    assert(piece@.subrange(0, piece@.len() as int) =~= piece@);
    same_bytes(&piece_hash, expected_hash)
}

} // verus!
