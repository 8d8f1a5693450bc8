//! 256-bit hashes: the Blake2b hash of bytes, and the four 64-bit words by
//! which a hash is used as a map key.
use vstd::prelude::*;

verus! {

/// A 256-bit hash as its four little-endian 64-bit words.
pub type HashKey = (u64, u64, u64, u64);

/// The 256-bit Blake2b hash of `data`.
pub uninterp spec fn blake2_256_of(data: Seq<u8>) -> [u8; 32];

/// `<Blake2Hasher as Hasher>::hash` of `sp-core`: the 256-bit Blake2b hash of
/// `data`, which is `blake2_256_of(data)`.
#[verifier::external_body]
pub(crate) fn blake2_256(data: &Vec<u8>) -> (r: [u8; 32])
    ensures
        r == blake2_256_of(data@),
{
    <sp_core::Blake2Hasher as sp_core::Hasher>::hash(data.as_slice()).0
}

/// The little-endian 64-bit word of bytes `8 * w .. 8 * w + 8` of `id`.
pub open spec fn word(id: [u8; 32], w: int) -> u64 {
    (id[8 * w] as int + id[8 * w + 1] as int * 0x100 + id[8 * w + 2] as int * 0x1_0000 + id[8 * w + 3] as int * 0x100_0000
        + id[8 * w + 4] as int * 0x1_0000_0000 + id[8 * w + 5] as int * 0x100_0000_0000
        + id[8 * w + 6] as int * 0x1_0000_0000_0000 + id[8 * w + 7] as int * 0x100_0000_0000_0000) as u64
}

/// The key of a hash.
pub open spec fn hash_key_of(id: [u8; 32]) -> HashKey {
    (word(id, 0), word(id, 1), word(id, 2), word(id, 3))
}

/// The little-endian word `w` of a hash.
fn word_of(id: &[u8; 32], w: usize) -> (r: u64)
    requires
        w < 4,
    ensures
        r == word(*id, w as int),
{
    let i = 8 * w;
    (id[i] as u64) + (id[i + 1] as u64) * 0x100 + (id[i + 2] as u64) * 0x1_0000 + (id[i + 3] as u64) * 0x100_0000
        + (id[i + 4] as u64) * 0x1_0000_0000 + (id[i + 5] as u64) * 0x100_0000_0000
        + (id[i + 6] as u64) * 0x1_0000_0000_0000 + (id[i + 7] as u64) * 0x100_0000_0000_0000
}

/// The key of a hash.
pub fn hash_key(id: &[u8; 32]) -> (r: HashKey)
    ensures
        r == hash_key_of(*id),
{
    (word_of(id, 0), word_of(id, 1), word_of(id, 2), word_of(id, 3))
}

/// Whether two hashes are the same.
pub fn same_hash(a: &[u8; 32], b: &[u8; 32]) -> (r: bool)
    ensures
        r == (*a == *b),
{
    for i in 0..32
        invariant
            forall|j: int| 0 <= j < i ==> a[j] == b[j],
    {
        if a[i] != b[i] {
            return false;
        }
    }
    assert(a@ =~= b@);
    assert(*a =~= *b);
    true
}

} // verus!
