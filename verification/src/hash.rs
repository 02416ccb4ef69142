//! Content digests: the 32-byte names under which values are stored.

use sha2::Digest;
use vstd::prelude::*;

verus! {

/// Number of bytes in a digest.
pub const HASH_LEN: usize = 32;

/// The SHA-256 digest of `data`, as the `sha2` crate computes it.
pub uninterp spec fn sha256(data: Seq<u8>) -> Seq<u8>;

/// Calls `sha2::Sha256::digest` (the `Digest` trait's one-shot function) on
/// `data`. Trusted: the 32 bytes that come back are a function of the input
/// bytes alone, which the contract names `sha256`.
#[verifier::external_body]
fn sha256_digest(data: &[u8]) -> (digest: [u8; 32])
    ensures
        digest@ == sha256(data@),
{
    sha2::Sha256::digest(data).into()
}

/// A 32-byte content digest that names a value in the trie store.
#[derive(Clone, Copy, Debug, PartialEq, Eq, Hash)]
pub struct ValueHash(pub [u8; 32]);

impl View for ValueHash {
    type V = Seq<u8>;

    open spec fn view(&self) -> Seq<u8> {
        self.0@
    }
}

impl ValueHash {
    /// The digest of `data`.
    pub fn hash_bytes(data: &[u8]) -> (hash: ValueHash)
        ensures
            hash@ == sha256(data@),
            hash@.len() == HASH_LEN,
    {
        ValueHash(sha256_digest(data))
    }

    /// The digest held in `bytes[at..at + 32]`.
    pub fn from_slice(bytes: &[u8], at: usize) -> (hash: ValueHash)
        requires
            at + HASH_LEN <= bytes@.len(),
        ensures
            hash@ == bytes@.subrange(at as int, at + HASH_LEN),
    {
        let len: usize = bytes.len();
        let mut raw: [u8; 32] = [0u8; 32];
        let mut i: usize = 0;
        while i < 32
            invariant
                i <= 32,
                at + 32 <= len == bytes@.len(),
                forall|j: int| 0 <= j < i ==> raw@[j] == bytes@[at + j],
            decreases 32 - i,
        {
            raw[i] = bytes[at + i];
            i += 1;
        }
        ValueHash(raw)
    }

    /// The 32 bytes of the digest.
    pub fn as_bytes(&self) -> (bytes: &[u8])
        ensures
            bytes@ == self@,
            bytes@.len() == HASH_LEN,
    {
        self.0.as_slice()
    }

    /// Whether both digests hold the same bytes.
    pub fn same_as(&self, other: &ValueHash) -> (same: bool)
        ensures
            same == (self@ == other@),
            same == (*self == *other),
    {
        let same = crate::bytes::bytes_eq(self.0.as_slice(), other.0.as_slice());
        proof {
            if same {
                assert(self.0 =~= other.0);
            }
        }
        same
    }
}

/// The digest of `data`.
pub fn hash(data: &[u8]) -> (digest: ValueHash)
    ensures
        digest@ == sha256(data@),
        digest@.len() == HASH_LEN,
{
    ValueHash::hash_bytes(data)
}

} // verus!
