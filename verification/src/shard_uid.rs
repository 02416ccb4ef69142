//! Shard identifiers and the keys that are built from them.

use crate::bytes::{
    copy_range, get_u32_be, lemma_lex_prefix_decides, lemma_lex_same_prefix, lemma_u32_be_of_bytes,
    lemma_u32_be_order, lemma_u32_be_round_trip, lex_lt, put_bytes, put_u32_be, u32_be,
    u32_from_be,
};
use crate::hash::{ValueHash, HASH_LEN};
use vstd::prelude::*;

verus! {

/// Number of bytes in an encoded shard identifier.
pub const SHARD_UID_LEN: usize = 8;

/// Names a shard within one version of the shard layout.
#[derive(Clone, Copy, Debug, PartialEq, Eq, Hash)]
pub struct ShardUid {
    /// Version of the shard layout.
    pub version: u32,
    /// Number of the shard within that layout.
    pub shard_id: u32,
}

/// Why a flat-state key could not be taken apart.
#[derive(Clone, Copy, Debug, PartialEq, Eq)]
pub enum KeyError {
    /// The key is shorter than a shard identifier.
    TooShort,
}

impl ShardUid {
    /// The eight bytes of the identifier: version, then shard number, each
    /// big-endian, so that keys sort by shard.
    pub open spec fn to_seq(self) -> Seq<u8> {
        u32_be(self.version) + u32_be(self.shard_id)
    }

    /// The identifier that the first eight bytes of `bytes` encode.
    pub open spec fn from_seq(bytes: Seq<u8>) -> ShardUid {
        ShardUid {
            version: u32_from_be(bytes.subrange(0, 4)) as u32,
            shard_id: u32_from_be(bytes.subrange(4, 8)) as u32,
        }
    }

    /// Decoding an encoded identifier gives it back.
    pub proof fn lemma_round_trip(self)
        ensures
            self.to_seq().len() == SHARD_UID_LEN,
            ShardUid::from_seq(self.to_seq()) == self,
    {
        lemma_u32_be_round_trip(self.version);
        lemma_u32_be_round_trip(self.shard_id);
    }

    /// Any eight bytes are the encoding of the identifier they decode to.
    pub proof fn lemma_of_bytes(bytes: Seq<u8>)
        requires
            bytes.len() == SHARD_UID_LEN,
        ensures
            ShardUid::from_seq(bytes).to_seq() == bytes,
    {
        lemma_u32_be_of_bytes(bytes.subrange(0, 4));
        lemma_u32_be_of_bytes(bytes.subrange(4, 8));
    }

    /// The encoded identifier.
    pub fn to_bytes(&self) -> (bytes: Vec<u8>)
        ensures
            bytes@ == self.to_seq(),
            bytes@.len() == SHARD_UID_LEN,
    {
        let mut bytes: Vec<u8> = Vec::new();
        put_u32_be(&mut bytes, self.version);
        put_u32_be(&mut bytes, self.shard_id);
        bytes
    }

    /// The identifier at the start of `bytes`.
    pub fn from_prefix(bytes: &[u8]) -> (uid: ShardUid)
        requires
            bytes@.len() >= SHARD_UID_LEN,
        ensures
            uid == ShardUid::from_seq(bytes@.subrange(0, SHARD_UID_LEN as int)),
            uid.to_seq() == bytes@.subrange(0, SHARD_UID_LEN as int),
    {
        let version: u32 = get_u32_be(bytes, 0);
        let shard_id: u32 = get_u32_be(bytes, 4);
        proof {
            let head = bytes@.subrange(0, SHARD_UID_LEN as int);
            ShardUid::lemma_of_bytes(head);
        }
        ShardUid { version, shard_id }
    }
}

/// The flat-state key of `trie_key` in shard `shard_uid`: the shard
/// identifier followed by the trie key.
pub open spec fn flat_state_key(shard_uid: ShardUid, trie_key: Seq<u8>) -> Seq<u8> {
    shard_uid.to_seq() + trie_key
}

/// The shard that a flat-state key belongs to, if the key is long enough to
/// name one.
pub open spec fn key_shard_uid(key: Seq<u8>) -> Option<ShardUid> {
    if key.len() < SHARD_UID_LEN {
        None
    } else {
        Some(ShardUid::from_seq(key.subrange(0, SHARD_UID_LEN as int)))
    }
}

/// The key under which the trie store holds the value with digest `hash` for
/// shard `shard_uid`: the shard identifier followed by the digest.
pub open spec fn trie_store_key(shard_uid: ShardUid, hash: Seq<u8>) -> Seq<u8> {
    shard_uid.to_seq() + hash
}

/// Taking a built key apart gives back the shard and the trie key.
pub proof fn lemma_flat_state_key_round_trip(shard_uid: ShardUid, trie_key: Seq<u8>)
    ensures
        key_shard_uid(flat_state_key(shard_uid, trie_key)) == Some(shard_uid),
        flat_state_key(shard_uid, trie_key).skip(SHARD_UID_LEN as int) == trie_key,
{
    shard_uid.lemma_round_trip();
    let key = flat_state_key(shard_uid, trie_key);
    assert(key.skip(SHARD_UID_LEN as int) =~= trie_key);
}

/// Whether shard `a` comes before shard `b`: by version, then by number.
pub open spec fn shard_before(a: ShardUid, b: ShardUid) -> bool {
    a.version < b.version || (a.version == b.version && a.shard_id < b.shard_id)
}

/// Flat-state keys sort by shard: every key of a shard comes before every
/// key of a later shard, and the keys of one shard are ordered as their
/// trie keys are.
pub proof fn lemma_keys_sort_by_shard(a: ShardUid, b: ShardUid, first: Seq<u8>, second: Seq<u8>)
    ensures
        shard_before(a, b) ==> lex_lt(flat_state_key(a, first), flat_state_key(b, second)),
        lex_lt(flat_state_key(a, first), flat_state_key(a, second)) == lex_lt(first, second),
{
    lemma_lex_same_prefix(a.to_seq(), first, second);
    if shard_before(a, b) {
        lemma_u32_be_order(a.version, b.version);
        lemma_u32_be_order(a.shard_id, b.shard_id);
        if a.version < b.version {
            lemma_lex_prefix_decides(
                u32_be(a.version),
                u32_be(b.version),
                u32_be(a.shard_id),
                u32_be(b.shard_id),
            );
        } else {
            lemma_lex_same_prefix(u32_be(a.version), u32_be(a.shard_id), u32_be(b.shard_id));
        }
        a.lemma_round_trip();
        b.lemma_round_trip();
        lemma_lex_prefix_decides(a.to_seq(), b.to_seq(), first, second);
    }
}

/// Builds the flat-state key of `trie_key` in shard `shard_uid`.
pub fn encode_flat_state_db_key(shard_uid: ShardUid, trie_key: &[u8]) -> (key: Vec<u8>)
    ensures
        key@ == flat_state_key(shard_uid, trie_key@),
{
    let mut key = shard_uid.to_bytes();
    put_bytes(&mut key, trie_key);
    key
}

/// Splits a flat-state key into its shard and its trie key. Fails exactly on
/// keys shorter than a shard identifier.
pub fn decode_flat_state_db_key(key: &[u8]) -> (parts: Result<(ShardUid, Vec<u8>), KeyError>)
    ensures
        parts is Err <==> key@.len() < SHARD_UID_LEN,
        parts is Err ==> parts == Err::<(ShardUid, Vec<u8>), KeyError>(KeyError::TooShort),
        parts matches Ok((uid, trie_key)) ==> {
            &&& key_shard_uid(key@) == Some(uid)
            &&& trie_key@ == key@.skip(SHARD_UID_LEN as int)
            &&& key@ == flat_state_key(uid, trie_key@)
        },
{
    if key.len() < SHARD_UID_LEN {
        return Err(KeyError::TooShort);
    }
    let uid = ShardUid::from_prefix(key);
    let trie_key = copy_range(key, SHARD_UID_LEN, key.len());
    Ok((uid, trie_key))
}

/// Builds the key under which the trie store holds the value with digest
/// `hash` for shard `shard_uid`.
pub fn get_key_from_shard_uid_and_hash(shard_uid: ShardUid, hash: &ValueHash) -> (key: Vec<u8>)
    ensures
        key@ == trie_store_key(shard_uid, hash@),
        key@.len() == SHARD_UID_LEN + HASH_LEN,
{
    let mut key = shard_uid.to_bytes();
    put_bytes(&mut key, hash.as_bytes());
    key
}

} // verus!
