//! The values of the flat-state column and their byte format.
//!
//! A value is stored as one tag byte and a payload:
//! `0x00 ‖ digest (32) ‖ length (u32, little-endian)` for a reference, and
//! `0x01 ‖ length (u32, little-endian) ‖ bytes` for inlined bytes.

use crate::bytes::{
    copy_bytes, copy_range, get_u32_le, lemma_u32_le_of_bytes, lemma_u32_le_round_trip, put_bytes,
    put_u32_le, u32_from_le, u32_le,
};
use crate::hash::{hash, sha256, ValueHash, HASH_LEN};
use vstd::prelude::*;

verus! {

/// Values up to this many bytes long are stored inlined.
pub const INLINE_DISK_VALUE_THRESHOLD: usize = 4000;

/// Tag byte of an encoded reference.
pub const TAG_REF: u8 = 0;

/// Tag byte of encoded inlined bytes.
pub const TAG_INLINED: u8 = 1;

/// Length of an encoded reference: tag, digest, length.
pub const ENCODED_REF_LEN: usize = 37;

/// Length of what precedes the bytes of an encoded inlined value: tag and
/// length.
pub const INLINED_HEADER_LEN: usize = 5;

/// A value of the flat-state column.
#[derive(Clone, Debug, PartialEq, Eq)]
pub enum FlatStateValue {
    /// The bytes live in the trie store under `hash`; `length` is their
    /// number.
    Ref { hash: ValueHash, length: u32 },
    /// The bytes themselves.
    Inlined { bytes: Vec<u8> },
}

/// What a `FlatStateValue` stands for.
pub enum FlatValue {
    /// A reference to `length` bytes with digest `hash`.
    Ref { hash: Seq<u8>, length: u32 },
    /// Inlined bytes.
    Inlined { bytes: Seq<u8> },
}

/// Why bytes are not an encoded flat-state value.
#[derive(Clone, Copy, Debug, PartialEq, Eq)]
pub enum DecodeError {
    /// The bytes end before the value does.
    UnexpectedEnd,
    /// The first byte is no known tag.
    UnknownTag(u8),
    /// Bytes follow the end of the value.
    TrailingBytes,
}

/// Why a value has no encoding.
#[derive(Clone, Copy, Debug, PartialEq, Eq)]
pub enum EncodeError {
    /// The inlined bytes are too many for a four-byte length.
    TooLong,
}

impl View for FlatStateValue {
    type V = FlatValue;

    open spec fn view(&self) -> FlatValue {
        match self {
            FlatStateValue::Ref { hash, length } => FlatValue::Ref { hash: hash@, length: *length },
            FlatStateValue::Inlined { bytes } => FlatValue::Inlined { bytes: bytes@ },
        }
    }
}

impl FlatValue {
    /// Whether the value has an encoding: a digest has 32 bytes, and inlined
    /// bytes are few enough for a four-byte length.
    pub open spec fn encodable(self) -> bool {
        match self {
            FlatValue::Ref { hash, length } => hash.len() == HASH_LEN,
            FlatValue::Inlined { bytes } => bytes.len() <= u32::MAX,
        }
    }

    /// The number of bytes that the value stands for.
    pub open spec fn value_len(self) -> nat {
        match self {
            FlatValue::Ref { hash, length } => length as nat,
            FlatValue::Inlined { bytes } => bytes.len(),
        }
    }

    /// The encoding of an encodable value.
    pub open spec fn encoding(self) -> Seq<u8> {
        match self {
            FlatValue::Ref { hash, length } => seq![TAG_REF] + hash + u32_le(length),
            FlatValue::Inlined { bytes } => seq![TAG_INLINED] + u32_le(bytes.len() as u32) + bytes,
        }
    }
}

/// The value that `bytes` encode, or why they encode none.
pub open spec fn decoding(bytes: Seq<u8>) -> Result<FlatValue, DecodeError> {
    if bytes.len() == 0 {
        Err(DecodeError::UnexpectedEnd)
    } else if bytes[0] == TAG_REF {
        if bytes.len() < ENCODED_REF_LEN {
            Err(DecodeError::UnexpectedEnd)
        } else if bytes.len() > ENCODED_REF_LEN {
            Err(DecodeError::TrailingBytes)
        } else {
            Ok(
                FlatValue::Ref {
                    hash: bytes.subrange(1, 33),
                    length: u32_from_le(bytes.subrange(33, 37)) as u32,
                },
            )
        }
    } else if bytes[0] == TAG_INLINED {
        if bytes.len() < INLINED_HEADER_LEN {
            Err(DecodeError::UnexpectedEnd)
        } else {
            let length = u32_from_le(bytes.subrange(1, 5));
            if bytes.len() - INLINED_HEADER_LEN < length {
                Err(DecodeError::UnexpectedEnd)
            } else if bytes.len() - INLINED_HEADER_LEN > length {
                Err(DecodeError::TrailingBytes)
            } else {
                Ok(FlatValue::Inlined { bytes: bytes.skip(INLINED_HEADER_LEN as int) })
            }
        }
    } else {
        Err(DecodeError::UnknownTag(bytes[0]))
    }
}

/// Decoding the encoding of a value gives the value back, for references and
/// for inlined bytes alike.
pub proof fn lemma_decode_encode(value: FlatValue)
    requires
        value.encodable(),
    ensures
        decoding(value.encoding()) == Ok::<FlatValue, DecodeError>(value),
{
    let bytes = value.encoding();
    match value {
        FlatValue::Ref { hash, length } => {
            lemma_u32_le_round_trip(length);
            assert(bytes.subrange(1, 33) =~= hash);
        },
        FlatValue::Inlined { bytes: inner } => {
            lemma_u32_le_round_trip(inner.len() as u32);
            assert(bytes.skip(INLINED_HEADER_LEN as int) =~= inner);
        },
    }
}

/// Bytes that decode are the encoding of what they decode to, and what they
/// decode to is encodable: every value has one encoding only.
pub proof fn lemma_encode_decode(bytes: Seq<u8>)
    requires
        decoding(bytes) is Ok,
    ensures
        decoding(bytes)->Ok_0.encodable(),
        decoding(bytes)->Ok_0.encoding() == bytes,
{
    let value = decoding(bytes)->Ok_0;
    match value {
        FlatValue::Ref { hash, length } => {
            lemma_u32_le_of_bytes(bytes.subrange(33, 37));
        },
        FlatValue::Inlined { bytes: inner } => {
            lemma_u32_le_of_bytes(bytes.subrange(1, 5));
        },
    }
}

impl FlatStateValue {
    /// A reference to `value`: its digest and its length.
    pub fn value_ref(value: &[u8]) -> (r: FlatStateValue)
        requires
            value@.len() <= u32::MAX,
        ensures
            r@ == (FlatValue::Ref { hash: sha256(value@), length: value@.len() as u32 }),
            r@.encodable(),
    {
        let digest = hash(value);
        FlatStateValue::Ref { hash: digest, length: value.len() as u32 }
    }

    /// The bytes of `value`, inlined.
    pub fn inlined(value: &[u8]) -> (r: FlatStateValue)
        ensures
            r@ == (FlatValue::Inlined { bytes: value@ }),
    {
        FlatStateValue::Inlined { bytes: copy_bytes(value) }
    }

    /// The number of bytes that the value stands for.
    pub fn value_len(&self) -> (len: u64)
        ensures
            len == self@.value_len(),
    {
        match self {
            FlatStateValue::Ref { hash, length } => *length as u64,
            FlatStateValue::Inlined { bytes } => bytes.len() as u64,
        }
    }

    /// The encoding of the value. Fails exactly when inlined bytes are too
    /// many for a four-byte length.
    pub fn encode(&self) -> (r: Result<Vec<u8>, EncodeError>)
        ensures
            r is Ok <==> self@.encodable(),
            r matches Ok(bytes) ==> bytes@ == self@.encoding(),
            r is Err ==> r == Err::<Vec<u8>, EncodeError>(EncodeError::TooLong),
    {
        let mut out: Vec<u8> = Vec::new();
        match self {
            FlatStateValue::Ref { hash, length } => {
                out.push(TAG_REF);
                put_bytes(&mut out, hash.as_bytes());
                put_u32_le(&mut out, *length);
            },
            FlatStateValue::Inlined { bytes } => {
                if bytes.len() > u32::MAX as usize {
                    return Err(EncodeError::TooLong);
                }
                out.push(TAG_INLINED);
                put_u32_le(&mut out, bytes.len() as u32);
                put_bytes(&mut out, bytes.as_slice());
            },
        }
        Ok(out)
    }

    /// The value that `bytes` encode. Fails on bytes that end too early, start
    /// with an unknown tag or go on after the value.
    pub fn decode(bytes: &[u8]) -> (r: Result<FlatStateValue, DecodeError>)
        ensures
            match r {
                Ok(value) => decoding(bytes@) == Ok::<FlatValue, DecodeError>(value@),
                Err(error) => decoding(bytes@) == Err::<FlatValue, DecodeError>(error),
            },
    {
        let len: usize = bytes.len();
        if len == 0 {
            return Err(DecodeError::UnexpectedEnd);
        }
        let tag: u8 = bytes[0];
        if tag == TAG_REF {
            if len < ENCODED_REF_LEN {
                Err(DecodeError::UnexpectedEnd)
            } else if len > ENCODED_REF_LEN {
                Err(DecodeError::TrailingBytes)
            } else {
                let hash = ValueHash::from_slice(bytes, 1);
                let length: u32 = get_u32_le(bytes, 33);
                Ok(FlatStateValue::Ref { hash, length })
            }
        } else if tag == TAG_INLINED {
            if len < INLINED_HEADER_LEN {
                return Err(DecodeError::UnexpectedEnd);
            }
            let length: u32 = get_u32_le(bytes, 1);
            let rest: usize = len - INLINED_HEADER_LEN;
            if rest < length as usize {
                Err(DecodeError::UnexpectedEnd)
            } else if rest > length as usize {
                Err(DecodeError::TrailingBytes)
            } else {
                let inner = copy_range(bytes, INLINED_HEADER_LEN, len);
                Ok(FlatStateValue::Inlined { bytes: inner })
            }
        } else {
            Err(DecodeError::UnknownTag(tag))
        }
    }
}

} // verus!
