//! Parameter identity and the records by which values travel.

use vstd::prelude::*;
use vstd::utf8;

use crate::single::Single;

verus! {

/// FNV-1a's starting value.
pub const FNV_OFFSET_BASIS: u32 = 0x811C_9DC5;

/// FNV-1a's multiplier.
pub const FNV_PRIME: u32 = 0x0100_0193;

/// The 32-bit FNV-1a hash.
pub open spec fn fnv1a(bytes: Seq<u8>) -> u32
    decreases bytes.len(),
{
    if bytes.len() == 0 {
        FNV_OFFSET_BASIS
    } else {
        (fnv1a(bytes.drop_last()) ^ (bytes.last() as u32)).wrapping_mul(FNV_PRIME)
    }
}

/// A parameter's permanent identity.
#[derive(Debug, Clone, Copy, PartialEq, Eq, Hash, Structural)]
pub struct ParamId {
    pub value: u32,
}

/// The identity a key stands for.
#[verifier::opaque]
pub open spec fn id_of(key: Seq<char>) -> ParamId {
    ParamId { value: fnv1a(utf8::encode_utf8(key)) }
}

/// One byte of the hash.
pub open spec fn hashed(hash: u32, byte: u32) -> u32 {
    ((hash ^ byte) * FNV_PRIME) as u32
}

/// The hash goes on over a text of single bytes.
pub open spec fn hashed_on(hash: u32, text: Seq<char>) -> u32
    decreases text.len(),
{
    if text.len() == 0 {
        hash
    } else {
        hashed(hashed_on(hash, text.drop_last()), text.last() as u32)
    }
}

/// A hash over two texts, one after the other, is the second's from where the first's ends.
pub proof fn lemma_hash_goes_on(hash: u32, first: Seq<char>, next: Seq<char>)
    ensures
        hashed_on(hash, first + next) == hashed_on(hashed_on(hash, first), next),
    decreases next.len(),
{
    if next.len() == 0 {
        assert(first + next =~= first);
    } else {
        lemma_hash_goes_on(hash, first, next.drop_last());
        assert((first + next).drop_last() =~= first + next.drop_last());
    }
}

proof fn lemma_hash_of_bytes(key: Seq<char>)
    requires
        utf8::is_ascii_chars(key),
    ensures
        fnv1a(utf8::encode_utf8(key)) == hashed_on(FNV_OFFSET_BASIS, key),
    decreases key.len(),
{
    utf8::is_ascii_chars_encode_utf8(key);
    if key.len() > 0 {
        let rest = key.drop_last();
        utf8::is_ascii_chars_encode_utf8(rest);
        assert(utf8::encode_utf8(key).drop_last() =~= utf8::encode_utf8(rest)) by {
            assert forall|i: int| 0 <= i < rest.len() implies utf8::encode_utf8(key)[i]
                == utf8::encode_utf8(rest)[i] by {
                assert(rest[i] == key[i]);
            }
        }
        lemma_hash_of_bytes(rest);
        let x: u32 = fnv1a(utf8::encode_utf8(rest)) ^ (key.last() as u32);
        assert((x * 0x0100_0193u32) as u32 == (x * 0x0100_0193u32) % 0x1_0000_0000) by (bit_vector);
    }
}

/// The identity of a key of single bytes is the hash over its characters.
pub proof fn lemma_id_is_the_hash(key: Seq<char>)
    requires
        utf8::is_ascii_chars(key),
    ensures
        id_of(key).value == hashed_on(FNV_OFFSET_BASIS, key),
{
    reveal(id_of);
    lemma_hash_of_bytes(key);
}

impl ParamId {
    /// Derives the identity from the key, and from nothing else.
    pub fn from_key(key: &str) -> (id: ParamId)
        ensures
            id == id_of(key@),
    {
        let bytes = key.as_bytes();
        let mut hash: u32 = FNV_OFFSET_BASIS;
        let mut i: usize = 0;
        while i < bytes.len()
            invariant
                i <= bytes@.len(),
                hash == fnv1a(bytes@.take(i as int)),
            decreases bytes@.len() - i,
        {
            proof {
                assert(bytes@.take(i + 1).drop_last() =~= bytes@.take(i as int));
            }
            hash = (hash ^ (bytes[i] as u32)).wrapping_mul(FNV_PRIME);
            i += 1;
        }
        proof {
            reveal(id_of);
            assert(bytes@.take(bytes@.len() as int) =~= bytes@);
        }
        ParamId { value: hash }
    }
}

/// A parameter's new value.
#[derive(Debug, Clone, Copy, PartialEq, Eq, Structural)]
pub struct ParamChange {
    pub id: ParamId,
    pub value: Single,
}

/// One reading a stage reports, by the identity of what it reads.
#[derive(Debug, Clone, Copy, PartialEq, Eq, Structural)]
pub struct TelemetryEntry {
    pub id: u32,
    pub value: Single,
}

} // verus!
