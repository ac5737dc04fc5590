//! 32-byte digests that name blocks and transactions.

use crate::bytes::same_bytes;
use crate::text;
use vstd::prelude::*;

verus! {

/// A 32-byte BLAKE3 digest.
#[derive(Clone, Copy, Debug, Eq, Hash)]
pub struct Hash32(pub [u8; 32]);

impl PartialEq for Hash32 {
    fn eq(&self, other: &Self) -> (same: bool) {
        let same: bool = same_bytes(&self.0, &other.0);
        assert(self.0@ == other.0@ ==> self.0 =~= other.0);
        same
    }
}

impl vstd::std_specs::cmp::PartialEqSpecImpl for Hash32 {
    open spec fn obeys_eq_spec() -> bool {
        true
    }

    open spec fn eq_spec(&self, other: &Self) -> bool {
        *self == *other
    }
}

/// The BLAKE3 digest of `data`.
pub uninterp spec fn blake3_digest(data: Seq<u8>) -> [u8; 32];

/// `blake3::hash`: the digest of the whole input in the default (unkeyed) mode,
/// taken as its 32 raw bytes. The digest depends on nothing but the bytes of `data`.
#[verifier::external_body]
fn blake3_hash(data: &[u8]) -> (digest: [u8; 32])
    ensures
        digest == blake3_digest(data@),
{
    *blake3::hash(data).as_bytes()
}

impl Hash32 {
    /// Every byte is zero.
    pub open spec fn is_zero(self) -> bool {
        forall|i: int| 0 <= i < 32 ==> self.0@[i] == 0
    }

    /// The digest of which every byte is zero.
    pub fn zero() -> (hash: Hash32)
        ensures
            hash.is_zero(),
    {
        Hash32([0u8; 32])
    }

    /// Whether every byte is zero.
    pub fn all_zero(&self) -> (zero: bool)
        ensures
            zero == self.is_zero(),
    {
        let mut i: usize = 0;
        while i < 32
            invariant
                i <= 32,
                forall|k: int| 0 <= k < i ==> self.0@[k] == 0,
            decreases 32 - i,
        {
            if self.0[i] != 0 {
                return false;
            }
            i += 1;
        }
        true
    }

    pub fn from_bytes(bytes: [u8; 32]) -> (hash: Hash32)
        ensures
            hash == Hash32(bytes),
    {
        Hash32(bytes)
    }

    pub fn as_bytes(&self) -> (bytes: &[u8; 32])
        ensures
            *bytes == self.0,
    {
        &self.0
    }

    /// Two lower-case hexadecimal digits for each byte.
    pub fn to_hex(&self) -> (s: String)
        ensures
            s@ == text::hex_text(self.0@),
    {
        text::hex_encode(&self.0)
    }

    /// The BLAKE3 digest of `data`.
    pub fn digest(data: &[u8]) -> (hash: Hash32)
        ensures
            hash == Hash32(blake3_digest(data@)),
    {
        Hash32(blake3_hash(data))
    }
}

/// The 32 bytes at `pos`.
pub fn read_hash(data: &[u8], pos: usize) -> (hash: Hash32)
    requires
        pos + 32 <= data@.len(),
    ensures
        hash.0@ == data@.subrange(pos as int, pos + 32),
{
    let total: usize = data.len();
    let mut out: [u8; 32] = [0u8; 32];
    let mut i: usize = 0;
    while i < 32
        invariant
            i <= 32,
            pos + 32 <= data@.len() == total,
            forall|k: int| 0 <= k < i ==> out@[k] == data@[pos + k],
        decreases 32 - i,
    {
        out[i] = data[pos + i];
        i += 1;
    }
    assert(out@ =~= data@.subrange(pos as int, pos + 32));
    Hash32(out)
}

} // verus!
