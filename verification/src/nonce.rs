//! Nonces for pings and handshakes.

use crate::bytes;
use std::collections::hash_map::{DefaultHasher, RandomState};
use std::hash::{BuildHasher, Hasher};
use vstd::prelude::*;
use vstd::std_specs::hash::DefaultHasherAdditionalSpecFns;

verus! {

/// `BuildHasher::build_hasher` of a new `RandomState`: a hasher with keys that were made at
/// random. Nothing is claimed of it.
#[verifier::external_body]
fn seeded_hasher() -> (hasher: DefaultHasher) {
    RandomState::new().build_hasher()
}

/// `r` is what some hasher makes of the time and then the count.
pub open spec fn drawn_from(r: u64, nanos: u64, count: u64) -> bool {
    exists|seed: Seq<Seq<u8>>|
        r == #[trigger] DefaultHasher::spec_finish(
            seed.push(bytes::le_bytes(nanos as nat, 8)).push(bytes::le_bytes(count as nat, 8)),
        )
}

/// A number that is hard to guess, but not secret: a hash, under random keys, of the time and
/// of a count that the caller raises with every call.
pub fn rand_u64(nanos: u64, count: u64) -> (r: u64)
    ensures
        drawn_from(r, nanos, count),
{
    let mut hasher: DefaultHasher = seeded_hasher();
    let ghost seed = hasher@;
    let mut time: Vec<u8> = Vec::new();
    bytes::push_le(&mut time, nanos, 8);
    hasher.write(time.as_slice());
    let mut number: Vec<u8> = Vec::new();
    bytes::push_le(&mut number, count, 8);
    hasher.write(number.as_slice());
    assert(time@ =~= bytes::le_bytes(nanos as nat, 8));
    assert(number@ =~= bytes::le_bytes(count as nat, 8));
    hasher.finish()
}

} // verus!
