//! State hashing: the 64-bit summaries used to compare runs.
//!
//! A hasher accumulates bytes and digests them to a [`StateHash`].  The
//! digest of a byte sequence is a pure function of the bytes, so two equal
//! canonical encodings always hash alike.

use vstd::prelude::*;

verus! {

/// A 64-bit state hash (for speed, not cryptographic security).
#[derive(Debug, Clone, Copy, PartialEq, Eq, Structural, Hash)]
pub struct StateHash(pub u64);

impl StateHash {
    pub fn zero() -> (r: StateHash)
        ensures
            r.0 == 0,
    {
        StateHash(0)
    }

    pub fn as_u64(self) -> (n: u64)
        ensures
            n == self.0,
    {
        self.0
    }
}

/// A hasher over world-state bytes.
///
/// `digest_spec` names the function from fed bytes to digest; `buffered`
/// is what has been fed since the last reset.
pub trait IStateHasher {
    /// The bytes fed since the last reset.
    spec fn buffered(&self) -> Seq<u8>;

    /// The digest this hasher assigns to a byte sequence.
    spec fn digest_spec(b: Seq<u8>) -> u64;

    /// Start a new hash computation.
    fn reset(&mut self)
        ensures
            final(self).buffered() == Seq::<u8>::empty(),
    ;

    /// Feed bytes into the hash.
    fn update(&mut self, data: &[u8])
        ensures
            final(self).buffered() == old(self).buffered() + data@,
    ;

    /// Finalize and return the hash of everything fed since the reset.
    fn finalize(&self) -> (h: StateHash)
        ensures
            h.0 == Self::digest_spec(self.buffered()),
    ;
}

/// The 64-bit xxHash digest with a given seed, as the `xxhash-rust` crate
/// computes it: a function of the bytes and the seed alone.
pub uninterp spec fn xxh64_of(b: Seq<u8>, seed: u64) -> u64;

/// Relies on `xxhash_rust::xxh64::xxh64`: the xxHash64 digest of the
/// bytes under the seed, depending on the bytes and the seed alone.
#[verifier::external_body]
fn xxh64(bytes: &[u8], seed: u64) -> (r: u64)
    ensures
        r == xxh64_of(bytes@, seed),
{
    xxhash_rust::xxh64::xxh64(bytes, seed)
}

/// State hasher using xxHash64 (seed 0).
#[derive(Debug)]
pub struct XxHasher {
    /// The bytes fed since the last reset.
    pub buf: Vec<u8>,
}

impl XxHasher {
    /// Create a hasher with nothing fed yet.
    pub fn new() -> (r: XxHasher)
        ensures
            r.buffered() == Seq::<u8>::empty(),
    {
        let r = XxHasher { buf: Vec::new() };
        proof {
            assert(r.buffered() =~= Seq::<u8>::empty());
        }
        r
    }
}

impl Default for XxHasher {
    fn default() -> (r: XxHasher)
        ensures
            r.buffered() == Seq::<u8>::empty(),
    {
        XxHasher::new()
    }
}

impl IStateHasher for XxHasher {
    open spec fn buffered(&self) -> Seq<u8> {
        self.buf@
    }

    open spec fn digest_spec(b: Seq<u8>) -> u64 {
        xxh64_of(b, 0)
    }

    fn reset(&mut self) {
        self.buf.clear();
        proof {
            assert(self.buf@ =~= Seq::<u8>::empty());
        }
    }

    fn update(&mut self, data: &[u8]) {
        self.buf.extend_from_slice(data);
    }

    fn finalize(&self) -> (h: StateHash) {
        StateHash(xxh64(self.buf.as_slice(), 0))
    }
}

} // verus!
