//! Hash codes, and the hasher that hands out codes computed beforehand.
use std::hash::Hasher;
use std::marker::PhantomData;

use twox_hash::XxHash64;
use vstd::prelude::*;

verus! {

/// Names the `Crc32` hasher.
#[derive(Clone, Copy, Debug)]
pub struct Crc32FastBuilder;

/// Names the `XxHash64` hasher, started from seed zero.
#[derive(Clone, Copy, Debug)]
pub struct XxHash64Builder;

/// A 64-bit hash code. The parameter names the hasher that computed it.
#[derive(Debug)]
pub struct HashCode<T: 'static> {
    value: u64,
    _phantom: PhantomData<T>,
}

/// A hash code from the `Crc32` hasher, used for hash-shuffle exchange.
pub type Crc32HashCode = HashCode<Crc32FastBuilder>;

/// A hash code from the `XxHash64` hasher, used for hash maps in memory.
pub type XxHash64HashCode = HashCode<XxHash64Builder>;

impl<T> HashCode<T> {
    pub closed spec fn code(&self) -> u64 {
        self.value
    }

    pub fn value(self) -> (r: u64)
        ensures
            r == self.code(),
    {
        self.value
    }

    /// Two hash codes with the same number are the same.
    pub proof fn same_code(a: Self, b: Self)
        ensures
            a.code() == b.code() <==> a == b,
    {
        if a.value == b.value {
            assert(a._phantom == b._phantom);
        }
    }
}

impl<T> From<u64> for HashCode<T> {
    fn from(hash_code: u64) -> (r: Self)
        ensures
            r.code() == hash_code,
    {
        HashCode { value: hash_code, _phantom: PhantomData }
    }
}

impl<T> vstd::std_specs::convert::FromSpecImpl<u64> for HashCode<T> {
    open spec fn obeys_from_spec() -> bool {
        true
    }

    closed spec fn from_spec(hash_code: u64) -> Self {
        HashCode { value: hash_code, _phantom: PhantomData }
    }
}

impl<T> Clone for HashCode<T> {
    fn clone(&self) -> (r: Self)
        ensures
            r == *self,
    {
        *self
    }
}

impl<T> Copy for HashCode<T> {

}

impl<T> Default for HashCode<T> {
    fn default() -> (r: Self)
        ensures
            r.code() == 0,
    {
        HashCode { value: 0, _phantom: PhantomData }
    }
}

impl<T> PartialEq for HashCode<T> {
    fn eq(&self, other: &Self) -> (r: bool) {
        self.value == other.value
    }
}

impl<T> vstd::std_specs::cmp::PartialEqSpecImpl for HashCode<T> {
    open spec fn obeys_eq_spec() -> bool {
        true
    }

    open spec fn eq_spec(&self, other: &Self) -> bool {
        self.code() == other.code()
    }
}

/// The 64-bit xxHash of a byte string, from seed zero.
pub uninterp spec fn xxhash64(bytes: Seq<u8>) -> u64;

/// `twox_hash::XxHash64`, started with `with_seed(0)`, fed the bytes with one `write` and
/// read with `finish`. The contract only names what comes out: a function of the bytes.
#[verifier::external_body]
fn xxhash64_of(bytes: &[u8]) -> (r: u64)
    ensures
        r == xxhash64(bytes@),
{
    let mut hasher = XxHash64::with_seed(0);
    hasher.write(bytes);
    hasher.finish()
}

impl XxHash64Builder {
    /// The hash code of a byte string.
    pub fn hash_bytes(&self, bytes: &[u8]) -> (r: XxHash64HashCode)
        ensures
            r.code() == xxhash64(bytes@),
    {
        HashCode { value: xxhash64_of(bytes), _phantom: PhantomData }
    }
}

/// A hasher for hash keys: it keeps the code that a key writes, and gives it out again.
///
/// It must be used with hash keys only, which write one code each.
#[derive(Debug)]
pub struct PrecomputedHasher {
    hash_code: u64,
}

impl PrecomputedHasher {
    /// The code that was written, or zero.
    pub closed spec fn code(&self) -> u64 {
        self.hash_code
    }

    pub fn finish(&self) -> (r: u64)
        ensures
            r == self.code(),
    {
        self.hash_code
    }

    /// Takes the code of a key. No other code may have been written before.
    pub fn write_u64(&mut self, i: u64)
        requires
            old(self).code() == 0,
        ensures
            final(self).code() == i,
    {
        self.hash_code = i;
    }
}

impl Default for PrecomputedHasher {
    fn default() -> (r: Self)
        ensures
            r.code() == 0,
    {
        PrecomputedHasher { hash_code: 0 }
    }
}

/// Makes [`PrecomputedHasher`]s.
#[derive(Clone, Debug, Default)]
pub struct PrecomputedBuildHasher;

impl PrecomputedBuildHasher {
    pub fn build_hasher(&self) -> (r: PrecomputedHasher)
        ensures
            r.code() == 0,
    {
        PrecomputedHasher::default()
    }
}

} // verus!
