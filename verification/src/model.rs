//! What is known of an image file once it is loaded, and once it is hashed.

use vstd::prelude::*;
use crate::bithash::{hamming, BitHash};
use crate::error::ErrorKind;

verus! {

/// A loaded image file: where it came from and what loading it cost.
#[derive(Debug, PartialEq, Eq)]
pub struct Image {
    /// The path, as it was supplied.
    pub path: String,
    /// Width and height in pixels after decoding.
    pub dimensions: (u32, u32),
    /// The number of bytes the decoded pixels take in memory.
    pub loaded_size: u64,
    /// Milliseconds spent loading and decoding.
    pub load_time: u64,
}

impl Clone for Image {
    fn clone(&self) -> (copy: Image)
        ensures
            copy.path@ == self.path@,
            copy.dimensions == self.dimensions,
            copy.loaded_size == self.loaded_size,
            copy.load_time == self.load_time,
    {
        Image {
            path: self.path.clone(),
            dimensions: self.dimensions,
            loaded_size: self.loaded_size,
            load_time: self.load_time,
        }
    }
}

/// An image together with its perceptual hash.
#[derive(Debug, Clone)]
pub struct HashedImage {
    pub image: Image,
    pub hash: BitHash,
    /// Milliseconds spent hashing.
    pub hash_time: u64,
}

/// The bit sequences of the hashes of `items`, in order.
pub open spec fn hashes_of(items: Seq<HashedImage>) -> Seq<Seq<bool>> {
    Seq::new(items.len(), |i: int| items[i].hash@)
}

/// Every hash in `hashes` has `bits` bits.
pub open spec fn uniform(hashes: Seq<Seq<bool>>, bits: nat) -> bool {
    forall|i: int| 0 <= i < hashes.len() ==> (#[trigger] hashes[i]).len() == bits
}

impl PartialEq for HashedImage {
    /// Two hashed images are equal when their hashes are: the files they
    /// came from play no part.
    fn eq(&self, other: &HashedImage) -> (same: bool) {
        self.hash.same_bits(&other.hash)
    }
}

impl vstd::std_specs::cmp::PartialEqSpecImpl for HashedImage {
    open spec fn obeys_eq_spec() -> bool {
        true
    }

    open spec fn eq_spec(&self, other: &HashedImage) -> bool {
        self.hash@ == other.hash@
    }
}

impl HashedImage {
    /// Whether the two images have the same hash. The files they came from
    /// play no part in the comparison.
    pub fn same_hash(&self, other: &HashedImage) -> (same: bool)
        ensures
            same == (self.hash@ == other.hash@),
    {
        self.hash.same_bits(&other.hash)
    }
}

/// The distance between two hashed images: the Hamming distance of their
/// hashes.
#[derive(Debug, Clone, Copy, PartialEq, Eq, Structural)]
pub struct ImageDistFn;

impl ImageDistFn {
    /// The number of bits in which the hashes of `left` and `right` differ.
    /// Hashes of different sizes cannot be compared.
    pub fn dist(&self, left: &HashedImage, right: &HashedImage) -> (d: Result<u64, ErrorKind>)
        ensures
            left.hash@.len() == right.hash@.len() ==> d is Ok && d->Ok_0 as nat == hamming(
                left.hash@,
                right.hash@,
            ),
            left.hash@.len() != right.hash@.len() ==> d is Err && d->Err_0
                == ErrorKind::DimensionMismatch,
    {
        left.hash.distance(&right.hash)
    }
}

} // verus!
