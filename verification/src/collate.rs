//! From hashed images to each image's similar images.

use vstd::prelude::*;
use crate::clock::{elapsed_millis, now};
use crate::error::{Error, ErrorKind};
use crate::hash::{CompareMode, HashSettings};
use crate::model::{hashes_of, uniform, HashedImage};
use crate::vptree::{
    ascending, entries_true, lists, selected, wanted, Neighbor, VpTree,
};

verus! {

/// The tree of a run's images and the milliseconds it took to build.
#[derive(Debug)]
pub struct Collated {
    pub tree: VpTree,
    pub time: u64,
}

/// All that a run has found: the tree of the images, the time it took to
/// build, the settings the hashes were made with, and the files that
/// failed.
#[derive(Debug)]
pub struct CollatedResults {
    pub tree: VpTree,
    pub collate_time: u64,
    pub settings: HashSettings,
    pub errors: Vec<Error>,
}

/// `best` is what image `index` is similar to by `mode`: for `KNearest(k)`
/// the `k` nearest other images, or all others where they are fewer; for
/// `MaxDist(r)` all other images within `r` bits. Either way nearest first
/// and, at equal distance, in the order of the images.
pub open spec fn similars_of(
    items: Seq<HashedImage>,
    index: usize,
    mode: CompareMode,
    best: Seq<Neighbor>,
) -> bool {
    let q = items[index as int].hash@;
    match mode {
        CompareMode::KNearest(k) => {
            &&& selected(best, k as nat, q, hashes_of(items), u64::MAX as nat, Some(index))
            &&& best.len() == if k <= items.len() - 1 {
                k as nat
            } else {
                (items.len() - 1) as nat
            }
        },
        CompareMode::MaxDist(r) => {
            &&& ascending(best)
            &&& entries_true(best, q, hashes_of(items), r as nat, Some(index))
            &&& forall|j: usize|
                wanted(j, q, hashes_of(items), r as nat, Some(index)) ==> lists(best, j)
        },
    }
}

/// The images that image `index` of `tree` is similar to by `mode`; `None`
/// when the tree has no image `index`.
pub fn neighbours_of(tree: &VpTree, index: usize, mode: CompareMode) -> (r: Option<Vec<Neighbor>>)
    ensures
        r is Some <==> index < tree@.len(),
        r is Some ==> similars_of(tree@, index, mode, r->0@),
{
    match mode {
        CompareMode::KNearest(k) => tree.nearest_excluding_self(index, k),
        CompareMode::MaxDist(radius) => tree.within_excluding_self(index, radius),
    }
}

/// For every image of `tree`, in their order, the images it is similar to
/// by `mode`.
pub fn collate(tree: &VpTree, mode: CompareMode) -> (all: Vec<Vec<Neighbor>>)
    ensures
        all@.len() == tree@.len(),
        forall|i: int| 0 <= i < all@.len() ==> similars_of(tree@, i as usize, mode, #[trigger] all@[i]@),
{
    let n: usize = tree.len();
    let mut all: Vec<Vec<Neighbor>> = Vec::new();
    let mut i: usize = 0;
    while i < n
        invariant
            i <= n,
            n == tree@.len(),
            all@.len() == i,
            forall|j: int| 0 <= j < i ==> similars_of(tree@, j as usize, mode, #[trigger] all@[j]@),
        decreases n - i,
    {
        match neighbours_of(tree, i, mode) {
            Some(best) => {
                all.push(best);
            },
            None => {
                all.push(Vec::new());
            },
        }
        i = i + 1;
    }
    all
}

/// Builds the tree of `images` and notes the time it took. Images whose
/// hashes are not all of one size cannot be collated.
pub fn collate_images(images: Vec<HashedImage>) -> (r: Result<Collated, ErrorKind>)
    ensures
        r is Ok <==> exists|bits: nat| uniform(hashes_of(images@), bits),
        r is Ok ==> r->Ok_0.tree@ == images@ && r->Ok_0.tree.wf(),
        r is Err ==> r->Err_0 == ErrorKind::DimensionMismatch,
{
    let start = now();
    match VpTree::build(images) {
        Ok(tree) => {
            let time: u64 = elapsed_millis(&start);
            Ok(Collated { tree, time })
        },
        Err(e) => Err(e),
    }
}

} // verus!
