//! The records that a report is written from. Writing them out as JSON is
//! left to the caller.

use vstd::prelude::*;
use vstd::string::*;
use crate::base64::encode_spec;
use crate::error::Error;
use crate::model::HashedImage;
use crate::status::WorkStatus;
use crate::text::{owned, push_text};
use crate::vptree::{Neighbor, VpTree};

verus! {

/// Where and how the report is written.
#[derive(Debug)]
pub struct SerializeSettings {
    pub outfile: String,
    /// The number of spaces for each level of indentation; compact where
    /// there is none.
    pub pretty_indent: Option<usize>,
}

impl Default for SerializeSettings {
    fn default() -> (s: SerializeSettings)
        ensures
            s.outfile@ == "img-dup.json"@,
            s.pretty_indent is None,
    {
        SerializeSettings { outfile: owned("img-dup.json"), pretty_indent: None }
    }
}

/// One image as the report gives it.
#[derive(Debug)]
pub struct SerializeImage {
    pub path: String,
    /// The hash in base64.
    pub hash: String,
    pub dimensions: (u32, u32),
    pub load_time: u64,
    pub hash_time: u64,
}

/// `record` is the report's record of `img`.
pub open spec fn records(record: SerializeImage, img: HashedImage) -> bool {
    &&& record.path@ == img.image.path@
    &&& record.hash@ == encode_spec(img.hash.spec_bytes())
    &&& record.dimensions == img.image.dimensions
    &&& record.load_time == img.image.load_time
    &&& record.hash_time == img.hash_time
}

impl SerializeImage {
    /// The record of `img`: its path, its hash in base64, its size and the
    /// times it took.
    pub fn from_img(img: &HashedImage) -> (record: SerializeImage)
        ensures
            records(record, *img),
    {
        SerializeImage {
            path: img.image.path.clone(),
            hash: img.hash.to_base64(),
            dimensions: img.image.dimensions,
            load_time: img.image.load_time,
            hash_time: img.hash_time,
        }
    }
}

/// An image that another one is similar to, and how far it is from it.
#[derive(Debug)]
pub struct SerializeSimilar {
    pub img: SerializeImage,
    /// The distance in bits.
    pub dist: u64,
}

impl SerializeSimilar {
    /// The record of the neighbour `similar` among `items`; none where
    /// `items` has no such item.
    pub fn from_similar(items: &Vec<HashedImage>, similar: &Neighbor) -> (record: Option<
        SerializeSimilar,
    >)
        ensures
            record is Some <==> similar.index < items@.len(),
            record is Some ==> records(record->0.img, items@[similar.index as int])
                && record->0.dist == similar.dist,
    {
        if similar.index < items.len() {
            Some(
                SerializeSimilar {
                    img: SerializeImage::from_img(&items[similar.index]),
                    dist: similar.dist,
                },
            )
        } else {
            None
        }
    }
}

/// An image and the images it is similar to.
#[derive(Debug)]
pub struct SerializeUnique {
    pub img: SerializeImage,
    pub similars: Vec<SerializeSimilar>,
}

/// `record` is the report's record of item `index` of `items` with the
/// neighbours `similars`.
pub open spec fn records_unique(
    record: SerializeUnique,
    items: Seq<HashedImage>,
    index: int,
    similars: Seq<Neighbor>,
) -> bool {
    &&& records(record.img, items[index])
    &&& record.similars@.len() == similars.len()
    &&& forall|j: int|
        0 <= j < similars.len() ==> records(
            (#[trigger] record.similars@[j]).img,
            items[similars[j].index as int],
        ) && record.similars@[j].dist == similars[j].dist
}

/// Every neighbour is an item of a collection of `n` items.
pub open spec fn all_in(similars: Seq<Neighbor>, n: nat) -> bool {
    forall|j: int| 0 <= j < similars.len() ==> (#[trigger] similars[j]).index < n
}

impl SerializeUnique {
    /// The record of item `index` of `items` with the neighbours
    /// `similars`, in their order; none where an index is out of range.
    pub fn from_unique(items: &Vec<HashedImage>, index: usize, similars: &Vec<Neighbor>) -> (record:
        Option<SerializeUnique>)
        ensures
            record is Some <==> index < items@.len() && all_in(similars@, items@.len()),
            record is Some ==> records_unique(record->0, items@, index as int, similars@),
    {
        if index >= items.len() {
            return None;
        }
        let mut out: Vec<SerializeSimilar> = Vec::new();
        let mut j: usize = 0;
        while j < similars.len()
            invariant
                j <= similars@.len(),
                out@.len() == j,
                forall|i: int| 0 <= i < j ==> (#[trigger] similars@[i]).index < items@.len(),
                forall|i: int|
                    0 <= i < j ==> records(
                        (#[trigger] out@[i]).img,
                        items@[similars@[i].index as int],
                    ) && out@[i].dist == similars@[i].dist,
            decreases similars@.len() - j,
        {
            match SerializeSimilar::from_similar(items, &similars[j]) {
                Some(record) => {
                    out.push(record);
                },
                None => {
                    proof {
                        assert(!(similars@[j as int].index < items@.len()));
                    }
                    return None;
                },
            }
            j = j + 1;
        }
        Some(SerializeUnique { img: SerializeImage::from_img(&items[index]), similars: out })
    }
}

/// The records of all images of `tree`, each with its neighbours from
/// `similars`, which holds one list for each image; none where the lists
/// are not as many as the images or name an image that is not there.
pub fn write_json(tree: &VpTree, similars: &Vec<Vec<Neighbor>>) -> (records: Option<
    Vec<SerializeUnique>,
>)
    ensures
        records is Some <==> similars@.len() == tree@.len() && forall|i: int|
            0 <= i < similars@.len() ==> all_in((#[trigger] similars@[i])@, tree@.len()),
        records is Some ==> records->0@.len() == tree@.len() && forall|i: int|
            0 <= i < tree@.len() ==> records_unique(
                #[trigger] records->0@[i],
                tree@,
                i,
                similars@[i]@,
            ),
{
    let items: &Vec<HashedImage> = tree.items();
    let n: usize = items.len();
    if similars.len() != n {
        return None;
    }
    let mut out: Vec<SerializeUnique> = Vec::new();
    let mut i: usize = 0;
    while i < n
        invariant
            i <= n,
            n == items@.len(),
            items@ == tree@,
            similars@.len() == n,
            out@.len() == i,
            forall|j: int| 0 <= j < i ==> all_in((#[trigger] similars@[j])@, n as nat),
            forall|j: int|
                0 <= j < i ==> records_unique(#[trigger] out@[j], items@, j, similars@[j]@),
        decreases n - i,
    {
        match SerializeUnique::from_unique(items, i, &similars[i]) {
            Some(record) => {
                out.push(record);
            },
            None => {
                proof {
                    assert(!all_in(similars@[i as int]@, tree@.len()));
                }
                return None;
            },
        }
        i = i + 1;
    }
    Some(out)
}

/// A failure as the report gives it.
#[derive(Debug)]
pub struct SerializeError {
    pub path: String,
    /// `io`, `decode` or `panic`.
    pub kind: String,
    pub message: String,
}

impl SerializeError {
    /// The record of the failure `error`.
    pub fn from_error(error: &Error) -> (record: SerializeError)
        ensures
            record.path@ == error.path@,
            record.kind@ == error.kind.spec_name(),
            record.message@ == error.kind.spec_message(),
    {
        SerializeError {
            path: error.path.clone(),
            kind: owned(error.kind.name()),
            message: error.kind.message(),
        }
    }
}

/// The figures of a run as the report gives them.
#[derive(Debug, Clone, Copy, PartialEq, Eq, Structural)]
pub struct SerializeStats {
    /// Files looked at.
    pub total: usize,
    /// Images hashed.
    pub hashed: usize,
    /// Files that failed.
    pub errors: usize,
    pub elapsed_ms: u64,
    pub load_ms: u64,
    pub hash_ms: u64,
    pub collate_ms: u64,
}

impl SerializeStats {
    /// The figures of a run that ended with `status` after `elapsed_ms`
    /// milliseconds, `collate_ms` of them spent on collating.
    pub fn from_status(status: &WorkStatus, elapsed_ms: u64, collate_ms: u64) -> (stats:
        SerializeStats)
        ensures
            stats.hashed == status.count,
            stats.errors == status.errors,
            stats.total == if status.count + status.errors > usize::MAX {
                usize::MAX
            } else {
                (status.count + status.errors) as usize
            },
            stats.elapsed_ms == elapsed_ms,
            stats.load_ms == status.load_time,
            stats.hash_ms == status.hash_time,
            stats.collate_ms == collate_ms,
    {
        let total: usize = if status.count > usize::MAX - status.errors {
            usize::MAX
        } else {
            status.count + status.errors
        };
        SerializeStats {
            total,
            hashed: status.count,
            errors: status.errors,
            elapsed_ms,
            load_ms: status.load_time,
            hash_ms: status.hash_time,
            collate_ms,
        }
    }
}

/// Appends `what` to `out` with an empty line before and after it.
pub fn newline_before_after(out: &mut String, what: &str)
    ensures
        final(out)@ == old(out)@ + "\n"@ + what@ + "\n"@,
{
    push_text(out, "\n");
    push_text(out, what);
    push_text(out, "\n");
}

} // verus!
