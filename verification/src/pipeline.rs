//! The three stages of a run, each made from the one before: the paths
//! that a search found, the results of loading and hashing them, and the
//! collated images. Listing directories, reading files and the threads are
//! the caller's; what is kept of their outcomes is decided here.

use vstd::prelude::*;
use crate::clock::{elapsed_millis, now};
use crate::collate::{collate, similars_of, CollatedResults};
use crate::error::{Error, ErrorKind};
use crate::hash::{CompareMode, HashSettings};
use crate::loader::WorkResult;
use crate::model::{hashes_of, uniform, HashedImage};
use crate::pool::{channel_capacity, is_capacity, ParQueue};
use crate::search::{WalkEvent};
use crate::status::WorkStatus;
use crate::vptree::{Neighbor, VpTree};

verus! {

/// The first stage: the paths of the files to look at, as the search
/// reported them.
#[derive(Debug)]
pub struct Ready {
    pub paths: Vec<String>,
    /// The directories and entries that could not be read.
    pub errors: Vec<Error>,
    /// The directories that the search went into, the first one included.
    pub dirs_visited: usize,
}

impl Ready {
    /// The stage before the search has reported anything.
    pub fn new() -> (r: Ready)
        ensures
            r.paths@.len() == 0,
            r.errors@.len() == 0,
            r.dirs_visited == 1,
    {
        Ready { paths: Vec::new(), errors: Vec::new(), dirs_visited: 1 }
    }

    /// Takes note of what the search came upon: a file is a path to look
    /// at, a directory is counted, and a failure is kept. The answer tells
    /// the search to go on.
    pub fn on_event(&mut self, event: WalkEvent) -> (go_on: bool)
        ensures
            go_on,
            event is File ==> final(self).paths@ == old(self).paths@.push(event->File_0)
                && final(self).errors@ == old(self).errors@ && final(self).dirs_visited == old(self).dirs_visited,
            event is Dir ==> final(self).paths@ == old(self).paths@ && final(self).errors@ == old(self).errors@ && final(self).dirs_visited == if old(self).dirs_visited < usize::MAX {
                (old(self).dirs_visited + 1) as usize
            } else {
                usize::MAX
            },
            event is Error ==> final(self).paths@ == old(self).paths@ && final(self).errors@
                == old(self).errors@.push(event->Error_0) && final(self).dirs_visited == old(self).dirs_visited,
    {
        match event {
            WalkEvent::File(path) => {
                self.paths.push(path);
            },
            WalkEvent::Dir(_) => {
                if self.dirs_visited < usize::MAX {
                    self.dirs_visited = self.dirs_visited + 1;
                }
            },
            WalkEvent::Error(error) => {
                self.errors.push(error);
            },
        }
        true
    }

    /// Goes on to the second stage: the paths as a queue for the workers to
    /// draw from, the capacity of the channel that their results come
    /// through, and the place where the results are kept.
    pub fn load_and_hash(self, settings: HashSettings) -> (r: (ParQueue<String>, usize, Hashed))
        ensures
            r.0@ == self.paths@,
            is_capacity(self.paths@.len(), r.1 as nat),
            r.2.wf(),
            r.2.spec_expected() == self.paths@.len(),
            r.2.spec_images().len() == 0,
            r.2.spec_errors() == self.errors@,
            r.2.spec_status() == WorkStatus::zero(),
            r.2.spec_settings() == settings,
    {
        let expected: usize = self.paths.len();
        let capacity: usize = channel_capacity(expected);
        let queue = ParQueue::from_vec(self.paths);
        let hashed = Hashed {
            images: Vec::new(),
            errors: self.errors,
            status: WorkStatus { count: 0, errors: 0, total_bytes: 0, load_time: 0, hash_time: 0 },
            settings,
            expected,
            received: 0,
        };
        (queue, capacity, hashed)
    }
}

/// The second stage: the results of loading and hashing, as far as they
/// have come in.
#[derive(Debug)]
pub struct Hashed {
    images: Vec<HashedImage>,
    errors: Vec<Error>,
    status: WorkStatus,
    settings: HashSettings,
    expected: usize,
    received: usize,
}

impl Hashed {
    pub closed spec fn spec_images(&self) -> Seq<HashedImage> {
        self.images@
    }

    pub closed spec fn spec_errors(&self) -> Seq<Error> {
        self.errors@
    }

    pub closed spec fn spec_status(&self) -> WorkStatus {
        self.status
    }

    pub closed spec fn spec_settings(&self) -> HashSettings {
        self.settings
    }

    /// The number of results that are to come in all.
    pub closed spec fn spec_expected(&self) -> nat {
        self.expected as nat
    }

    /// The number of results that have come.
    pub closed spec fn spec_received(&self) -> nat {
        self.received as nat
    }

    /// The counters agree with what was kept: every result that came was
    /// counted as an image or as an error, and no more came than were to
    /// come.
    pub closed spec fn wf(&self) -> bool {
        &&& self.status.count + self.status.errors == self.received
        &&& self.status.count == self.images@.len()
        &&& self.received <= self.expected
    }

    /// Every result that came was counted once, as an image or as an
    /// error, and when all have come the two counts add up to the number of
    /// paths that the run began with.
    pub proof fn law_every_path_counted(&self)
        requires
            self.wf(),
        ensures
            self.spec_status().count + self.spec_status().errors == self.spec_received(),
            self.spec_status().count == self.spec_images().len(),
            self.spec_received() <= self.spec_expected(),
            self.spec_received() >= self.spec_expected() ==> self.spec_status().count
                + self.spec_status().errors == self.spec_expected(),
    {
    }

    /// Takes in one result. The counters never go down, and the images and
    /// errors counted go up by one. A result beyond those that were to
    /// come is turned away: the answer is then `false` and nothing changes.
    pub fn accept(&mut self, result: WorkResult) -> (taken: bool)
        requires
            old(self).wf(),
        ensures
            final(self).wf(),
            taken == (old(self).spec_received() < old(self).spec_expected()),
            !taken ==> *final(self) == *old(self),
            taken ==> {
                &&& final(self).spec_received() == old(self).spec_received() + 1
                &&& final(self).spec_status() == old(self).spec_status().plus(
                    WorkStatus::delta(result),
                )
                &&& final(self).spec_status().not_below(old(self).spec_status())
                &&& final(self).spec_expected() == old(self).spec_expected()
                &&& final(self).spec_settings() == old(self).spec_settings()
                &&& result is Ok ==> final(self).spec_images() == old(self).spec_images().push(
                    result->Ok_0,
                ) && final(self).spec_errors() == old(self).spec_errors()
                &&& result is Err ==> final(self).spec_errors() == old(self).spec_errors().push(
                    result->Err_0,
                ) && final(self).spec_images() == old(self).spec_images()
            },
    {
        if self.received >= self.expected {
            return false;
        }
        self.status.record(&result);
        self.received = self.received + 1;
        match result {
            Ok(image) => {
                self.images.push(image);
            },
            Err(error) => {
                self.errors.push(error);
            },
        }
        true
    }

    /// The counters so far.
    pub fn status(&self) -> (status: WorkStatus)
        ensures
            status == self.spec_status(),
    {
        self.status
    }

    /// Whether every result that was to come has come.
    pub fn is_done(&self) -> (done: bool)
        ensures
            done == (self.spec_received() >= self.spec_expected()),
    {
        self.received >= self.expected
    }

    /// Goes on to the third stage with the tree alone: the similar images
    /// of each image are then asked of the tree one by one. Images whose
    /// hashes are not all of one size cannot be collated.
    pub fn build_tree(self) -> (r: Result<CollatedResults, ErrorKind>)
        ensures
            r is Ok <==> exists|bits: nat| uniform(hashes_of(self.spec_images()), bits),
            r is Err ==> r->Err_0 == ErrorKind::DimensionMismatch,
            r is Ok ==> {
                &&& r->Ok_0.tree@ == self.spec_images()
                &&& r->Ok_0.tree.wf()
                &&& r->Ok_0.settings == self.spec_settings()
                &&& r->Ok_0.errors@ == self.spec_errors()
            },
    {
        let start = now();
        let ghost given = self.images@;
        proof {
            assert(given == self.spec_images());
        }
        let built = VpTree::build(self.images);
        proof {
            assert(built is Ok <==> exists|bits: nat| uniform(hashes_of(given), bits));
        }
        match built {
            Ok(tree) => {
                let collate_time: u64 = elapsed_millis(&start);
                Ok(
                    CollatedResults {
                        tree,
                        collate_time,
                        settings: self.settings,
                        errors: self.errors,
                    },
                )
            },
            Err(e) => Err(e),
        }
    }

    /// Goes on to the third stage: builds the tree of the images and finds
    /// for each image, in their order, the images it is similar to by
    /// `mode`. Images whose hashes are not all of one size cannot be
    /// collated.
    pub fn collate(self, mode: CompareMode) -> (r: Result<
        (CollatedResults, Vec<Vec<Neighbor>>),
        ErrorKind,
    >)
        ensures
            r is Ok <==> exists|bits: nat| uniform(hashes_of(self.spec_images()), bits),
            r is Err ==> r->Err_0 == ErrorKind::DimensionMismatch,
            r is Ok ==> {
                let found = r->Ok_0.0;
                let similars = r->Ok_0.1;
                &&& found.tree@ == self.spec_images()
                &&& found.tree.wf()
                &&& found.settings == self.spec_settings()
                &&& found.errors@ == self.spec_errors()
                &&& similars@.len() == self.spec_images().len()
                &&& forall|i: int|
                    0 <= i < similars@.len() ==> similars_of(
                        self.spec_images(),
                        i as usize,
                        mode,
                        #[trigger] similars@[i]@,
                    )
            },
    {
        match self.build_tree() {
            Ok(found) => {
                let similars = collate(&found.tree, mode);
                Ok((found, similars))
            },
            Err(e) => Err(e),
        }
    }
}

} // verus!
