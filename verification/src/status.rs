//! The running totals of a load-and-hash run, folded from its results.

use vstd::prelude::*;
use vstd::string::*;
use crate::clock::{add_capped, capped_sum};
use crate::error::Error;
use crate::format::{
    byte_rate, bytes_text, clock_text, grouped, push_bytes, push_grouped, spec_rate, Time,
};
use crate::text::push_text;
use crate::loader::WorkResult;
use crate::model::HashedImage;

verus! {

/// The sum of two counts, capped at the largest number that fits.
pub open spec fn capped_count(a: usize, b: usize) -> usize {
    if a + b > usize::MAX {
        usize::MAX
    } else {
        (a + b) as usize
    }
}

fn add_count(a: usize, b: usize) -> (sum: usize)
    ensures
        sum == capped_count(a, b),
{
    if a > usize::MAX - b {
        usize::MAX
    } else {
        a + b
    }
}

/// Cumulative counters of a run. They only ever grow.
#[derive(Debug, Clone, Copy, PartialEq, Eq, Structural)]
pub struct WorkStatus {
    /// Images loaded and hashed.
    pub count: usize,
    /// Files that failed.
    pub errors: usize,
    /// Bytes of decoded pixels.
    pub total_bytes: u64,
    /// Milliseconds spent loading.
    pub load_time: u64,
    /// Milliseconds spent hashing.
    pub hash_time: u64,
}

impl Default for WorkStatus {
    fn default() -> (status: WorkStatus)
        ensures
            status == WorkStatus::zero(),
    {
        WorkStatus { count: 0, errors: 0, total_bytes: 0, load_time: 0, hash_time: 0 }
    }
}

/// How many of `results` are images.
pub open spec fn successes(results: Seq<WorkResult>) -> nat
    decreases results.len(),
{
    if results.len() == 0 {
        0
    } else {
        successes(results.drop_last()) + if results.last() is Ok {
            1nat
        } else {
            0nat
        }
    }
}

/// How many of `results` are failures.
pub open spec fn failures(results: Seq<WorkResult>) -> nat
    decreases results.len(),
{
    if results.len() == 0 {
        0
    } else {
        failures(results.drop_last()) + if results.last() is Err {
            1nat
        } else {
            0nat
        }
    }
}

/// The status after `results`: what each of them adds, added up from
/// nothing in their order, each counter capped at the largest number that
/// fits.
pub open spec fn tally(results: Seq<WorkResult>) -> WorkStatus
    decreases results.len(),
{
    if results.len() == 0 {
        WorkStatus::zero()
    } else {
        tally(results.drop_last()).plus(WorkStatus::delta(results.last()))
    }
}

impl WorkStatus {
    /// The status before any result.
    pub open spec fn zero() -> WorkStatus {
        WorkStatus { count: 0, errors: 0, total_bytes: 0, load_time: 0, hash_time: 0 }
    }

    /// The counters of `self` and `other` added up, each capped at the
    /// largest number that fits.
    pub open spec fn plus(self, other: WorkStatus) -> WorkStatus {
        WorkStatus {
            count: capped_count(self.count, other.count),
            errors: capped_count(self.errors, other.errors),
            total_bytes: capped_sum(self.total_bytes, other.total_bytes),
            load_time: capped_sum(self.load_time, other.load_time),
            hash_time: capped_sum(self.hash_time, other.hash_time),
        }
    }

    /// What one result adds to the counters.
    pub open spec fn delta(result: WorkResult) -> WorkStatus {
        match result {
            Ok(img) => WorkStatus {
                count: 1,
                errors: 0,
                total_bytes: img.image.loaded_size,
                load_time: img.image.load_time,
                hash_time: img.hash_time,
            },
            Err(_) => WorkStatus { count: 0, errors: 1, total_bytes: 0, load_time: 0, hash_time: 0 },
        }
    }

    /// No counter of `self` is below that of `earlier`.
    pub open spec fn not_below(self, earlier: WorkStatus) -> bool {
        &&& self.count >= earlier.count
        &&& self.errors >= earlier.errors
        &&& self.total_bytes >= earlier.total_bytes
        &&& self.load_time >= earlier.load_time
        &&& self.hash_time >= earlier.hash_time
    }

    /// Adds the counters of `other` to those of `self`.
    pub fn add(&mut self, other: WorkStatus)
        ensures
            *final(self) == old(self).plus(other),
            final(self).not_below(*old(self)),
    {
        self.count = add_count(self.count, other.count);
        self.errors = add_count(self.errors, other.errors);
        self.total_bytes = add_capped(self.total_bytes, other.total_bytes);
        self.load_time = add_capped(self.load_time, other.load_time);
        self.hash_time = add_capped(self.hash_time, other.hash_time);
    }

    /// What `result` adds to the counters: one image with its bytes and
    /// times, or one error.
    pub fn delta_of(result: &WorkResult) -> (d: WorkStatus)
        ensures
            d == WorkStatus::delta(*result),
    {
        match result {
            Ok(img) => WorkStatus {
                count: 1,
                errors: 0,
                total_bytes: img.image.loaded_size,
                load_time: img.image.load_time,
                hash_time: img.hash_time,
            },
            Err(_) => WorkStatus { count: 0, errors: 1, total_bytes: 0, load_time: 0, hash_time: 0 },
        }
    }

    /// Counts one more result.
    pub fn record(&mut self, result: &WorkResult)
        ensures
            *final(self) == old(self).plus(WorkStatus::delta(*result)),
            final(self).not_below(*old(self)),
            old(self).count + old(self).errors < usize::MAX ==> final(self).count
                + final(self).errors == old(self).count + old(self).errors + 1,
    {
        let d = WorkStatus::delta_of(result);
        self.add(d);
    }

    /// The status after all of `results`: what each of them adds, added up
    /// from nothing in their order. As many images and errors are counted
    /// as there are among them, which together are all of them.
    pub fn summarise(results: &Vec<WorkResult>) -> (status: WorkStatus)
        ensures
            status == tally(results@),
            status.count == successes(results@),
            status.errors == failures(results@),
            status.count + status.errors == results@.len(),
    {
        let mut status = WorkStatus { count: 0, errors: 0, total_bytes: 0, load_time: 0, hash_time: 0 };
        let n: usize = results.len();
        let mut i: usize = 0;
        while i < n
            invariant
                i <= n,
                n == results@.len(),
                status == tally(results@.take(i as int)),
                status.count == successes(results@.take(i as int)),
                status.errors == failures(results@.take(i as int)),
                status.count + status.errors == i,
            decreases n - i,
        {
            proof {
                assert(results@.take(i + 1).drop_last() =~= results@.take(i as int));
            }
            status.record(&results[i]);
            i = i + 1;
        }
        proof {
            assert(results@.take(n as int) =~= results@);
        }
        status
    }

    /// Milliseconds of loading for each image, on average; the count is
    /// taken as one where no image was loaded yet.
    pub fn avg_load_ms(&self) -> (avg: u64)
        ensures
            avg == self.load_time as int / (if self.count == 0 {
                1int
            } else {
                self.count as int
            }),
    {
        let n: u64 = if self.count == 0 {
            1
        } else {
            self.count as u64
        };
        self.load_time / n
    }

    /// Milliseconds of hashing for each image, on average; the count is
    /// taken as one where no image was hashed yet.
    pub fn avg_hash_ms(&self) -> (avg: u64)
        ensures
            avg == self.hash_time as int / (if self.count == 0 {
                1int
            } else {
                self.count as int
            }),
    {
        let n: u64 = if self.count == 0 {
            1
        } else {
            self.count as u64
        };
        self.hash_time / n
    }
}

/// Every result is an image or a failure: the two counts add up to the
/// number of results.
pub proof fn law_every_result_counted(results: Seq<WorkResult>)
    ensures
        successes(results) + failures(results) == results.len(),
    decreases results.len(),
{
    if results.len() > 0 {
        law_every_result_counted(results.drop_last());
    }
}

/// With one more result, neither count goes down, and together they go up
/// by one.
pub proof fn law_counts_grow(results: Seq<WorkResult>, next: WorkResult)
    ensures
        successes(results.push(next)) >= successes(results),
        failures(results.push(next)) >= failures(results),
        successes(results.push(next)) + failures(results.push(next)) == successes(results)
            + failures(results) + 1,
{
    assert(results.push(next).drop_last() =~= results);
}

/// The images and the failures of a run, each in the order they came in.
#[derive(Debug)]
pub struct ImgResults {
    pub images: Vec<HashedImage>,
    pub errors: Vec<Error>,
}

impl ImgResults {
    /// No results yet.
    pub fn empty() -> (r: ImgResults)
        ensures
            r.images@.len() == 0,
            r.errors@.len() == 0,
    {
        ImgResults { images: Vec::new(), errors: Vec::new() }
    }

    /// Files an image under the images and a failure under the errors.
    pub fn push_result(&mut self, result: WorkResult)
        ensures
            result is Ok ==> final(self).images@ == old(self).images@.push(result->Ok_0)
                && final(self).errors@ == old(self).errors@,
            result is Err ==> final(self).errors@ == old(self).errors@.push(result->Err_0)
                && final(self).images@ == old(self).images@,
    {
        match result {
            Ok(img) => self.images.push(img),
            Err(err) => self.errors.push(err),
        }
    }

    /// The number of results, images and failures together, capped at the
    /// largest number that fits.
    pub fn total(&self) -> (n: usize)
        ensures
            n == capped_count(self.images@.len() as usize, self.errors@.len() as usize),
    {
        add_count(self.images.len(), self.errors.len())
    }
}

/// How far a run has come.
#[derive(Debug, Clone, Copy, PartialEq, Eq, Structural)]
pub struct RunningStatus {
    /// The number of files done, failures included.
    pub done: usize,
    /// The number of files that failed to load or hash.
    pub errors: usize,
}

impl RunningStatus {
    /// The status that `results` stand for.
    pub fn from_img_results(results: &ImgResults) -> (status: RunningStatus)
        ensures
            status.errors == results.errors@.len(),
            status.done == capped_count(
                results.images@.len() as usize,
                results.errors@.len() as usize,
            ),
    {
        RunningStatus { done: results.total(), errors: results.errors.len() }
    }

    /// Whether all of `total` files are done.
    pub fn is_done(&self, total: usize) -> (done: bool)
        ensures
            done == (self.done >= total),
    {
        self.done >= total
    }
}

/// When the next snapshot of the status is due: no more often than once in
/// every interval.
#[derive(Debug, Clone, Copy, PartialEq, Eq, Structural)]
pub struct StatusUpdater {
    /// The least time between two snapshots, in milliseconds.
    pub interval: u64,
    /// When the last snapshot was made, in milliseconds since the start;
    /// none was made yet where this is `None`.
    pub last: Option<u64>,
}

impl StatusUpdater {
    /// An updater with the given interval, whose first snapshot is due at
    /// once.
    pub fn new(interval: u64) -> (u: StatusUpdater)
        ensures
            u.interval == interval,
            u.last is None,
    {
        StatusUpdater { interval, last: None }
    }

    /// Whether a snapshot is due at time `now`.
    pub open spec fn spec_due(self, now: u64) -> bool {
        match self.last {
            None => true,
            Some(last) => now >= last && now - last >= self.interval,
        }
    }

    /// Says whether a snapshot is due at time `now`, and if so takes `now`
    /// as the time of the last snapshot.
    pub fn update(&mut self, now: u64) -> (due: bool)
        ensures
            due == old(self).spec_due(now),
            due ==> final(self).last == Some(now) && final(self).interval == old(self).interval,
            !due ==> *final(self) == *old(self),
    {
        let due: bool = match self.last {
            None => true,
            Some(last) => now >= last && now - last >= self.interval,
        };
        if due {
            self.last = Some(now);
        }
        due
    }
}

impl Default for StatusUpdater {
    fn default() -> (u: StatusUpdater)
        ensures
            u.interval == 250,
            u.last is None,
    {
        StatusUpdater { interval: 250, last: None }
    }
}

/// The mean of `total` over `count` items, the count taken as one where
/// there is no item.
pub open spec fn spec_average(total: u64, count: usize) -> u64 {
    (total as int / (if count == 0 {
        1int
    } else {
        count as int
    })) as u64
}

/// One line on how far a run has come after `elapsed` seconds.
pub open spec fn status_text(status: WorkStatus, elapsed: u64) -> Seq<char> {
    "Elapsed: "@ + clock_text(elapsed as nat) + " Processed: "@ + grouped(status.count as nat)
        + " ("@ + bytes_text(status.total_bytes as nat) + ") Load: "@ + bytes_text(
        spec_rate(status.total_bytes, status.load_time) as nat,
    ) + "/s ("@ + grouped(spec_average(status.load_time, status.count) as nat)
        + " ms avg) Hash: "@ + bytes_text(spec_rate(status.total_bytes, status.hash_time) as nat)
        + "/s ("@ + grouped(spec_average(status.hash_time, status.count) as nat)
        + " ms avg) Errors: "@ + grouped(status.errors as nat)
}

impl WorkStatus {
    /// One line on how far the run has come after `elapsed` seconds: the
    /// time, the images and bytes processed, the rates and average times
    /// of loading and hashing, and the errors.
    pub fn to_text(&self, elapsed: u64) -> (line: String)
        ensures
            line@ == status_text(*self, elapsed),
    {
        let load_rate = byte_rate(self.total_bytes, self.load_time);
        let hash_rate = byte_rate(self.total_bytes, self.hash_time);
        let avg_load: u64 = self.avg_load_ms();
        let avg_hash: u64 = self.avg_hash_ms();
        let mut out: String = String::new();
        push_text(&mut out, "Elapsed: ");
        let clock = Time(elapsed).to_text();
        push_text(&mut out, clock.as_str());
        push_text(&mut out, " Processed: ");
        push_grouped(&mut out, self.count as u64);
        push_text(&mut out, " (");
        push_bytes(&mut out, self.total_bytes);
        push_text(&mut out, ") Load: ");
        push_bytes(&mut out, load_rate.0);
        push_text(&mut out, "/s (");
        push_grouped(&mut out, avg_load);
        push_text(&mut out, " ms avg) Hash: ");
        push_bytes(&mut out, hash_rate.0);
        push_text(&mut out, "/s (");
        push_grouped(&mut out, avg_hash);
        push_text(&mut out, " ms avg) Errors: ");
        push_grouped(&mut out, self.errors as u64);
        proof {
            assert(out@ =~= status_text(*self, elapsed));
        }
        out
    }
}

} // verus!
