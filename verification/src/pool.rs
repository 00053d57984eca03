//! The decisions of the work pool: how many threads, how large the result
//! channel, in what order the paths are drawn, and what a worker does with
//! a result that the channel cannot take yet.
//!
//! Threads and channels themselves live outside this library. A worker
//! there asks a `CollectWork` here before each task and tells it what came
//! of each send.

use vstd::prelude::*;
use crate::imaging::logical_cpus;
use crate::loader::WorkResult;

verus! {

/// Two to the power `e`.
pub open spec fn two_to(e: nat) -> nat
    decreases e,
{
    if e == 0 {
        1
    } else {
        2 * two_to((e - 1) as nat)
    }
}

/// `c` is the logarithm of `n` to the base two, rounded up: the least
/// number with `two_to(c) >= n`.
pub open spec fn is_ceil_log2(n: nat, c: nat) -> bool {
    &&& two_to(c) >= n
    &&& c > 0 ==> two_to((c - 1) as nat) < n
}

/// `c` is the capacity of the result channel for `n` paths: the logarithm
/// of `n` to the base two, rounded up, but at least 1 and at most 64.
pub open spec fn is_capacity(n: nat, c: nat) -> bool {
    &&& 1 <= c <= 64
    &&& exists|e: nat|
        is_ceil_log2(n, e) && c == if e < 1 {
            1
        } else if e > 64 {
            64
        } else {
            e
        }
}

/// The capacity of the result channel for `n` paths.
pub fn channel_capacity(n: usize) -> (c: usize)
    ensures
        is_capacity(n as nat, c as nat),
{
    let mut e: usize = 0;
    let mut p: usize = 1;
    let mut grown: bool = false;
    while p < n && !grown
        invariant
            e <= 64,
            p >= 1,
            !grown ==> p == two_to(e as nat),
            !grown ==> e < 64,
            e > 0 ==> two_to((e - 1) as nat) < n,
            grown ==> two_to(e as nat) >= n && e > 0,
        decreases 65 - e - (if grown { 1int } else { 0int }),
    {
        proof {
            lemma_double(e as nat, p as nat);
        }
        if p > usize::MAX / 2 {
            e = e + 1;
            grown = true;
        } else {
            p = p * 2;
            e = e + 1;
        }
    }
    proof {
        assert(is_ceil_log2(n as nat, e as nat));
    }
    if e < 1 {
        1
    } else {
        e
    }
}

/// Doubling a power of two gives the next one, and a power of two that can
/// be doubled within a machine word has an exponent below 63.
proof fn lemma_double(e: nat, p: nat)
    requires
        p == two_to(e),
    ensures
        two_to(e + 1) == 2 * p,
        2 * p <= usize::MAX ==> e + 1 < 64,
{
    lemma_two_to_64();
    if e >= 63 {
        lemma_two_to_grows(63, e);
    }
}

proof fn lemma_two_to_grows(a: nat, b: nat)
    requires
        a <= b,
    ensures
        two_to(a) <= two_to(b),
    decreases b - a,
{
    if a < b {
        lemma_two_to_grows(a, (b - 1) as nat);
    }
}

proof fn lemma_two_to_64()
    ensures
        two_to(63) == 0x8000_0000_0000_0000,
        two_to(31) == 0x8000_0000,
{
    reveal_with_fuel(two_to, 33);
    assert(two_to(16) == 0x1_0000);
    assert(two_to(31) == 0x8000_0000);
    assert(two_to(47) == 0x8000_0000_0000);
    assert(two_to(63) == 0x8000_0000_0000_0000);
}

/// The number of worker threads for a request of `requested` threads on a
/// machine with `cpus` logical processors: what was asked for, else one for
/// each processor, and never none.
pub fn effective_threads(requested: Option<usize>, cpus: usize) -> (threads: usize)
    ensures
        threads >= 1,
        requested is Some && requested->0 > 0 ==> threads == requested->0,
        (requested is None || requested->0 == 0) && cpus > 0 ==> threads == cpus,
        (requested is None || requested->0 == 0) && cpus == 0 ==> threads == 1,
{
    match requested {
        Some(n) => {
            if n > 0 {
                return n;
            }
        },
        None => {},
    }
    if cpus > 0 {
        cpus
    } else {
        1
    }
}

/// The number of worker threads for a request of `requested` threads on
/// this machine.
pub fn thread_count(requested: Option<usize>) -> (threads: usize)
    ensures
        threads >= 1,
        requested is Some && requested->0 > 0 ==> threads == requested->0,
{
    effective_threads(requested, logical_cpus())
}

/// What came of an attempt to put a result on the channel without waiting.
#[derive(Debug)]
pub enum SendOutcome {
    /// The channel took the result.
    Sent,
    /// The channel is full; the result comes back.
    Full(WorkResult),
    /// The receiver is gone.
    Closed,
}

/// One worker's share of the back-pressure: at most one result that the
/// channel could not take yet, and whether the receiver is known to be
/// gone.
#[derive(Debug)]
pub struct CollectWork {
    overflow: Option<WorkResult>,
    closed: bool,
}

impl CollectWork {
    /// The result that waits to be sent, if there is one.
    pub closed spec fn spec_overflow(&self) -> Option<WorkResult> {
        self.overflow
    }

    /// Whether the receiver is known to be gone.
    pub closed spec fn spec_closed(&self) -> bool {
        self.closed
    }

    /// A worker with nothing pending on an open channel.
    pub fn new() -> (w: CollectWork)
        ensures
            w.spec_overflow() is None,
            !w.spec_closed(),
    {
        CollectWork { overflow: None, closed: false }
    }

    /// Whether the receiver is known to be gone.
    pub fn is_closed(&self) -> (closed: bool)
        ensures
            closed == self.spec_closed(),
    {
        self.closed
    }

    /// Whether the worker should take up another task: not once the
    /// receiver is gone.
    pub fn wants_task(&self) -> (go: bool)
        ensures
            go == !self.spec_closed(),
    {
        !self.closed
    }

    /// Hands out the result that waits, to be sent before the next one;
    /// the worker waits for room to send it.
    pub fn take_overflow(&mut self) -> (pending: Option<WorkResult>)
        ensures
            pending == old(self).spec_overflow(),
            final(self).spec_overflow() is None,
            final(self).spec_closed() == old(self).spec_closed(),
    {
        self.overflow.take()
    }

    /// Notes whether the waiting send got through; if not, the receiver
    /// is gone.
    pub fn flushed(&mut self, delivered: bool)
        ensures
            final(self).spec_closed() == (old(self).spec_closed() || !delivered),
            final(self).spec_overflow() == old(self).spec_overflow(),
    {
        if !delivered {
            self.closed = true;
        }
    }

    /// Notes what came of the attempt to send a new result: a result that
    /// the full channel gave back waits for the next task, and a closed
    /// channel ends the work.
    pub fn tried(&mut self, outcome: SendOutcome)
        requires
            old(self).spec_overflow() is None,
        ensures
            outcome is Sent ==> final(self).spec_overflow() is None && final(self).spec_closed()
                == old(self).spec_closed(),
            outcome is Full ==> final(self).spec_overflow() == Some(outcome->Full_0)
                && final(self).spec_closed() == old(self).spec_closed(),
            outcome is Closed ==> final(self).spec_overflow() is None && final(self).spec_closed(),
    {
        match outcome {
            SendOutcome::Sent => {},
            SendOutcome::Full(result) => {
                self.overflow = Some(result);
            },
            SendOutcome::Closed => {
                self.closed = true;
            },
        }
    }
}

/// The paths of a run as a queue from which the workers draw, each path
/// drawn once and in the order given.
#[derive(Debug)]
pub struct ParQueue<T> {
    rest: Vec<T>,
}

impl<T> View for ParQueue<T> {
    type V = Seq<T>;

    /// What is still to be drawn, next first.
    closed spec fn view(&self) -> Seq<T> {
        self.rest@.reverse()
    }
}

impl<T> ParQueue<T> {
    /// The queue of the items of `vec`, first item first.
    pub fn from_vec(vec: Vec<T>) -> (q: ParQueue<T>)
        ensures
            q@ == vec@,
    {
        let mut rest: Vec<T> = vec;
        let ghost given = rest@;
        let mut turned: Vec<T> = Vec::new();
        while rest.len() > 0
            invariant
                rest@.len() <= given.len(),
                rest@ == given.take(rest@.len() as int),
                turned@.len() + rest@.len() == given.len(),
                forall|i: int|
                    0 <= i < turned@.len() ==> turned@[i] == given[given.len() - 1 - i],
            decreases rest@.len(),
        {
            let ghost before = rest@;
            let last = rest.pop();
            match last {
                Some(item) => {
                    turned.push(item);
                    proof {
                        assert(rest@ =~= given.take(rest@.len() as int));
                    }
                },
                None => {},
            }
        }
        proof {
            assert(turned@.reverse() =~= given);
        }
        ParQueue { rest: turned }
    }

    /// Draws the next item; `None` once all are drawn.
    pub fn pop(&mut self) -> (item: Option<T>)
        ensures
            old(self)@.len() == 0 ==> item is None && final(self)@ == old(self)@,
            old(self)@.len() > 0 ==> item == Some(old(self)@[0])
                && final(self)@ == old(self)@.skip(1),
    {
        let ghost before = self.rest@;
        let item = self.rest.pop();
        proof {
            if before.len() > 0 {
                assert(self.rest@.reverse() =~= before.reverse().skip(1));
            }
        }
        item
    }

    /// The number of items still to be drawn.
    pub fn len(&self) -> (n: usize)
        ensures
            n == self@.len(),
    {
        self.rest.len()
    }

    /// The queue as a source of items for one worker after another.
    pub fn into_iter(self) -> (iter: ParQueueIter<T>)
        ensures
            iter@ == self@,
    {
        ParQueueIter { queue: self }
    }
}

/// A queue seen as a source of items: each call of `next` draws one.
#[derive(Debug)]
pub struct ParQueueIter<T> {
    queue: ParQueue<T>,
}

impl<T> View for ParQueueIter<T> {
    type V = Seq<T>;

    closed spec fn view(&self) -> Seq<T> {
        self.queue@
    }
}

impl<T> ParQueueIter<T> {
    /// Draws the next item; `None` once all are drawn.
    pub fn next(&mut self) -> (item: Option<T>)
        ensures
            old(self)@.len() == 0 ==> item is None && final(self)@ == old(self)@,
            old(self)@.len() > 0 ==> item == Some(old(self)@[0])
                && final(self)@ == old(self)@.skip(1),
    {
        self.queue.pop()
    }
}

} // verus!
