//! A vantage-point tree over hashed images under Hamming distance.
//!
//! The tree is built deterministically: the vantage of a group of images is
//! the first of them, the radius is the lower median of the distances from
//! the vantage to the others, and the others split into those within the
//! radius and those beyond it, each keeping its order.

use vstd::prelude::*;
use vstd::set_lib::{lemma_int_range, lemma_len_subset, lemma_subset_equality, set_int_range};
use crate::bithash::{
    hamming, lemma_differing_bounded, lemma_hamming_symmetric, lemma_hamming_triangle, BitHash,
};
use crate::error::ErrorKind;
use crate::model::{hashes_of, uniform, HashedImage};

verus! {

/// The distance between items `a` and `b`.
pub open spec fn gap(hashes: Seq<Seq<bool>>, a: int, b: int) -> nat {
    hamming(hashes[a], hashes[b])
}

/// One node: a vantage item, the radius around it, and the subtrees of the
/// items within the radius and beyond it. A leaf has no subtrees.
#[derive(Debug)]
pub struct VpNode {
    pub item: usize,
    pub radius: u64,
    pub near: Option<Box<VpNode>>,
    pub far: Option<Box<VpNode>>,
}

/// How many of `rest` lie within `r` of `v`.
pub open spec fn within_count(hashes: Seq<Seq<bool>>, v: int, rest: Seq<usize>, r: nat) -> nat
    decreases rest.len(),
{
    if rest.len() == 0 {
        0
    } else {
        within_count(hashes, v, rest.drop_last(), r) + if gap(hashes, v, rest.last() as int) <= r {
            1nat
        } else {
            0nat
        }
    }
}

/// Those of `rest` that lie within `r` of `v`, in their order.
pub open spec fn near_of(hashes: Seq<Seq<bool>>, v: int, rest: Seq<usize>, r: nat) -> Seq<usize>
    decreases rest.len(),
{
    if rest.len() == 0 {
        Seq::empty()
    } else if gap(hashes, v, rest.last() as int) <= r {
        near_of(hashes, v, rest.drop_last(), r).push(rest.last())
    } else {
        near_of(hashes, v, rest.drop_last(), r)
    }
}

/// Those of `rest` that lie beyond `r` of `v`, in their order.
pub open spec fn far_of(hashes: Seq<Seq<bool>>, v: int, rest: Seq<usize>, r: nat) -> Seq<usize>
    decreases rest.len(),
{
    if rest.len() == 0 {
        Seq::empty()
    } else if gap(hashes, v, rest.last() as int) > r {
        far_of(hashes, v, rest.drop_last(), r).push(rest.last())
    } else {
        far_of(hashes, v, rest.drop_last(), r)
    }
}

/// `r` is the lower median of the distances from `v` to `rest`: the distance
/// at position `(len - 1) / 2` when they are put in ascending order. With no
/// other item the radius is zero.
pub open spec fn is_median(hashes: Seq<Seq<bool>>, v: int, rest: Seq<usize>, r: nat) -> bool {
    if rest.len() == 0 {
        r == 0
    } else {
        &&& (rest.len() - 1) / 2 < within_count(hashes, v, rest, r)
        &&& r > 0 ==> within_count(hashes, v, rest, (r - 1) as nat) <= (rest.len() - 1) / 2
    }
}

/// `t` is the tree of the items `list`: empty for no item; else its vantage
/// is the first of them, its radius the median distance to the others, and
/// its subtrees are the trees of the others within and beyond the radius.
pub open spec fn built(t: Option<Box<VpNode>>, hashes: Seq<Seq<bool>>, list: Seq<usize>) -> bool
    decreases t,
{
    match t {
        None => list.len() == 0,
        Some(node) => {
            &&& list.len() > 0
            &&& node.item == list[0]
            &&& is_median(hashes, list[0] as int, list.skip(1), node.radius as nat)
            &&& built(
                node.near,
                hashes,
                near_of(hashes, list[0] as int, list.skip(1), node.radius as nat),
            )
            &&& built(
                node.far,
                hashes,
                far_of(hashes, list[0] as int, list.skip(1), node.radius as nat),
            )
        },
    }
}

/// The numbers `0`, `1`, up to `n - 1`.
pub open spec fn first_indices(n: nat) -> Seq<usize> {
    Seq::new(n, |i: int| i as usize)
}

/// Every entry of `list` is an index into a vector of `n` items.
pub open spec fn in_range(list: Seq<usize>, n: nat) -> bool {
    forall|i: int| 0 <= i < list.len() ==> (#[trigger] list[i]) < n
}

proof fn lemma_all_within(hashes: Seq<Seq<bool>>, v: int, rest: Seq<usize>, r: nat)
    requires
        forall|i: int| 0 <= i < rest.len() ==> gap(hashes, v, #[trigger] rest[i] as int) <= r,
    ensures
        within_count(hashes, v, rest, r) == rest.len(),
    decreases rest.len(),
{
    if rest.len() > 0 {
        assert forall|i: int| 0 <= i < rest.drop_last().len() implies gap(
            hashes,
            v,
            #[trigger] rest.drop_last()[i] as int,
        ) <= r by {
            assert(rest.drop_last()[i] == rest[i]);
        }
        lemma_all_within(hashes, v, rest.drop_last(), r);
        assert(rest.last() == rest[rest.len() - 1]);
    }
}

/// The distance between two items of `items`.
fn gap_between(items: &Vec<HashedImage>, a: usize, b: usize, Ghost(bits): Ghost<nat>) -> (d: u64)
    requires
        a < items@.len(),
        b < items@.len(),
        uniform(hashes_of(items@), bits),
    ensures
        d == gap(hashes_of(items@), a as int, b as int),
        d <= bits,
{
    proof {
        assert(hashes_of(items@)[a as int].len() == bits);
        assert(hashes_of(items@)[b as int].len() == bits);
        lemma_differing_bounded(items@[a as int].hash@, items@[b as int].hash@, bits);
    }
    match items[a].hash.distance(&items[b].hash) {
        Ok(d) => d,
        Err(_) => 0,
    }
}

/// Counts the distances in `dists` that are at most `r`.
fn count_within(
    dists: &Vec<u64>,
    r: u64,
    Ghost(hashes): Ghost<Seq<Seq<bool>>>,
    Ghost(v): Ghost<int>,
    Ghost(rest): Ghost<Seq<usize>>,
) -> (c: usize)
    requires
        dists@.len() == rest.len(),
        forall|i: int| 0 <= i < rest.len() ==> dists@[i] == gap(hashes, v, #[trigger] rest[i] as int),
    ensures
        c == within_count(hashes, v, rest, r as nat),
        c <= rest.len(),
{
    let mut c: usize = 0;
    let mut i: usize = 0;
    while i < dists.len()
        invariant
            i <= dists@.len(),
            dists@.len() == rest.len(),
            forall|j: int|
                0 <= j < rest.len() ==> dists@[j] == gap(hashes, v, #[trigger] rest[j] as int),
            c == within_count(hashes, v, rest.take(i as int), r as nat),
            c <= i,
        decreases dists@.len() - i,
    {
        proof {
            assert(rest.take(i + 1).drop_last() =~= rest.take(i as int));
            assert(rest.take(i + 1).last() == rest[i as int]);
        }
        if dists[i] <= r {
            c = c + 1;
        }
        i = i + 1;
    }
    proof {
        assert(rest.take(i as int) =~= rest);
    }
    c
}

/// Selects the lower median of `dists` without sorting them: a bisection on
/// the value, each step counting the distances that do not exceed it.
fn median_radius(
    dists: &Vec<u64>,
    max: u64,
    Ghost(hashes): Ghost<Seq<Seq<bool>>>,
    Ghost(v): Ghost<int>,
    Ghost(rest): Ghost<Seq<usize>>,
) -> (r: u64)
    requires
        dists@.len() == rest.len(),
        rest.len() > 0,
        forall|i: int| 0 <= i < rest.len() ==> dists@[i] == gap(hashes, v, #[trigger] rest[i] as int),
        forall|i: int| 0 <= i < rest.len() ==> gap(hashes, v, #[trigger] rest[i] as int) <= max,
    ensures
        is_median(hashes, v, rest, r as nat),
        r <= max,
{
    let k: usize = (dists.len() - 1) / 2;
    let mut lo: u64 = 0;
    let mut hi: u64 = max;
    proof {
        lemma_all_within(hashes, v, rest, max as nat);
    }
    while lo < hi
        invariant
            lo <= hi <= max,
            dists@.len() == rest.len(),
            rest.len() > 0,
            k == (rest.len() - 1) / 2,
            forall|i: int|
                0 <= i < rest.len() ==> dists@[i] == gap(hashes, v, #[trigger] rest[i] as int),
            k < within_count(hashes, v, rest, hi as nat),
            lo > 0 ==> within_count(hashes, v, rest, (lo - 1) as nat) <= k,
        decreases hi - lo,
    {
        let mid: u64 = lo + (hi - lo) / 2;
        let c: usize = count_within(dists, mid, Ghost(hashes), Ghost(v), Ghost(rest));
        if c > k {
            hi = mid;
        } else {
            lo = mid + 1;
        }
    }
    lo
}

/// Builds the tree of the items `list`.
fn build_node(items: &Vec<HashedImage>, list: Vec<usize>, Ghost(bits): Ghost<nat>) -> (t: Option<
    Box<VpNode>,
>)
    requires
        uniform(hashes_of(items@), bits),
        bits <= u64::MAX,
        in_range(list@, items@.len()),
    ensures
        built(t, hashes_of(items@), list@),
    decreases list@.len(),
{
    if list.len() == 0 {
        return None;
    }
    let v: usize = list[0];
    let ghost hashes = hashes_of(items@);
    let ghost rest = list@.skip(1);
    let m: usize = list.len() - 1;
    let mut dists: Vec<u64> = Vec::new();
    let mut i: usize = 0;
    let mut max: u64 = 0;
    while i < m
        invariant
            i <= m,
            m == list@.len() - 1,
            rest == list@.skip(1),
            hashes == hashes_of(items@),
            v < items@.len(),
            v == list@[0],
            uniform(hashes_of(items@), bits),
            bits <= u64::MAX,
            in_range(list@, items@.len()),
            dists@.len() == i,
            forall|j: int| 0 <= j < i ==> dists@[j] == gap(hashes, v as int, #[trigger] rest[j] as int),
            forall|j: int| 0 <= j < i ==> dists@[j] <= max,
            max <= bits,
        decreases m - i,
    {
        let d: u64 = gap_between(items, v, list[i + 1], Ghost(bits));
        if d > max {
            max = d;
        }
        dists.push(d);
        i = i + 1;
    }
    let radius: u64 = if m == 0 {
        0
    } else {
        median_radius(&dists, max, Ghost(hashes), Ghost(v as int), Ghost(rest))
    };
    let mut near: Vec<usize> = Vec::new();
    let mut far: Vec<usize> = Vec::new();
    let mut i: usize = 0;
    while i < m
        invariant
            i <= m,
            m == list@.len() - 1,
            m == rest.len(),
            rest == list@.skip(1),
            dists@.len() == m,
            in_range(list@, items@.len()),
            forall|j: int| 0 <= j < m ==> dists@[j] == gap(hashes, v as int, #[trigger] rest[j] as int),
            near@ == near_of(hashes, v as int, rest.take(i as int), radius as nat),
            far@ == far_of(hashes, v as int, rest.take(i as int), radius as nat),
            near@.len() <= i,
            far@.len() <= i,
            in_range(near@, items@.len()),
            in_range(far@, items@.len()),
        decreases m - i,
    {
        proof {
            assert(rest.take(i + 1).drop_last() =~= rest.take(i as int));
            assert(rest.take(i + 1).last() == rest[i as int]);
        }
        let x: usize = list[i + 1];
        if dists[i] <= radius {
            near.push(x);
        } else {
            far.push(x);
        }
        i = i + 1;
    }
    proof {
        assert(rest.take(m as int) =~= rest);
    }
    let near_tree = build_node(items, near, Ghost(bits));
    let far_tree = build_node(items, far, Ghost(bits));
    Some(Box::new(VpNode { item: v, radius, near: near_tree, far: far_tree }))
}

/// One answer to a query: an item, by its position in the tree's items, and
/// its distance from the query.
#[derive(Debug, Clone, Copy, PartialEq, Eq)]
pub struct Neighbor {
    pub index: usize,
    pub dist: u64,
}

/// `a` comes before the item `index` at distance `dist`: it is nearer, or as
/// near and earlier among the items.
pub open spec fn before(a: Neighbor, dist: nat, index: usize) -> bool {
    a.dist < dist || (a.dist == dist && a.index < index)
}

/// Each entry comes before all later ones.
pub open spec fn ascending(best: Seq<Neighbor>) -> bool {
    forall|i: int, j: int|
        0 <= i < j < best.len() ==> before(#[trigger] best[i], (#[trigger] best[j]).dist as nat, best[j].index)
}

/// Every entry comes before the item `index` at distance `dist`.
pub open spec fn all_before(best: Seq<Neighbor>, dist: nat, index: usize) -> bool {
    forall|i: int| 0 <= i < best.len() ==> before(#[trigger] best[i], dist, index)
}

/// Some entry is the item `index`.
pub open spec fn lists(best: Seq<Neighbor>, index: usize) -> bool {
    exists|i: int| 0 <= i < best.len() && (#[trigger] best[i]).index == index
}

fn comes_before(a: Neighbor, b: Neighbor) -> (r: bool)
    ensures
        r == before(a, b.dist as nat, b.index),
{
    a.dist < b.dist || (a.dist == b.dist && a.index < b.index)
}

/// What an offer of `cand` makes of the entries `was`: the entries `now`
/// are in ascending order and at most `k`; they are `cand` and entries of
/// `was`; and whichever of those is missing comes after all `k` of them.
pub open spec fn offered(was: Seq<Neighbor>, now: Seq<Neighbor>, cand: Neighbor, k: nat) -> bool {
    &&& ascending(now)
    &&& now.len() <= k
    &&& was.len() <= now.len()
    &&& forall|i: int| 0 <= i < now.len() ==> (#[trigger] now[i]) == cand || was.contains(now[i])
    &&& forall|e: Neighbor|
        #![trigger was.contains(e)]
        #![trigger now.contains(e)]
        (e == cand || was.contains(e)) ==> now.contains(e) || (now.len() == k && all_before(
            now,
            e.dist as nat,
            e.index,
        ))
    &&& was.len() == k && now.contains(cand) && !was.contains(cand) ==> before(
        cand,
        was[k - 1].dist as nat,
        was[k - 1].index,
    )
}

/// Puts `cand` into `best`, which is kept in ascending order and holds at
/// most `k` entries: the last entry leaves when there are more.
fn offer(best: &mut Vec<Neighbor>, cand: Neighbor, k: usize)
    requires
        ascending(old(best)@),
        old(best)@.len() <= k,
        k > 0,
    ensures
        offered(old(best)@, final(best)@, cand, k as nat),
{
    let ghost start = best@;
    let n: usize = best.len();
    if n == k {
        let worst: Neighbor = best[n - 1];
        if !comes_before(cand, worst) {
            proof {
                assert forall|e: Neighbor|
                    #![trigger start.contains(e)]
                    (e == cand || start.contains(e)) implies start.contains(e) || (start.len() == k
                    && all_before(start, e.dist as nat, e.index)) by {
                    if !start.contains(e) {
                        assert(e == cand);
                        assert(cand != worst);
                        assert forall|i: int| 0 <= i < start.len() implies before(
                            #[trigger] start[i],
                            e.dist as nat,
                            e.index,
                        ) by {
                            if i < n - 1 {
                                assert(before(start[i], start[n - 1].dist as nat, start[n - 1].index));
                            }
                        }
                    }
                }
            }
            return ;
        }
    }
    let mut pos: usize = 0;
    let mut scanning: bool = true;
    while scanning && pos < n
        invariant
            pos <= n,
            n == best@.len(),
            best@ == start,
            forall|i: int| 0 <= i < pos ==> before(#[trigger] start[i], cand.dist as nat, cand.index),
            !scanning ==> pos < n && !before(start[pos as int], cand.dist as nat, cand.index),
        decreases (n - pos) + (if scanning { 1int } else { 0int }),
    {
        if comes_before(best[pos], cand) {
            pos = pos + 1;
        } else {
            scanning = false;
        }
    }
    if pos < n && best[pos].index == cand.index && best[pos].dist == cand.dist {
        proof {
            assert(start[pos as int] == cand);
        }
        return ;
    }
    best.insert(pos, cand);
    proof {
        start.insert_ensures(pos as int, cand);
    }
    let ghost grown = best@;
    proof {
        assert(grown.len() == n + 1);
        assert(grown[pos as int] == cand);
        assert forall|i: int| 0 <= i < pos implies grown[i] == start[i] by {}
        assert forall|i: int| pos < i <= n implies grown[i] == start[i - 1] by {}
        assert(ascending(grown)) by {
            assert forall|i: int, j: int| 0 <= i < j < grown.len() implies before(
                #[trigger] grown[i],
                (#[trigger] grown[j]).dist as nat,
                grown[j].index,
            ) by {
                if j < pos {
                    assert(before(start[i], start[j].dist as nat, start[j].index));
                } else if j == pos {
                } else if i == pos {
                    if j - 1 > pos {
                        assert(before(start[pos as int], start[j - 1].dist as nat, start[j - 1].index));
                    }
                } else if i < pos {
                    if j - 1 > pos {
                        assert(before(start[pos as int], start[j - 1].dist as nat, start[j - 1].index));
                    }
                } else {
                    assert(before(start[i - 1], start[j - 1].dist as nat, start[j - 1].index));
                }
            }
        }
    }
    if best.len() > k {
        best.pop();
        proof {
            assert(n == k);
            assert(pos < n);
            assert(best@ =~= grown.drop_last());
        }
    }
    proof {
        let done = best@;
        assert forall|i: int| 0 <= i < done.len() implies (#[trigger] done[i]) == cand || start.contains(
            done[i],
        ) by {
            assert(done[i] == grown[i]);
            if i < pos {
                assert(start[i] == done[i]);
            } else if i > pos {
                assert(start[i - 1] == done[i]);
            }
        }
        assert(done[pos as int] == cand);
        assert forall|e: Neighbor|
            #![trigger start.contains(e)]
            #![trigger done.contains(e)]
            (e == cand || start.contains(e)) implies done.contains(e) || (done.len() == k
            && all_before(done, e.dist as nat, e.index)) by {
            if e == cand {
                assert(done[pos as int] == e);
            } else {
                let m = choose|m: int| 0 <= m < start.len() && start[m] == e;
                if m < pos {
                    assert(done[m] == e);
                } else if m + 1 < done.len() {
                    assert(done[m + 1] == e);
                } else {
                    assert(m == n - 1 && n == k);
                    assert forall|i: int| 0 <= i < done.len() implies before(
                        #[trigger] done[i],
                        e.dist as nat,
                        e.index,
                    ) by {
                        assert(before(grown[i], grown[n as int].dist as nat, grown[n as int].index));
                    }
                }
            }
        }
    }
}

/// The distance from the query `q` to item `j`.
pub open spec fn qdist(q: Seq<bool>, hashes: Seq<Seq<bool>>, j: int) -> nat {
    hamming(q, hashes[j])
}

/// Item `j` is one the query asks for: an item of the tree, not the one to
/// leave out, and within `radius` of the query.
pub open spec fn wanted(
    j: usize,
    q: Seq<bool>,
    hashes: Seq<Seq<bool>>,
    radius: nat,
    skip: Option<usize>,
) -> bool {
    &&& j < hashes.len()
    &&& skip != Some(j)
    &&& qdist(q, hashes, j as int) <= radius
}

/// Every entry names an item the query asks for, with its true distance.
pub open spec fn entries_true(
    best: Seq<Neighbor>,
    q: Seq<bool>,
    hashes: Seq<Seq<bool>>,
    radius: nat,
    skip: Option<usize>,
) -> bool {
    forall|i: int|
        0 <= i < best.len() ==> wanted((#[trigger] best[i]).index, q, hashes, radius, skip)
            && best[i].dist == qdist(q, hashes, best[i].index as int)
}

/// Of the items in `seen` that the query asks for, each is an entry, or the
/// entries are `k` and all come before it.
pub open spec fn covers(
    best: Seq<Neighbor>,
    seen: Set<usize>,
    k: nat,
    q: Seq<bool>,
    hashes: Seq<Seq<bool>>,
    radius: nat,
    skip: Option<usize>,
) -> bool {
    forall|j: usize|
        #![trigger seen.contains(j)]
        seen.contains(j) && wanted(j, q, hashes, radius, skip) ==> lists(best, j) || (best.len()
            == k && all_before(best, qdist(q, hashes, j as int), j))
}

/// `best` holds the first `k` of the items in `seen` that the query asks
/// for, nearest first and, at equal distance, in the order of the items.
pub open spec fn chosen(
    best: Seq<Neighbor>,
    seen: Set<usize>,
    k: nat,
    q: Seq<bool>,
    hashes: Seq<Seq<bool>>,
    radius: nat,
    skip: Option<usize>,
) -> bool {
    &&& ascending(best)
    &&& best.len() <= k
    &&& entries_true(best, q, hashes, radius, skip)
    &&& covers(best, seen, k, q, hashes, radius, skip)
}

/// `best` answers the query over the whole tree: it holds the first `k` of
/// the items within `radius` of `q`, leaving out `skip`, nearest first and,
/// at equal distance, in the order of the items.
pub open spec fn selected(
    best: Seq<Neighbor>,
    k: nat,
    q: Seq<bool>,
    hashes: Seq<Seq<bool>>,
    radius: nat,
    skip: Option<usize>,
) -> bool {
    chosen(best, Set::new(|j: usize| j < hashes.len()), k, q, hashes, radius, skip)
}

proof fn lemma_parts(hashes: Seq<Seq<bool>>, v: int, rest: Seq<usize>, r: nat)
    ensures
        forall|x: usize| #[trigger]
            near_of(hashes, v, rest, r).contains(x) ==> rest.contains(x) && gap(hashes, v, x as int)
                <= r,
        forall|x: usize| #[trigger]
            far_of(hashes, v, rest, r).contains(x) ==> rest.contains(x) && gap(hashes, v, x as int)
                > r,
        forall|x: usize| #[trigger]
            rest.contains(x) ==> near_of(hashes, v, rest, r).contains(x) || far_of(
                hashes,
                v,
                rest,
                r,
            ).contains(x),
    decreases rest.len(),
{
    if rest.len() > 0 {
        let init = rest.drop_last();
        let last = rest.last();
        lemma_parts(hashes, v, init, r);
        let near = near_of(hashes, v, rest, r);
        let far = far_of(hashes, v, rest, r);
        let near0 = near_of(hashes, v, init, r);
        let far0 = far_of(hashes, v, init, r);
        assert forall|x: usize| #[trigger] near.contains(x) implies rest.contains(x) && gap(
            hashes,
            v,
            x as int,
        ) <= r by {
            let i = choose|i: int| 0 <= i < near.len() && near[i] == x;
            if gap(hashes, v, last as int) <= r && i == near.len() - 1 {
                assert(rest[rest.len() - 1] == x);
            } else {
                assert(near0[i] == x);
                assert(near0.contains(x));
                let m = choose|m: int| 0 <= m < init.len() && init[m] == x;
                assert(rest[m] == x);
            }
        }
        assert forall|x: usize| #[trigger] far.contains(x) implies rest.contains(x) && gap(
            hashes,
            v,
            x as int,
        ) > r by {
            let i = choose|i: int| 0 <= i < far.len() && far[i] == x;
            if gap(hashes, v, last as int) > r && i == far.len() - 1 {
                assert(rest[rest.len() - 1] == x);
            } else {
                assert(far0[i] == x);
                assert(far0.contains(x));
                let m = choose|m: int| 0 <= m < init.len() && init[m] == x;
                assert(rest[m] == x);
            }
        }
        assert forall|x: usize| #[trigger] rest.contains(x) implies near.contains(x) || far.contains(
            x,
        ) by {
            let m = choose|m: int| 0 <= m < rest.len() && rest[m] == x;
            if m == rest.len() - 1 {
                if gap(hashes, v, last as int) <= r {
                    assert(near[near.len() - 1] == x);
                } else {
                    assert(far[far.len() - 1] == x);
                }
            } else {
                assert(init[m] == x);
                assert(init.contains(x));
                if near0.contains(x) {
                    let i = choose|i: int| 0 <= i < near0.len() && near0[i] == x;
                    assert(near[i] == x);
                } else {
                    assert(far0.contains(x));
                    let i = choose|i: int| 0 <= i < far0.len() && far0[i] == x;
                    assert(far[i] == x);
                }
            }
        }
    }
}

proof fn lemma_parts_in_range(hashes: Seq<Seq<bool>>, v: int, rest: Seq<usize>, r: nat, n: nat)
    requires
        in_range(rest, n),
    ensures
        in_range(near_of(hashes, v, rest, r), n),
        in_range(far_of(hashes, v, rest, r), n),
{
    lemma_parts(hashes, v, rest, r);
    let near = near_of(hashes, v, rest, r);
    let far = far_of(hashes, v, rest, r);
    assert forall|i: int| 0 <= i < near.len() implies (#[trigger] near[i]) < n by {
        assert(near.contains(near[i]));
        let m = choose|m: int| 0 <= m < rest.len() && rest[m] == near[i];
    }
    assert forall|i: int| 0 <= i < far.len() implies (#[trigger] far[i]) < n by {
        assert(far.contains(far[i]));
        let m = choose|m: int| 0 <= m < rest.len() && rest[m] == far[i];
    }
}

/// After an offer of a wanted item, the entries are the choice among what
/// was seen before and that item.
proof fn lemma_offer_keeps(
    was: Seq<Neighbor>,
    now: Seq<Neighbor>,
    cand: Neighbor,
    seen: Set<usize>,
    k: nat,
    q: Seq<bool>,
    hashes: Seq<Seq<bool>>,
    radius: nat,
    skip: Option<usize>,
)
    requires
        chosen(was, seen, k, q, hashes, radius, skip),
        wanted(cand.index, q, hashes, radius, skip),
        cand.dist == qdist(q, hashes, cand.index as int),
        offered(was, now, cand, k),
    ensures
        chosen(now, seen.insert(cand.index), k, q, hashes, radius, skip),
{
    assert forall|i: int| 0 <= i < now.len() implies wanted(
        (#[trigger] now[i]).index,
        q,
        hashes,
        radius,
        skip,
    ) && now[i].dist == qdist(q, hashes, now[i].index as int) by {
        if now[i] != cand {
            let m = choose|m: int| 0 <= m < was.len() && was[m] == now[i];
        }
    }
    assert forall|j: usize|
        #![trigger seen.insert(cand.index).contains(j)]
        seen.insert(cand.index).contains(j) && wanted(j, q, hashes, radius, skip) implies lists(
        now,
        j,
    ) || (now.len() == k && all_before(now, qdist(q, hashes, j as int), j)) by {
        let dj = qdist(q, hashes, j as int);
        if j == cand.index {
            assert(now.contains(cand) || (now.len() == k && all_before(now, dj, j)));
            if now.contains(cand) {
                let m = choose|m: int| 0 <= m < now.len() && now[m] == cand;
                assert(now[m].index == j);
            }
        } else {
            assert(seen.contains(j));
            if lists(was, j) {
                let i = choose|i: int| 0 <= i < was.len() && (#[trigger] was[i]).index == j;
                let e = was[i];
                assert(was.contains(e));
                if now.contains(e) {
                    let m = choose|m: int| 0 <= m < now.len() && now[m] == e;
                    assert(now[m].index == j);
                }
            } else {
                assert(was.len() == k && all_before(was, dj, j));
                assert forall|i: int| 0 <= i < now.len() implies before(#[trigger] now[i], dj, j) by {
                    if was.contains(now[i]) {
                        let m = choose|m: int| 0 <= m < was.len() && was[m] == now[i];
                        assert(before(was[m], dj, j));
                    } else {
                        assert(now[i] == cand);
                        assert(now.contains(cand));
                        assert(before(was[k - 1], dj, j));
                    }
                }
            }
        }
    }
}

/// Items that the entries already beat, or that the query does not ask
/// for, can be counted as seen without a look at them.
proof fn lemma_pass_over(
    best: Seq<Neighbor>,
    seen: Set<usize>,
    part: Seq<usize>,
    k: nat,
    q: Seq<bool>,
    hashes: Seq<Seq<bool>>,
    radius: nat,
    skip: Option<usize>,
)
    requires
        chosen(best, seen, k, q, hashes, radius, skip),
        forall|x: usize| #[trigger]
            part.contains(x) && wanted(x, q, hashes, radius, skip) ==> best.len() == k
                && all_before(best, qdist(q, hashes, x as int), x),
    ensures
        chosen(best, seen.union(part.to_set()), k, q, hashes, radius, skip),
{
    assert forall|j: usize|
        #![trigger seen.union(part.to_set()).contains(j)]
        seen.union(part.to_set()).contains(j) && wanted(j, q, hashes, radius, skip) implies lists(
        best,
        j,
    ) || (best.len() == k && all_before(best, qdist(q, hashes, j as int), j)) by {
        if !seen.contains(j) {
            assert(part.contains(j));
        }
    }
}

/// The distance from `query` to item `j`.
fn query_gap(items: &Vec<HashedImage>, query: &BitHash, j: usize, Ghost(bits): Ghost<nat>) -> (d:
    u64)
    requires
        j < items@.len(),
        uniform(hashes_of(items@), bits),
        query@.len() == bits,
    ensures
        d == qdist(query@, hashes_of(items@), j as int),
        d <= bits,
{
    proof {
        assert(hashes_of(items@)[j as int].len() == bits);
        lemma_differing_bounded(query@, items@[j as int].hash@, bits);
    }
    match query.distance(&items[j].hash) {
        Ok(d) => d,
        Err(_) => 0,
    }
}

/// Items within `mu` of the vantage are at least `d - mu` from a query at
/// distance `d` from the vantage; items beyond `mu` are more than `mu - d`
/// from it.
proof fn lemma_bounds(q: Seq<bool>, hashes: Seq<Seq<bool>>, v: int, x: int, bits: nat)
    requires
        0 <= v < hashes.len(),
        0 <= x < hashes.len(),
        uniform(hashes, bits),
        q.len() == bits,
    ensures
        qdist(q, hashes, v) <= qdist(q, hashes, x) + gap(hashes, v, x),
        gap(hashes, v, x) <= qdist(q, hashes, v) + qdist(q, hashes, x),
{
    assert(hashes[v].len() == bits);
    assert(hashes[x].len() == bits);
    lemma_hamming_triangle(q, hashes[x], hashes[v], bits);
    lemma_hamming_symmetric(hashes[x], hashes[v], bits);
    lemma_hamming_triangle(hashes[v], q, hashes[x], bits);
    lemma_hamming_symmetric(hashes[v], q, bits);
}

/// Looks at the items of the subtree `node`, the side of the query first,
/// and passes over the other side when no item on it can enter the answer.
/// The bound is the radius of the query, and the distance of the last entry
/// once the entries are `k`. With the query within the node's radius, the
/// far side is passed over when the query is at least the bound away from
/// the edge; with the query beyond it, the near side is passed over when
/// the query is more than the bound away from the edge, since an item as
/// far as the last entry may still come before it in the order of the
/// items.
fn visit(
    node: &Option<Box<VpNode>>,
    items: &Vec<HashedImage>,
    query: &BitHash,
    k: usize,
    radius: u64,
    skip: Option<usize>,
    best: &mut Vec<Neighbor>,
    Ghost(list): Ghost<Seq<usize>>,
    Ghost(seen): Ghost<Set<usize>>,
    Ghost(bits): Ghost<nat>,
)
    requires
        built(*node, hashes_of(items@), list),
        in_range(list, items@.len()),
        uniform(hashes_of(items@), bits),
        query@.len() == bits,
        k > 0,
        chosen(old(best)@, seen, k as nat, query@, hashes_of(items@), radius as nat, skip),
    ensures
        chosen(
            final(best)@,
            seen.union(list.to_set()),
            k as nat,
            query@,
            hashes_of(items@),
            radius as nat,
            skip,
        ),
    decreases *node,
{
    let ghost hashes = hashes_of(items@);
    let ghost q = query@;
    match node {
        None => {
            proof {
                assert(seen.union(list.to_set()) =~= seen);
            }
        },
        Some(nd) => {
            let v: usize = nd.item;
            let mu: u64 = nd.radius;
            let ghost rest = list.skip(1);
            let ghost near_list = near_of(hashes, v as int, rest, mu as nat);
            let ghost far_list = far_of(hashes, v as int, rest, mu as nat);
            proof {
                assert(list[0] == v);
                assert forall|i: int| 0 <= i < rest.len() implies (#[trigger] rest[i]) < items@.len() by {
                    assert(rest[i] == list[i + 1]);
                }
                lemma_parts(hashes, v as int, rest, mu as nat);
                lemma_parts_in_range(hashes, v as int, rest, mu as nat, items@.len());
            }
            let d: u64 = query_gap(items, query, v, Ghost(bits));
            let left_out: bool = match skip {
                Some(s) => s == v,
                None => false,
            };
            let ghost seen1 = seen.insert(v);
            if d <= radius && !left_out {
                let ghost was = best@;
                let cand = Neighbor { index: v, dist: d };
                offer(best, cand, k);
                proof {
                    lemma_offer_keeps(
                        was,
                        best@,
                        cand,
                        seen,
                        k as nat,
                        q,
                        hashes,
                        radius as nat,
                        skip,
                    );
                }
            } else {
                proof {
                    assert(!wanted(v, q, hashes, radius as nat, skip));
                }
            }
            assert(chosen(best@, seen1, k as nat, q, hashes, radius as nat, skip));
            let ghost seen2;
            if d <= mu {
                visit(
                    &nd.near,
                    items,
                    query,
                    k,
                    radius,
                    skip,
                    best,
                    Ghost(near_list),
                    Ghost(seen1),
                    Ghost(bits),
                );
                proof {
                    seen2 = seen1.union(near_list.to_set());
                }
                let margin: u64 = mu - d;
                let full: bool = best.len() == k;
                let pass: bool = margin >= radius || (full && margin >= best[k - 1].dist);
                if pass {
                    proof {
                        assert forall|x: usize| #[trigger]
                            far_list.contains(x) && wanted(
                                x,
                                q,
                                hashes,
                                radius as nat,
                                skip,
                            ) implies best@.len() == k && all_before(
                            best@,
                            qdist(q, hashes, x as int),
                            x,
                        ) by {
                            lemma_bounds(q, hashes, v as int, x as int, bits);
                            let dx = qdist(q, hashes, x as int);
                            assert(dx > margin);
                            assert forall|i: int| 0 <= i < best@.len() implies before(
                                #[trigger] best@[i],
                                dx,
                                x,
                            ) by {
                                if i < k - 1 {
                                    assert(before(
                                        best@[i],
                                        best@[k - 1].dist as nat,
                                        best@[k - 1].index,
                                    ));
                                }
                            }
                        }
                        lemma_pass_over(
                            best@,
                            seen2,
                            far_list,
                            k as nat,
                            q,
                            hashes,
                            radius as nat,
                            skip,
                        );
                    }
                } else {
                    visit(
                        &nd.far,
                        items,
                        query,
                        k,
                        radius,
                        skip,
                        best,
                        Ghost(far_list),
                        Ghost(seen2),
                        Ghost(bits),
                    );
                }
            } else {
                visit(
                    &nd.far,
                    items,
                    query,
                    k,
                    radius,
                    skip,
                    best,
                    Ghost(far_list),
                    Ghost(seen1),
                    Ghost(bits),
                );
                proof {
                    seen2 = seen1.union(far_list.to_set());
                }
                let margin: u64 = d - mu;
                let full: bool = best.len() == k;
                let pass: bool = margin > radius || (full && margin > best[k - 1].dist);
                if pass {
                    proof {
                        assert forall|x: usize| #[trigger]
                            near_list.contains(x) && wanted(
                                x,
                                q,
                                hashes,
                                radius as nat,
                                skip,
                            ) implies best@.len() == k && all_before(
                            best@,
                            qdist(q, hashes, x as int),
                            x,
                        ) by {
                            lemma_bounds(q, hashes, v as int, x as int, bits);
                            let dx = qdist(q, hashes, x as int);
                            assert(dx >= margin);
                            assert forall|i: int| 0 <= i < best@.len() implies before(
                                #[trigger] best@[i],
                                dx,
                                x,
                            ) by {
                                if i < k - 1 {
                                    assert(before(
                                        best@[i],
                                        best@[k - 1].dist as nat,
                                        best@[k - 1].index,
                                    ));
                                }
                            }
                        }
                        lemma_pass_over(
                            best@,
                            seen2,
                            near_list,
                            k as nat,
                            q,
                            hashes,
                            radius as nat,
                            skip,
                        );
                    }
                } else {
                    visit(
                        &nd.near,
                        items,
                        query,
                        k,
                        radius,
                        skip,
                        best,
                        Ghost(near_list),
                        Ghost(seen2),
                        Ghost(bits),
                    );
                }
            }
            proof {
                let all = seen.union(list.to_set());
                let done = seen1.union(near_list.to_set()).union(far_list.to_set());
                let done_other = seen1.union(far_list.to_set()).union(near_list.to_set());
                assert(done =~= done_other);
                assert(chosen(best@, done, k as nat, q, hashes, radius as nat, skip));
                assert forall|j: usize|
                    #![trigger all.contains(j)]
                    all.contains(j) && wanted(j, q, hashes, radius as nat, skip) implies lists(
                    best@,
                    j,
                ) || (best@.len() == k && all_before(best@, qdist(q, hashes, j as int), j)) by {
                    if !seen.contains(j) {
                        assert(list.contains(j));
                        let m = choose|m: int| 0 <= m < list.len() && list[m] == j;
                        if m > 0 {
                            assert(rest[m - 1] == j);
                            assert(rest.contains(j));
                        }
                    }
                    assert(done.contains(j));
                }
            }
        },
    }
}

/// The items of `best`, as numbers.
pub open spec fn indices(best: Seq<Neighbor>) -> Seq<int> {
    Seq::new(best.len(), |i: int| best[i].index as int)
}

/// The positions an answer can name: those of the `n` items, without the
/// one left out.
pub open spec fn eligible(n: nat, skip: Option<usize>) -> Set<int> {
    Set::new(|j: int| 0 <= j < n && skip != Some(j as usize))
}

/// How many positions an answer can name.
pub open spec fn eligible_count(n: nat, skip: Option<usize>) -> nat {
    if skip is Some && skip->0 < n {
        (n - 1) as nat
    } else {
        n
    }
}

proof fn lemma_eligible(n: nat, skip: Option<usize>)
    requires
        n <= usize::MAX,
    ensures
        eligible(n, skip).finite(),
        eligible(n, skip).len() == eligible_count(n, skip),
{
    lemma_int_range(0, n as int);
    if skip is Some && skip->0 < n {
        assert(eligible(n, skip) =~= set_int_range(0, n as int).remove(skip->0 as int));
    } else {
        assert(eligible(n, skip) =~= set_int_range(0, n as int));
    }
}

/// True entries in ascending order name different items, all eligible.
pub proof fn lemma_entries_distinct(
    best: Seq<Neighbor>,
    q: Seq<bool>,
    hashes: Seq<Seq<bool>>,
    radius: nat,
    skip: Option<usize>,
)
    requires
        ascending(best),
        entries_true(best, q, hashes, radius, skip),
        hashes.len() <= usize::MAX,
    ensures
        indices(best).no_duplicates(),
        indices(best).to_set().subset_of(eligible(hashes.len(), skip)),
        indices(best).to_set().finite(),
        indices(best).to_set().len() == best.len(),
        best.len() <= eligible_count(hashes.len(), skip),
{
    let idx = indices(best);
    assert forall|i: int, j: int| 0 <= i < idx.len() && 0 <= j < idx.len() && i != j implies idx[i]
        != idx[j] by {
        if i < j {
            assert(before(best[i], best[j].dist as nat, best[j].index));
        } else {
            assert(before(best[j], best[i].dist as nat, best[i].index));
        }
    }
    idx.unique_seq_to_set();
    lemma_eligible(hashes.len(), skip);
    assert forall|x: int| idx.to_set().contains(x) implies eligible(hashes.len(), skip).contains(
        x,
    ) by {
        let i = choose|i: int| 0 <= i < idx.len() && idx[i] == x;
        assert(wanted(best[i].index, q, hashes, radius, skip));
    }
    lemma_len_subset(idx.to_set(), eligible(hashes.len(), skip));
}

/// An answer with room for every item lists every item that is asked for.
pub proof fn lemma_selected_all(
    best: Seq<Neighbor>,
    q: Seq<bool>,
    hashes: Seq<Seq<bool>>,
    radius: nat,
    skip: Option<usize>,
)
    requires
        selected(best, hashes.len(), q, hashes, radius, skip),
        hashes.len() <= usize::MAX,
    ensures
        forall|j: usize| wanted(j, q, hashes, radius, skip) ==> lists(best, j),
{
    let n = hashes.len();
    let idx = indices(best);
    lemma_entries_distinct(best, q, hashes, radius, skip);
    lemma_eligible(n, skip);
    lemma_int_range(0, n as int);
    assert forall|j: usize| wanted(j, q, hashes, radius, skip) implies lists(best, j) by {
        assert(Set::new(|x: usize| x < hashes.len()).contains(j));
        if !lists(best, j) {
            assert(best.len() == n);
            assert(eligible(n, skip).subset_of(set_int_range(0, n as int)));
            lemma_len_subset(eligible(n, skip), set_int_range(0, n as int));
            lemma_subset_equality(idx.to_set(), eligible(n, skip));
            assert(eligible(n, skip).contains(j as int));
            assert(idx.to_set().contains(j as int));
            let i = choose|i: int| 0 <= i < idx.len() && idx[i] == j as int;
            assert(best[i].index == j);
        }
    }
}

/// When every item is within the radius, an answer holds `k` entries, or
/// all the eligible items where they are fewer.
pub proof fn lemma_selected_len(
    best: Seq<Neighbor>,
    k: nat,
    q: Seq<bool>,
    hashes: Seq<Seq<bool>>,
    radius: nat,
    skip: Option<usize>,
)
    requires
        selected(best, k, q, hashes, radius, skip),
        hashes.len() <= usize::MAX,
        forall|j: int| 0 <= j < hashes.len() ==> qdist(q, hashes, j) <= radius,
    ensures
        best.len() == if k <= eligible_count(hashes.len(), skip) {
            k
        } else {
            eligible_count(hashes.len(), skip)
        },
{
    let n = hashes.len();
    let idx = indices(best);
    lemma_entries_distinct(best, q, hashes, radius, skip);
    lemma_eligible(n, skip);
    if best.len() < k {
        assert forall|x: int| eligible(n, skip).contains(x) implies idx.to_set().contains(x) by {
            let j = x as usize;
            assert(Set::new(|y: usize| y < hashes.len()).contains(j));
            assert(wanted(j, q, hashes, radius, skip));
            assert(lists(best, j));
            let i = choose|i: int| 0 <= i < best.len() && (#[trigger] best[i]).index == j;
            assert(idx[i] == x);
        }
        assert(idx.to_set() =~= eligible(n, skip));
    }
}

/// A vantage-point tree over a collection of hashed images whose hashes all
/// have one size. Once built it does not change.
#[derive(Debug)]
pub struct VpTree {
    items: Vec<HashedImage>,
    root: Option<Box<VpNode>>,
    bits: usize,
}

impl View for VpTree {
    type V = Seq<HashedImage>;

    closed spec fn view(&self) -> Seq<HashedImage> {
        self.items@
    }
}

/// The query cannot be compared with the items: there are items, and their
/// hashes have another size than the query.
pub open spec fn mismatched(items: Seq<HashedImage>, q: Seq<bool>) -> bool {
    items.len() > 0 && items[0].hash@.len() != q.len()
}

impl VpTree {
    /// The root node.
    pub closed spec fn spec_root(&self) -> Option<Box<VpNode>> {
        self.root
    }

    #[verifier::type_invariant]
    pub closed spec fn wf(&self) -> bool {
        &&& uniform(hashes_of(self.items@), self.bits as nat)
        &&& built(self.root, hashes_of(self.items@), first_indices(self.items@.len()))
    }

    /// A well-formed tree is the tree of all its items in their order, and
    /// their hashes have one size.
    pub proof fn lemma_wf(&self)
        requires
            self.wf(),
        ensures
            built(self.spec_root(), hashes_of(self@), first_indices(self@.len())),
            exists|bits: nat| uniform(hashes_of(self@), bits),
    {
        assert(uniform(hashes_of(self@), self.bits as nat));
    }

    /// A tree holds no more items than a vector can.
    pub proof fn lemma_len(&self)
        requires
            self.wf(),
        ensures
            self@.len() <= usize::MAX,
    {
        assert(self.items@.len() == self.items.len());
    }

    /// Builds the tree of `items`. All hashes must have one size; the items
    /// keep their order, which is the order that breaks ties in answers.
    pub fn build(items: Vec<HashedImage>) -> (r: Result<VpTree, ErrorKind>)
        ensures
            r is Ok <==> exists|bits: nat| uniform(hashes_of(items@), bits),
            r is Ok ==> r->Ok_0@ == items@ && r->Ok_0.wf(),
            r is Err ==> r->Err_0 == ErrorKind::DimensionMismatch,
    {
        let n: usize = items.len();
        let bits: usize = if n == 0 {
            0
        } else {
            items[0].hash.size()
        };
        let mut list: Vec<usize> = Vec::new();
        let mut i: usize = 0;
        while i < n
            invariant
                i <= n,
                n == items@.len(),
                n > 0 ==> bits == items@[0].hash@.len(),
                list@ == first_indices(i as nat),
                forall|j: int| 0 <= j < i ==> (#[trigger] hashes_of(items@)[j]).len() == bits,
            decreases n - i,
        {
            if items[i].hash.size() != bits {
                proof {
                    assert forall|b: nat| !uniform(hashes_of(items@), b) by {
                        if uniform(hashes_of(items@), b) {
                            assert(hashes_of(items@)[0].len() == b);
                            assert(hashes_of(items@)[i as int].len() == b);
                        }
                    }
                }
                return Err(ErrorKind::DimensionMismatch);
            }
            list.push(i);
            proof {
                assert(list@ =~= first_indices((i + 1) as nat));
            }
            i = i + 1;
        }
        proof {
            assert(uniform(hashes_of(items@), bits as nat));
        }
        let root = build_node(&items, list, Ghost(bits as nat));
        Ok(VpTree { items, root, bits })
    }

    /// The number of items.
    pub fn len(&self) -> (n: usize)
        ensures
            n == self@.len(),
    {
        self.items.len()
    }

    /// Whether the tree holds no item.
    pub fn is_empty(&self) -> (empty: bool)
        ensures
            empty == (self@.len() == 0),
    {
        self.items.len() == 0
    }

    /// The root node; none in an empty tree.
    pub fn root(&self) -> (root: &Option<Box<VpNode>>)
        ensures
            *root == self.spec_root(),
    {
        &self.root
    }

    /// The items, in the order in which they were given.
    pub fn items(&self) -> (items: &Vec<HashedImage>)
        ensures
            items@ == self@,
    {
        &self.items
    }

    /// Takes the tree apart and returns its items in their order.
    pub fn into_items(self) -> (items: Vec<HashedImage>)
        ensures
            items@ == self@,
    {
        self.items
    }

    /// The first `k` items within `radius` of `query`, `skip` left out.
    fn search(&self, query: &BitHash, k: usize, radius: u64, skip: Option<usize>) -> (r: Result<
        Vec<Neighbor>,
        ErrorKind,
    >)
        ensures
            mismatched(self@, query@) ==> r is Err && r->Err_0 == ErrorKind::DimensionMismatch,
            !mismatched(self@, query@) ==> r is Ok && selected(
                r->Ok_0@,
                k as nat,
                query@,
                hashes_of(self@),
                radius as nat,
                skip,
            ),
            exists|bits: nat| uniform(hashes_of(self@), bits),
    {
        proof {
            use_type_invariant(self);
            assert(uniform(hashes_of(self@), self.bits as nat));
        }
        let mut best: Vec<Neighbor> = Vec::new();
        let n: usize = self.items.len();
        let ghost all = Set::new(|j: usize| j < hashes_of(self@).len());
        if n == 0 {
            return Ok(best);
        }
        proof {
            assert(hashes_of(self@)[0].len() == self.bits);
        }
        if query.size() != self.bits {
            return Err(ErrorKind::DimensionMismatch);
        }
        if k == 0 {
            return Ok(best);
        }
        let ghost list = first_indices(n as nat);
        visit(
            &self.root,
            &self.items,
            query,
            k,
            radius,
            skip,
            &mut best,
            Ghost(list),
            Ghost(Set::empty()),
            Ghost(self.bits as nat),
        );
        proof {
            let seen = Set::<usize>::empty().union(list.to_set());
            assert forall|j: usize| #![trigger all.contains(j)] all.contains(j) implies seen.contains(
                j,
            ) by {
                assert(list[j as int] == j);
            }
        }
        Ok(best)
    }

    /// The `k` items nearest to `query`, nearest first; items at the same
    /// distance come in the order in which the tree was given them. Fewer
    /// than `k` only when the tree holds fewer. An empty tree gives an empty
    /// answer; a query of another size than the hashes cannot be answered.
    pub fn k_nearest(&self, query: &BitHash, k: usize) -> (r: Result<Vec<Neighbor>, ErrorKind>)
        ensures
            mismatched(self@, query@) ==> r is Err && r->Err_0 == ErrorKind::DimensionMismatch,
            !mismatched(self@, query@) ==> r is Ok && selected(
                r->Ok_0@,
                k as nat,
                query@,
                hashes_of(self@),
                u64::MAX as nat,
                None,
            ) && r->Ok_0@.len() == if k <= self@.len() {
                k as nat
            } else {
                self@.len()
            },
    {
        let n: usize = self.items.len();
        let r = self.search(query, k, u64::MAX, None);
        proof {
            if r is Ok {
                let hashes = hashes_of(self@);
                assert(hashes.len() == n);
                let bits = choose|bits: nat| uniform(hashes, bits);
                assert forall|j: int| 0 <= j < hashes.len() implies qdist(query@, hashes, j)
                    <= u64::MAX by {
                    assert(hashes[j].len() == bits);
                    assert(hashes[0].len() == bits);
                    self.items@[j].hash.lemma_view();
                    lemma_differing_bounded(query@, hashes[j], query@.len());
                }
                lemma_selected_len(r->Ok_0@, k as nat, query@, hashes, u64::MAX as nat, None);
            }
        }
        r
    }

    /// All items within `radius` of `query`, nearest first; items at the
    /// same distance come in the order in which the tree was given them.
    pub fn within(&self, query: &BitHash, radius: u64) -> (r: Result<Vec<Neighbor>, ErrorKind>)
        ensures
            mismatched(self@, query@) ==> r is Err && r->Err_0 == ErrorKind::DimensionMismatch,
            !mismatched(self@, query@) ==> r is Ok && ascending(r->Ok_0@) && entries_true(
                r->Ok_0@,
                query@,
                hashes_of(self@),
                radius as nat,
                None,
            ) && forall|j: usize|
                wanted(j, query@, hashes_of(self@), radius as nat, None) ==> lists(r->Ok_0@, j),
    {
        let r = self.search(query, self.items.len(), radius, None);
        proof {
            if r is Ok {
                assert(hashes_of(self@).len() == self.items@.len());
                lemma_selected_all(r->Ok_0@, query@, hashes_of(self@), radius as nat, None);
            }
        }
        r
    }

    /// The `k` items nearest to item `index`, that item itself left out:
    /// another item with the same hash is a neighbour, the item is not.
    /// `None` when the tree has no item `index`.
    pub fn nearest_excluding_self(&self, index: usize, k: usize) -> (r: Option<Vec<Neighbor>>)
        ensures
            r is Some <==> index < self@.len(),
            r is Some ==> selected(
                r->0@,
                k as nat,
                self@[index as int].hash@,
                hashes_of(self@),
                u64::MAX as nat,
                Some(index),
            ) && r->0@.len() == if k <= self@.len() - 1 {
                k as nat
            } else {
                (self@.len() - 1) as nat
            },
    {
        if index >= self.items.len() {
            return None;
        }
        proof {
            use_type_invariant(self);
            assert(hashes_of(self@)[index as int].len() == self.bits);
            assert(hashes_of(self@)[0].len() == self.bits);
        }
        let query: &BitHash = &self.items[index].hash;
        match self.search(query, k, u64::MAX, Some(index)) {
            Ok(best) => {
                proof {
                    let hashes = hashes_of(self@);
                    assert forall|j: int| 0 <= j < hashes.len() implies qdist(query@, hashes, j)
                        <= u64::MAX by {
                        assert(hashes[j].len() == self.bits);
                        lemma_differing_bounded(query@, hashes[j], query@.len());
                    }
                    lemma_selected_len(
                        best@,
                        k as nat,
                        query@,
                        hashes,
                        u64::MAX as nat,
                        Some(index),
                    );
                }
                Some(best)
            },
            Err(_) => None,
        }
    }

    /// All items within `radius` of item `index`, that item itself left
    /// out. `None` when the tree has no item `index`.
    pub fn within_excluding_self(&self, index: usize, radius: u64) -> (r: Option<Vec<Neighbor>>)
        ensures
            r is Some <==> index < self@.len(),
            r is Some ==> ascending(r->0@) && entries_true(
                r->0@,
                self@[index as int].hash@,
                hashes_of(self@),
                radius as nat,
                Some(index),
            ) && forall|j: usize|
                wanted(j, self@[index as int].hash@, hashes_of(self@), radius as nat, Some(index))
                    ==> lists(r->0@, j),
    {
        if index >= self.items.len() {
            return None;
        }
        proof {
            use_type_invariant(self);
            assert(hashes_of(self@)[index as int].len() == self.bits);
            assert(hashes_of(self@)[0].len() == self.bits);
        }
        let query: &BitHash = &self.items[index].hash;
        match self.search(query, self.items.len(), radius, Some(index)) {
            Ok(best) => {
                proof {
                    lemma_selected_all(
                        best@,
                        query@,
                        hashes_of(self@),
                        radius as nat,
                        Some(index),
                    );
                }
                Some(best)
            },
            Err(_) => None,
        }
    }
}

} // verus!
