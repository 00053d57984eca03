//! What holds of every tree that was built, and of every answer to a query.

use vstd::prelude::*;
use crate::model::hashes_of;
use vstd::set_lib::lemma_len_subset;
use crate::vptree::{
    all_before, before, built, far_of, first_indices, gap, indices, lemma_entries_distinct, lists,
    near_of, qdist, selected, wanted, within_count, Neighbor, VpNode, VpTree,
};

verus! {

/// The items of the subtree `t`: its vantage, then the items of the near
/// side, then those of the far side.
pub open spec fn members(t: Option<Box<VpNode>>) -> Seq<usize>
    decreases t,
{
    match t {
        None => Seq::empty(),
        Some(node) => seq![node.item] + members(node.near) + members(node.far),
    }
}

/// At every node of `t`, each item of the near side lies within the radius
/// of the vantage and each item of the far side lies beyond it.
pub open spec fn partitioned(t: Option<Box<VpNode>>, hashes: Seq<Seq<bool>>) -> bool
    decreases t,
{
    match t {
        None => true,
        Some(node) => {
            &&& forall|x: usize| #[trigger]
                members(node.near).contains(x) ==> gap(hashes, node.item as int, x as int)
                    <= node.radius
            &&& forall|x: usize| #[trigger]
                members(node.far).contains(x) ==> gap(hashes, node.item as int, x as int)
                    > node.radius
            &&& partitioned(node.near, hashes)
            &&& partitioned(node.far, hashes)
        },
    }
}

proof fn lemma_parts_len(hashes: Seq<Seq<bool>>, v: int, rest: Seq<usize>, r: nat)
    ensures
        near_of(hashes, v, rest, r).len() + far_of(hashes, v, rest, r).len() == rest.len(),
        near_of(hashes, v, rest, r).len() == within_count(hashes, v, rest, r),
    decreases rest.len(),
{
    if rest.len() > 0 {
        lemma_parts_len(hashes, v, rest.drop_last(), r);
    }
}

proof fn lemma_parts_members(hashes: Seq<Seq<bool>>, v: int, rest: Seq<usize>, r: nat)
    ensures
        forall|x: usize| #[trigger]
            near_of(hashes, v, rest, r).contains(x) <==> rest.contains(x) && gap(hashes, v, x as int)
                <= r,
        forall|x: usize| #[trigger]
            far_of(hashes, v, rest, r).contains(x) <==> rest.contains(x) && gap(hashes, v, x as int)
                > r,
    decreases rest.len(),
{
    if rest.len() > 0 {
        let init = rest.drop_last();
        let last = rest.last();
        lemma_parts_members(hashes, v, init, r);
        let near = near_of(hashes, v, rest, r);
        let far = far_of(hashes, v, rest, r);
        let near0 = near_of(hashes, v, init, r);
        let far0 = far_of(hashes, v, init, r);
        assert forall|x: usize| #[trigger]
            near.contains(x) <==> rest.contains(x) && gap(hashes, v, x as int) <= r by {
            if near.contains(x) {
                let i = choose|i: int| 0 <= i < near.len() && near[i] == x;
                if gap(hashes, v, last as int) <= r && i == near.len() - 1 {
                    assert(rest[rest.len() - 1] == x);
                } else {
                    assert(near0[i] == x);
                    assert(near0.contains(x));
                    let m = choose|m: int| 0 <= m < init.len() && init[m] == x;
                    assert(rest[m] == x);
                }
            }
            if rest.contains(x) && gap(hashes, v, x as int) <= r {
                let m = choose|m: int| 0 <= m < rest.len() && rest[m] == x;
                if m == rest.len() - 1 {
                    assert(near[near.len() - 1] == x);
                } else {
                    assert(init[m] == x);
                    assert(init.contains(x));
                    assert(near0.contains(x));
                    let i = choose|i: int| 0 <= i < near0.len() && near0[i] == x;
                    assert(near[i] == x);
                }
            }
        }
        assert forall|x: usize| #[trigger]
            far.contains(x) <==> rest.contains(x) && gap(hashes, v, x as int) > r by {
            if far.contains(x) {
                let i = choose|i: int| 0 <= i < far.len() && far[i] == x;
                if gap(hashes, v, last as int) > r && i == far.len() - 1 {
                    assert(rest[rest.len() - 1] == x);
                } else {
                    assert(far0[i] == x);
                    assert(far0.contains(x));
                    let m = choose|m: int| 0 <= m < init.len() && init[m] == x;
                    assert(rest[m] == x);
                }
            }
            if rest.contains(x) && gap(hashes, v, x as int) > r {
                let m = choose|m: int| 0 <= m < rest.len() && rest[m] == x;
                if m == rest.len() - 1 {
                    assert(far[far.len() - 1] == x);
                } else {
                    assert(init[m] == x);
                    assert(init.contains(x));
                    assert(far0.contains(x));
                    let i = choose|i: int| 0 <= i < far0.len() && far0[i] == x;
                    assert(far[i] == x);
                }
            }
        }
    }
}

proof fn lemma_concat_contains(a: Seq<usize>, b: Seq<usize>)
    ensures
        forall|x: usize| #[trigger] (a + b).contains(x) <==> a.contains(x) || b.contains(x),
{
    assert forall|x: usize| #[trigger] (a + b).contains(x) <==> a.contains(x) || b.contains(x) by {
        if (a + b).contains(x) {
            let i = choose|i: int| 0 <= i < (a + b).len() && (a + b)[i] == x;
            if i < a.len() {
                assert(a[i] == x);
            } else {
                assert(b[i - a.len()] == x);
            }
        }
        if a.contains(x) {
            let i = choose|i: int| 0 <= i < a.len() && a[i] == x;
            assert((a + b)[i] == x);
        }
        if b.contains(x) {
            let i = choose|i: int| 0 <= i < b.len() && b[i] == x;
            assert((a + b)[a.len() + i] == x);
        }
    }
}

/// The tree of a list holds the items of the list, as many as the list
/// has, and is partitioned at every node.
pub proof fn lemma_built_tree(t: Option<Box<VpNode>>, hashes: Seq<Seq<bool>>, list: Seq<usize>)
    requires
        built(t, hashes, list),
    ensures
        members(t).len() == list.len(),
        forall|x: usize| #[trigger] members(t).contains(x) <==> list.contains(x),
        partitioned(t, hashes),
    decreases t,
{
    match t {
        None => {},
        Some(node) => {
            let v = list[0];
            let rest = list.skip(1);
            let r = node.radius as nat;
            let near = near_of(hashes, v as int, rest, r);
            let far = far_of(hashes, v as int, rest, r);
            lemma_built_tree(node.near, hashes, near);
            lemma_built_tree(node.far, hashes, far);
            lemma_parts_len(hashes, v as int, rest, r);
            lemma_parts_members(hashes, v as int, rest, r);
            let head = seq![node.item];
            lemma_concat_contains(head, members(node.near));
            lemma_concat_contains(head + members(node.near), members(node.far));
            assert forall|x: usize| #[trigger] members(t).contains(x) <==> list.contains(x) by {
                if head.contains(x) {
                    assert(x == v);
                    assert(list[0] == x);
                }
                if x == v {
                    assert(head[0] == x);
                }
                if rest.contains(x) {
                    let m = choose|m: int| 0 <= m < rest.len() && rest[m] == x;
                    assert(list[m + 1] == x);
                }
                if list.contains(x) && x != v {
                    let m = choose|m: int| 0 <= m < list.len() && list[m] == x;
                    assert(rest[m - 1] == x);
                }
            }
        },
    }
}

/// In a tree, every item appears exactly once, and at every node the items
/// of the near side lie within the radius of the vantage and the items of
/// the far side lie beyond it.
pub proof fn law_tree_partition(tree: VpTree)
    requires
        tree.wf(),
    ensures
        partitioned(tree.spec_root(), hashes_of(tree@)),
        members(tree.spec_root()).len() == tree@.len(),
        members(tree.spec_root()).no_duplicates(),
        forall|j: usize| j < tree@.len() <==> members(tree.spec_root()).contains(j),
{
    let n = tree@.len();
    let list = first_indices(n);
    let m = members(tree.spec_root());
    tree.lemma_wf();
    tree.lemma_len();
    lemma_built_tree(tree.spec_root(), hashes_of(tree@), list);
    assert forall|j: usize| j < n <==> m.contains(j) by {
        if j < n {
            assert(list[j as int] == j);
        }
        if m.contains(j) {
            let i = choose|i: int| 0 <= i < list.len() && list[i] == j;
        }
    }
    let all = Set::new(|j: usize| j < n);
    assert(m.to_set() =~= all);
    lemma_usize_range(n);
    m.lemma_no_dup_set_cardinality();
}

/// There are `n` numbers below `n`.
proof fn lemma_usize_range(n: nat)
    requires
        n <= usize::MAX + 1,
    ensures
        Set::new(|j: usize| j < n).finite(),
        Set::new(|j: usize| j < n).len() == n,
    decreases n,
{
    let s = Set::new(|j: usize| j < n);
    if n == 0 {
        assert(s =~= Set::empty());
    } else {
        let p = (n - 1) as nat;
        lemma_usize_range(p);
        let s0 = Set::new(|j: usize| j < p);
        assert(s =~= s0.insert(p as usize));
    }
}

/// An answer to a nearest-neighbour query is in ascending order of
/// distance, and no item of the tree outside the answer is nearer to the
/// query than an item inside it.
pub proof fn law_nearest_answer(
    best: Seq<Neighbor>,
    k: nat,
    q: Seq<bool>,
    hashes: Seq<Seq<bool>>,
    radius: nat,
)
    requires
        selected(best, k, q, hashes, radius, None),
    ensures
        forall|i: int, j: int| 0 <= i < j < best.len() ==> best[i].dist <= best[j].dist,
        forall|i: int|
            0 <= i < best.len() ==> (#[trigger] best[i]).index < hashes.len() && best[i].dist
                == qdist(q, hashes, best[i].index as int),
        forall|x: usize, i: int|
            x < hashes.len() && qdist(q, hashes, x as int) <= radius && !lists(best, x) && 0 <= i
                < best.len() ==> (#[trigger] best[i]).dist <= #[trigger] qdist(q, hashes, x as int),
{
    assert forall|i: int, j: int| 0 <= i < j < best.len() implies best[i].dist <= best[j].dist by {
        assert(before(best[i], best[j].dist as nat, best[j].index));
    }
    assert forall|i: int| 0 <= i < best.len() implies (#[trigger] best[i]).index < hashes.len()
        && best[i].dist == qdist(q, hashes, best[i].index as int) by {
        assert(wanted(best[i].index, q, hashes, radius, None));
    }
    assert forall|x: usize, i: int|
        x < hashes.len() && qdist(q, hashes, x as int) <= radius && !lists(best, x) && 0 <= i
            < best.len() implies (#[trigger] best[i]).dist <= #[trigger] qdist(
        q,
        hashes,
        x as int,
    ) by {
        assert(Set::new(|j: usize| j < hashes.len()).contains(x));
        assert(wanted(x, q, hashes, radius, None));
        assert(all_before(best, qdist(q, hashes, x as int), x));
        assert(before(best[i], qdist(q, hashes, x as int), x));
    }
}

/// Of two answers to one query, every item of the one is an item of the
/// other.
proof fn lemma_answers_share_items(
    a: Seq<Neighbor>,
    b: Seq<Neighbor>,
    k: nat,
    q: Seq<bool>,
    hashes: Seq<Seq<bool>>,
    radius: nat,
    skip: Option<usize>,
    x: usize,
)
    requires
        selected(a, k, q, hashes, radius, skip),
        selected(b, k, q, hashes, radius, skip),
        hashes.len() <= usize::MAX,
        lists(a, x),
    ensures
        lists(b, x),
{
    let all = Set::new(|j: usize| j < hashes.len());
    let i = choose|i: int| 0 <= i < a.len() && (#[trigger] a[i]).index == x;
    assert(wanted(x, q, hashes, radius, skip));
    assert(all.contains(x));
    if !lists(b, x) {
        let dx = qdist(q, hashes, x as int);
        assert(b.len() == k && all_before(b, dx, x));
        lemma_entries_distinct(a, q, hashes, radius, skip);
        lemma_entries_distinct(b, q, hashes, radius, skip);
        let sa = indices(a).to_set();
        let sb = indices(b).to_set();
        assert forall|y: int| sb.contains(y) implies sa.remove(x as int).contains(y) by {
            let j = choose|j: int| 0 <= j < indices(b).len() && indices(b)[j] == y;
            let yy = b[j].index;
            assert(wanted(yy, q, hashes, radius, skip));
            assert(all.contains(yy));
            assert(before(b[j], dx, x));
            if !lists(a, yy) {
                assert(all_before(a, qdist(q, hashes, yy as int), yy));
                assert(before(a[i], qdist(q, hashes, yy as int), yy));
            }
            let m = choose|m: int| 0 <= m < a.len() && (#[trigger] a[m]).index == yy;
            assert(indices(a)[m] == y);
        }
        assert(indices(a)[i] == x as int);
        assert(sa.contains(x as int));
        lemma_len_subset(sb, sa.remove(x as int));
    }
}

/// Two answers to one query agree in their first `n` entries.
proof fn lemma_answers_agree(
    a: Seq<Neighbor>,
    b: Seq<Neighbor>,
    k: nat,
    q: Seq<bool>,
    hashes: Seq<Seq<bool>>,
    radius: nat,
    skip: Option<usize>,
    n: int,
)
    requires
        selected(a, k, q, hashes, radius, skip),
        selected(b, k, q, hashes, radius, skip),
        hashes.len() <= usize::MAX,
        a.len() == b.len(),
        0 <= n <= a.len(),
    ensures
        forall|j: int| 0 <= j < n ==> a[j] == b[j],
    decreases n,
{
    if n > 0 {
        lemma_answers_agree(a, b, k, q, hashes, radius, skip, n - 1);
        let i = n - 1;
        assert(lists(a, a[i].index));
        assert(lists(b, b[i].index));
        lemma_answers_share_items(a, b, k, q, hashes, radius, skip, a[i].index);
        lemma_answers_share_items(b, a, k, q, hashes, radius, skip, b[i].index);
        let ja = choose|j: int| 0 <= j < b.len() && (#[trigger] b[j]).index == a[i].index;
        let jb = choose|j: int| 0 <= j < a.len() && (#[trigger] a[j]).index == b[i].index;
        // each entry holds the true distance of its item, so entries of one item are equal
        assert(b[ja] == a[i]);
        assert(a[jb] == b[i]);
        if ja < i {
            assert(a[ja] == b[ja]);
            assert(before(a[ja], a[i].dist as nat, a[i].index));
        } else if ja > i {
            assert(before(b[i], b[ja].dist as nat, b[ja].index));
            if jb < i {
                assert(b[jb] == a[jb]);
                assert(before(b[jb], b[i].dist as nat, b[i].index));
            } else if jb > i {
                assert(before(a[i], a[jb].dist as nat, a[jb].index));
            }
        }
    }
}

/// A query has one answer: the conditions on an answer leave no choice.
pub proof fn law_answer_is_unique(
    a: Seq<Neighbor>,
    b: Seq<Neighbor>,
    k: nat,
    q: Seq<bool>,
    hashes: Seq<Seq<bool>>,
    radius: nat,
    skip: Option<usize>,
)
    requires
        selected(a, k, q, hashes, radius, skip),
        selected(b, k, q, hashes, radius, skip),
        hashes.len() <= usize::MAX,
    ensures
        a == b,
{
    lemma_entries_distinct(a, q, hashes, radius, skip);
    lemma_entries_distinct(b, q, hashes, radius, skip);
    let sa = indices(a).to_set();
    let sb = indices(b).to_set();
    assert forall|y: int| sa.contains(y) implies sb.contains(y) by {
        let j = choose|j: int| 0 <= j < indices(a).len() && indices(a)[j] == y;
        assert(lists(a, a[j].index));
        lemma_answers_share_items(a, b, k, q, hashes, radius, skip, a[j].index);
        let m = choose|m: int| 0 <= m < b.len() && (#[trigger] b[m]).index == a[j].index;
        assert(indices(b)[m] == y);
    }
    assert forall|y: int| sb.contains(y) implies sa.contains(y) by {
        let j = choose|j: int| 0 <= j < indices(b).len() && indices(b)[j] == y;
        assert(lists(b, b[j].index));
        lemma_answers_share_items(b, a, k, q, hashes, radius, skip, b[j].index);
        let m = choose|m: int| 0 <= m < a.len() && (#[trigger] a[m]).index == b[j].index;
        assert(indices(a)[m] == y);
    }
    assert(sa =~= sb);
    assert(a.len() == b.len());
    lemma_answers_agree(a, b, k, q, hashes, radius, skip, a.len() as int);
    assert(a =~= b);
}

} // verus!
