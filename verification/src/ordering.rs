//! Stable ordering by a rank, largest first: the order in which the flat and
//! search views list processes (by CPU usage, ties kept in input order).

use vstd::prelude::*;

verus! {

/// Inserts index `i` into `order` after every entry whose rank is at least
/// `ranks[i]`.
pub open spec fn insert_by_rank(order: Seq<int>, ranks: Seq<u32>, i: int) -> Seq<int>
    decreases order.len(),
{
    if order.len() == 0 {
        seq![i]
    } else if ranks[order.last()] >= ranks[i] {
        order.push(i)
    } else {
        insert_by_rank(order.drop_last(), ranks, i).push(order.last())
    }
}

/// The indices `0..n` of `ranks`, largest rank first, equal ranks in index order.
pub open spec fn rank_order(ranks: Seq<u32>, n: nat) -> Seq<int>
    decreases n,
{
    if n == 0 {
        Seq::empty()
    } else {
        insert_by_rank(rank_order(ranks, (n - 1) as nat), ranks, n - 1)
    }
}

proof fn lemma_insert_at(order: Seq<int>, ranks: Seq<u32>, i: int, pos: int)
    requires
        0 <= pos <= order.len(),
        forall|k: int| 0 <= k < order.len() ==> 0 <= #[trigger] order[k] < ranks.len(),
        0 <= i < ranks.len(),
        forall|k: int| pos <= k < order.len() ==> ranks[#[trigger] order[k]] < ranks[i],
        pos > 0 ==> ranks[order[pos - 1]] >= ranks[i],
    ensures
        insert_by_rank(order, ranks, i) == order.insert(pos, i),
    decreases order.len(),
{
    if order.len() == 0 {
        assert(order.insert(pos, i) =~= seq![i]);
    } else if pos == order.len() {
        assert(order.insert(pos, i) =~= order.push(i));
    } else {
        let rest = order.drop_last();
        assert(ranks[order[order.len() - 1]] < ranks[i]);
        lemma_insert_at(rest, ranks, i, pos);
        assert(insert_by_rank(order, ranks, i) == insert_by_rank(rest, ranks, i).push(order.last()));
        assert(rest.insert(pos, i).push(order.last()) =~= order.insert(pos, i));
    }
}

/// `order` lists each of `0..n` exactly once.
pub open spec fn is_index_permutation(order: Seq<int>, n: nat) -> bool {
    &&& order.len() == n
    &&& forall|k: int| 0 <= k < order.len() ==> 0 <= #[trigger] order[k] < n
    &&& order.no_duplicates()
    &&& forall|i: int| 0 <= i < n ==> #[trigger] order.contains(i)
}

/// Ranks never increase along `order`, and equal ranks appear in index order.
pub open spec fn sorted_desc_stable(order: Seq<int>, ranks: Seq<u32>) -> bool {
    forall|a: int, b: int|
        0 <= a < b < order.len() ==> ranks[#[trigger] order[a]] > ranks[#[trigger] order[b]] || (
        ranks[order[a]] == ranks[order[b]] && order[a] < order[b])
}

proof fn lemma_insert_position(order: Seq<int>, ranks: Seq<u32>, i: int) -> (pos: int)
    requires
        forall|k: int| 0 <= k < order.len() ==> 0 <= #[trigger] order[k] < ranks.len(),
        0 <= i < ranks.len(),
        sorted_desc_stable(order, ranks),
    ensures
        0 <= pos <= order.len(),
        forall|k: int| pos <= k < order.len() ==> ranks[#[trigger] order[k]] < ranks[i],
        forall|k: int| 0 <= k < pos ==> ranks[#[trigger] order[k]] >= ranks[i],
    decreases order.len(),
{
    if order.len() == 0 {
        0
    } else if ranks[order.last()] >= ranks[i] {
        assert forall|k: int| 0 <= k < order.len() implies ranks[#[trigger] order[k]] >= ranks[i] by {
            if k < order.len() - 1 {
                assert(ranks[order[k]] >= ranks[order[order.len() - 1]]);
            }
        }
        order.len() as int
    } else {
        let rest = order.drop_last();
        assert forall|a: int, b: int| 0 <= a < b < rest.len() implies ranks[#[trigger] rest[a]] > ranks[#[trigger] rest[b]] || (
            ranks[rest[a]] == ranks[rest[b]] && rest[a] < rest[b]) by {
            assert(rest[a] == order[a] && rest[b] == order[b]);
        }
        let p = lemma_insert_position(rest, ranks, i);
        assert forall|k: int| p <= k < order.len() implies ranks[#[trigger] order[k]] < ranks[i] by {
            if k < order.len() - 1 {
                assert(order[k] == rest[k]);
            }
        }
        assert forall|k: int| 0 <= k < p implies ranks[#[trigger] order[k]] >= ranks[i] by {
            assert(order[k] == rest[k]);
        }
        p
    }
}

/// The order of `rank_order` lists each index `0..n` exactly once, with ranks
/// never increasing and ties in index order: it is the stable sort of the
/// indices by descending rank.
pub proof fn lemma_rank_order_is_stable_sort(ranks: Seq<u32>, n: nat)
    requires
        n <= ranks.len(),
    ensures
        is_index_permutation(rank_order(ranks, n), n),
        sorted_desc_stable(rank_order(ranks, n), ranks),
    decreases n,
{
    if n > 0 {
        let m = (n - 1) as nat;
        lemma_rank_order_is_stable_sort(ranks, m);
        let o = rank_order(ranks, m);
        let i = m as int;
        let pos = lemma_insert_position(o, ranks, i);
        lemma_insert_at(o, ranks, i, pos);
        let r = o.insert(pos, i);
        assert(rank_order(ranks, n) == r);
        assert forall|k: int| 0 <= k < r.len() implies 0 <= #[trigger] r[k] < n by {
            if k < pos { assert(r[k] == o[k]); } else if k > pos { assert(r[k] == o[k - 1]); }
        }
        assert forall|j: int| 0 <= j < n implies #[trigger] r.contains(j) by {
            if j == i {
                assert(r[pos] == i);
            } else {
                assert(o.contains(j));
                let k = choose|k: int| 0 <= k < o.len() && o[k] == j;
                if k < pos { assert(r[k] == j); } else { assert(r[k + 1] == j); }
            }
        }
        assert forall|a: int, b: int| 0 <= a < r.len() && 0 <= b < r.len() && a != b implies r[a] != r[b] by {
            if a != pos && b != pos {
                let a2 = if a < pos { a } else { a - 1 };
                let b2 = if b < pos { b } else { b - 1 };
                assert(r[a] == o[a2] && r[b] == o[b2]);
            } else if a == pos {
                let b2 = if b < pos { b } else { b - 1 };
                assert(r[b] == o[b2]);
            } else {
                let a2 = if a < pos { a } else { a - 1 };
                assert(r[a] == o[a2]);
            }
        }
        assert forall|a: int, b: int| 0 <= a < b < r.len() implies ranks[#[trigger] r[a]] > ranks[#[trigger] r[b]] || (
            ranks[r[a]] == ranks[r[b]] && r[a] < r[b]) by {
            if a != pos && b != pos {
                let a2 = if a < pos { a } else { a - 1 };
                let b2 = if b < pos { b } else { b - 1 };
                assert(r[a] == o[a2] && r[b] == o[b2]);
                assert(a2 < b2);
            } else if a == pos {
                assert(r[b] == o[b - 1]);
                assert(ranks[o[b - 1]] < ranks[i]);
            } else {
                assert(r[a] == o[a]);
                assert(ranks[o[a]] >= ranks[i]);
                assert(o[a] < i);
            }
        }
    }
}

/// Indices of `ranks`, largest rank first; equal ranks keep index order.
pub fn order_by_rank_desc(ranks: &Vec<u32>) -> (order: Vec<usize>)
    ensures
        order@.len() == rank_order(ranks@, ranks@.len()).len(),
        forall|k: int| 0 <= k < order@.len() ==> order@[k] as int == #[trigger] rank_order(ranks@, ranks@.len())[k],
{
    let n = ranks.len();
    let mut order: Vec<usize> = Vec::new();
    let mut i: usize = 0;
    while i < n
        invariant
            n == ranks@.len(),
            i <= n,
            order@.len() == i,
            order@.map_values(|x: usize| x as int) == rank_order(ranks@, i as nat),
            forall|k: int| 0 <= k < order@.len() ==> order@[k] < i,
        decreases n - i,
    {
        let ghost before = order@;
        let mut pos: usize = order.len();
        while pos > 0 && ranks[order[pos - 1]] < ranks[i]
            invariant
                n == ranks@.len(),
                i < n,
                order@ == before,
                order@.len() == i,
                pos <= order@.len(),
                forall|k: int| 0 <= k < order@.len() ==> order@[k] < i,
                forall|k: int| pos <= k < order@.len() ==> ranks@[#[trigger] order@[k] as int] < ranks@[i as int],
            decreases pos,
        {
            pos = pos - 1;
        }
        proof {
            let o = before.map_values(|x: usize| x as int);
            assert forall|k: int| pos <= k < o.len() implies ranks@[#[trigger] o[k]] < ranks@[i as int] by {
                assert(o[k] == before[k] as int);
            }
            lemma_insert_at(o, ranks@, i as int, pos as int);
        }
        order.insert(pos, i);
        proof {
            let o = before.map_values(|x: usize| x as int);
            assert(order@.map_values(|x: usize| x as int) =~= o.insert(pos as int, i as int));
        }
        i = i + 1;
    }
    proof {
        assert forall|k: int| 0 <= k < order@.len() implies order@[k] as int == #[trigger] rank_order(ranks@, ranks@.len())[k] by {
            assert(order@.map_values(|x: usize| x as int)[k] == order@[k] as int);
        }
    }
    order
}

} // verus!
