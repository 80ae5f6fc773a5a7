//! Laws of the tree view: when process ids are distinct, every row comes
//! from an entry whose ancestry reaches a top-level process in exactly the
//! row's depth, and no process appears twice; so the process table never
//! has more rows than the snapshot has processes.

use vstd::prelude::*;
use crate::process::EntryView;
use crate::rows::{RowView, tree_level, tree_rows, row_for, tree_command, has_child};
use crate::rows::{table_rows, search_hits, lemma_ranked_rows_sorted_and_complete};
use crate::text::{lowercased, spaces};
use vstd::set_lib::lemma_len_subset;

verus! {

/// No two entries share a process id.
pub open spec fn distinct_pids(es: Seq<EntryView>) -> bool {
    forall|a: int, b: int| 0 <= a < es.len() && 0 <= b < es.len() && a != b ==> #[trigger] es[a].pid != #[trigger] es[b].pid
}

/// Index of the entry whose id is the parent of entry `j`.
pub open spec fn parent_index(es: Seq<EntryView>, j: int) -> int {
    choose|m: int| 0 <= m < es.len() && es[j].parent == Some(es[m].pid)
}

/// Index reached from entry `j` after `k` steps to the parent.
pub open spec fn ancestor(es: Seq<EntryView>, j: int, k: nat) -> int
    decreases k,
{
    if k == 0 {
        j
    } else {
        ancestor(es, parent_index(es, j), (k - 1) as nat)
    }
}

/// The ancestor `s` steps above `j` names the one `s + 1` steps above as parent.
pub open spec fn linked(es: Seq<EntryView>, j: int, s: nat) -> bool {
    &&& 0 <= ancestor(es, j, s + 1) < es.len()
    &&& es[ancestor(es, j, s)].parent == Some(es[ancestor(es, j, s + 1)].pid)
}

/// Entry `j` reaches a process without parent after exactly `d` steps, each
/// through an entry of the snapshot.
pub open spec fn root_distance(es: Seq<EntryView>, j: int, d: nat) -> bool {
    &&& 0 <= j < es.len()
    &&& forall|s: nat| s < d ==> #[trigger] linked(es, j, s)
    &&& es[ancestor(es, j, d)].parent is None
}

/// The level of the tree under `parent` at depth `d` hangs below the top:
/// for the top level `parent` is `None` and `d` is 0, otherwise `parent` is
/// the id of an entry at distance `d - 1` from the top.
pub open spec fn level_rooted(es: Seq<EntryView>, parent: Option<u32>, d: nat) -> bool {
    match parent {
        None => d == 0,
        Some(p) => d >= 1 && exists|m: int| 0 <= m < es.len() && es[m].pid == p && root_distance(es, m, (d - 1) as nat),
    }
}

/// Entry `j` is the source of `row` on the level under `parent` at depth
/// `d` scanned from index `i`: same id, depth at least `d`, at distance
/// `row.depth` from the top, and its ancestor on this level is a child of
/// `parent` at index `i` or later.
pub open spec fn row_source(es: Seq<EntryView>, row: RowView, parent: Option<u32>, d: nat, i: int, j: int) -> bool {
    &&& 0 <= j < es.len()
    &&& es[j].pid == row.pid
    &&& row.depth >= d
    &&& root_distance(es, j, row.depth)
    &&& i <= ancestor(es, j, (row.depth - d) as nat) < es.len()
    &&& es[ancestor(es, j, (row.depth - d) as nat)].parent == parent
}

pub open spec fn has_source(es: Seq<EntryView>, row: RowView, parent: Option<u32>, d: nat, i: int) -> bool {
    exists|j: int| row_source(es, row, parent, d, i, j)
}

proof fn lemma_ancestor_step(es: Seq<EntryView>, j: int, k: nat)
    ensures
        ancestor(es, j, k + 1) == parent_index(es, ancestor(es, j, k)),
    decreases k,
{
    if k > 0 {
        let p = parent_index(es, j);
        lemma_ancestor_step(es, p, (k - 1) as nat);
        assert(ancestor(es, j, k + 1) == ancestor(es, p, k));
        assert(ancestor(es, j, k) == ancestor(es, p, (k - 1) as nat));
        assert(((k - 1) as nat) + 1 == k);
    } else {
        assert(ancestor(es, j, 1) == ancestor(es, parent_index(es, j), 0));
    }
}

proof fn lemma_parent_index_is(es: Seq<EntryView>, j: int, m: int)
    requires
        distinct_pids(es),
        0 <= m < es.len(),
        es[j].parent == Some(es[m].pid),
    ensures
        parent_index(es, j) == m,
{
    let c = parent_index(es, j);
    assert(0 <= c < es.len() && es[j].parent == Some(es[c].pid));
    if c != m {
        assert(es[c].pid != es[m].pid);
    }
}

proof fn lemma_root_distance_unique(es: Seq<EntryView>, j: int, d1: nat, d2: nat)
    requires
        root_distance(es, j, d1),
        root_distance(es, j, d2),
    ensures
        d1 == d2,
{
    if d1 < d2 {
        assert(linked(es, j, d1));
    } else if d2 < d1 {
        assert(linked(es, j, d2));
    }
}

proof fn lemma_root_distance_extend(es: Seq<EntryView>, i: int, m: int, d: nat)
    requires
        distinct_pids(es),
        0 <= i < es.len(),
        0 <= m < es.len(),
        es[i].parent == Some(es[m].pid),
        root_distance(es, m, d),
    ensures
        root_distance(es, i, d + 1),
{
    lemma_parent_index_is(es, i, m);
    assert forall|s: nat| s < d + 1 implies #[trigger] linked(es, i, s) by {
        if s == 0 {
            assert(ancestor(es, i, 1) == ancestor(es, m, 0));
        } else {
            assert(linked(es, m, (s - 1) as nat));
            assert(ancestor(es, i, s) == ancestor(es, m, (s - 1) as nat));
            assert(ancestor(es, i, s + 1) == ancestor(es, m, s));
        }
    }
    assert(ancestor(es, i, d + 1) == ancestor(es, m, d));
}

/// Every row of a rooted level has a source entry.
pub proof fn lemma_level_sources(es: Seq<EntryView>, parent: Option<u32>, d: nat, collapsed: Set<u32>, fuel: nat, i: nat)
    requires
        distinct_pids(es),
        level_rooted(es, parent, d),
    ensures
        forall|t: int| 0 <= t < tree_level(es, parent, d, collapsed, fuel, i).len() ==>
            has_source(es, #[trigger] tree_level(es, parent, d, collapsed, fuel, i)[t], parent, d, i as int),
    decreases fuel, es.len() - i,
{
    let l = tree_level(es, parent, d, collapsed, fuel, i);
    if i < es.len() {
        let rest = tree_level(es, parent, d, collapsed, fuel, i + 1);
        lemma_level_sources(es, parent, d, collapsed, fuel, i + 1);
        assert forall|t: int| 0 <= t < rest.len() implies has_source(es, #[trigger] rest[t], parent, d, i as int) by {
            let i1 = (i + 1) as int;
            let j = choose|j: int| row_source(es, rest[t], parent, d, i1, j);
            assert(row_source(es, rest[t], parent, d, i as int, j));
        }
        if es[i as int].parent == parent {
            let e = es[i as int];
            let hc = has_child(es, e.pid);
            let col = collapsed.contains(e.pid);
            let row = row_for(e, d, hc, tree_command(e.name, d, hc, col));
            lemma_top_entry_rooted(es, parent, d, i as int);
            assert(row_source(es, row, parent, d, i as int, i as int));
            let sub = if hc && !col && fuel > 0 {
                tree_level(es, Some(e.pid), d + 1, collapsed, (fuel - 1) as nat, 0)
            } else {
                Seq::empty()
            };
            if hc && !col && fuel > 0 {
                assert(level_rooted(es, Some(e.pid), d + 1));
                lemma_level_sources(es, Some(e.pid), d + 1, collapsed, (fuel - 1) as nat, 0);
                assert forall|t: int| 0 <= t < sub.len() implies has_source(es, #[trigger] sub[t], parent, d, i as int) by {
                    lemma_subtree_source(es, e.pid, d, i as int, sub[t]);
                }
            }
            assert(l == seq![row] + sub + rest);
            assert forall|t: int| 0 <= t < l.len() implies has_source(es, #[trigger] l[t], parent, d, i as int) by {
                if t == 0 {
                    assert(l[t] == row);
                } else if t < 1 + sub.len() {
                    assert(l[t] == sub[t - 1]);
                } else {
                    assert(l[t] == rest[t - 1 - sub.len()]);
                }
            }
        } else {
            assert(l == rest);
        }
    }
}

/// A child `i` of a rooted level is at distance `d` from the top.
proof fn lemma_top_entry_rooted(es: Seq<EntryView>, parent: Option<u32>, d: nat, i: int)
    requires
        distinct_pids(es),
        level_rooted(es, parent, d),
        0 <= i < es.len(),
        es[i].parent == parent,
    ensures
        root_distance(es, i, d),
{
    match parent {
        None => {
            assert(ancestor(es, i, 0) == i);
        },
        Some(p) => {
            let m = choose|m: int| 0 <= m < es.len() && es[m].pid == p && root_distance(es, m, (d - 1) as nat);
            lemma_root_distance_extend(es, i, m, (d - 1) as nat);
        },
    }
}

/// A row sourced one level below child `i` has `i` as its ancestor on the
/// level of `i`.
proof fn lemma_subtree_ancestor(es: Seq<EntryView>, pid: u32, d: nat, i: int, row: RowView, j: int)
    requires
        distinct_pids(es),
        0 <= i < es.len(),
        es[i].pid == pid,
        row_source(es, row, Some(pid), d + 1, 0, j),
    ensures
        row.depth >= d + 1,
        ancestor(es, j, (row.depth - d) as nat) == i,
{
    let k = (row.depth - (d + 1)) as nat;
    lemma_ancestor_step(es, j, k);
    lemma_parent_index_is(es, ancestor(es, j, k), i);
    assert((row.depth - d) as nat == k + 1);
}

proof fn lemma_subtree_source(es: Seq<EntryView>, pid: u32, d: nat, i: int, row: RowView)
    requires
        distinct_pids(es),
        0 <= i < es.len(),
        es[i].pid == pid,
        has_source(es, row, Some(pid), d + 1, 0),
    ensures
        has_source(es, row, es[i].parent, d, i),
{
    let d1 = d + 1;
    let j = choose|j: int| row_source(es, row, Some(pid), d1, 0, j);
    lemma_subtree_ancestor(es, pid, d, i, row, j);
    assert(row_source(es, row, es[i].parent, d, i, j));
}

proof fn lemma_ancestor_shift(es: Seq<EntryView>, j: int, a: nat, b: nat, t: nat)
    requires
        ancestor(es, j, a) == ancestor(es, j, b),
    ensures
        ancestor(es, j, a + t) == ancestor(es, j, b + t),
    decreases t,
{
    if t > 0 {
        let t1 = (t - 1) as nat;
        lemma_ancestor_shift(es, j, a, b, t1);
        lemma_ancestor_step(es, j, a + t1);
        lemma_ancestor_step(es, j, b + t1);
    }
}

/// The distance of an entry from the top is less than the number of entries:
/// the ancestors on the way are distinct entries.
pub proof fn lemma_root_distance_bound(es: Seq<EntryView>, j: int, d: nat)
    requires
        root_distance(es, j, d),
    ensures
        d < es.len(),
{
    let chain = Seq::new(d + 1, |s: int| ancestor(es, j, s as nat));
    assert forall|s: int| 0 <= s <= d implies 0 <= #[trigger] ancestor(es, j, s as nat) < es.len() by {
        if s > 0 {
            assert(linked(es, j, (s - 1) as nat));
        }
    }
    assert forall|a: int, b: int| 0 <= a < chain.len() && 0 <= b < chain.len() && a != b implies chain[a] != chain[b] by {
        if chain[a] == chain[b] {
            let lo = if a < b { a } else { b };
            let hi = if a < b { b } else { a };
            assert(ancestor(es, j, lo as nat) == ancestor(es, j, hi as nat));
            let t = (d - hi) as nat;
            lemma_ancestor_shift(es, j, lo as nat, hi as nat, t);
            let s3 = (lo + t) as nat;
            assert(s3 < d);
            assert(linked(es, j, s3));
            assert(ancestor(es, j, hi as nat + t) == ancestor(es, j, d));
        }
    }
    chain.unique_seq_to_set();
    let range = vstd::set_lib::set_int_range(0, es.len() as int);
    vstd::set_lib::lemma_int_range(0, es.len() as int);
    assert forall|x: int| chain.to_set().contains(x) implies range.contains(x) by {
        let s = choose|s: int| 0 <= s < chain.len() && chain[s] == x;
        assert(0 <= ancestor(es, j, s as nat) < es.len());
    }
    vstd::set_lib::lemma_len_subset(chain.to_set(), range);
}

/// More depth allowance leaves a rooted level unchanged once the allowance
/// reaches the number of entries.
proof fn lemma_level_fuel(es: Seq<EntryView>, parent: Option<u32>, d: nat, collapsed: Set<u32>, f1: nat, f2: nat, i: nat)
    requires
        distinct_pids(es),
        level_rooted(es, parent, d),
        f1 + d >= es.len(),
        f2 >= f1,
    ensures
        tree_level(es, parent, d, collapsed, f1, i) == tree_level(es, parent, d, collapsed, f2, i),
    decreases f1, es.len() - i,
{
    if i < es.len() {
        lemma_level_fuel(es, parent, d, collapsed, f1, f2, i + 1);
        if es[i as int].parent == parent {
            lemma_top_entry_rooted(es, parent, d, i as int);
            lemma_root_distance_bound(es, i as int, d);
            let e = es[i as int];
            if has_child(es, e.pid) && !collapsed.contains(e.pid) {
                assert(level_rooted(es, Some(e.pid), d + 1));
                lemma_level_fuel(es, Some(e.pid), d + 1, collapsed, (f1 - 1) as nat, (f2 - 1) as nat, 0);
            }
        }
    }
}

/// With distinct process ids the depth allowance of the tree view never
/// cuts it short: any larger allowance gives the same rows.
pub proof fn lemma_tree_rows_depth_allowance(es: Seq<EntryView>, collapsed: Set<u32>, extra: nat)
    requires
        distinct_pids(es),
    ensures
        tree_rows(es, collapsed) == tree_level(es, None, 0, collapsed, es.len() + extra, 0),
{
    lemma_level_fuel(es, None, 0, collapsed, es.len(), es.len() + extra, 0);
}

/// Rows of a level where the collapsed sets differ at most in `p` are the
/// same when no row is for `p`.
pub proof fn lemma_level_collapse_absent(
    es: Seq<EntryView>,
    parent: Option<u32>,
    d: nat,
    c1: Set<u32>,
    c2: Set<u32>,
    p: u32,
    fuel: nat,
    i: nat,
)
    requires
        forall|x: u32| x != p ==> (c1.contains(x) <==> c2.contains(x)),
        forall|t: int| 0 <= t < tree_level(es, parent, d, c1, fuel, i).len() ==>
            (#[trigger] tree_level(es, parent, d, c1, fuel, i)[t]).pid != p,
    ensures
        tree_level(es, parent, d, c2, fuel, i) == tree_level(es, parent, d, c1, fuel, i),
    decreases fuel, es.len() - i,
{
    let l1 = tree_level(es, parent, d, c1, fuel, i);
    if i < es.len() {
        let i1 = (i + 1) as nat;
        let r1 = tree_level(es, parent, d, c1, fuel, i1);
        if es[i as int].parent == parent {
            let e = es[i as int];
            let hc = has_child(es, e.pid);
            let col1 = c1.contains(e.pid);
            let row1 = row_for(e, d, hc, tree_command(e.name, d, hc, col1));
            let d1 = d + 1;
            let sub1 = if hc && !col1 && fuel > 0 {
                tree_level(es, Some(e.pid), d1, c1, (fuel - 1) as nat, 0)
            } else {
                Seq::empty()
            };
            assert(l1 == seq![row1] + sub1 + r1);
            assert(l1[0].pid == e.pid);
            assert(c1.contains(e.pid) == c2.contains(e.pid));
            assert forall|t: int| 0 <= t < r1.len() implies (#[trigger] r1[t]).pid != p by {
                assert(l1[t + 1 + sub1.len()] == r1[t]);
            }
            lemma_level_collapse_absent(es, parent, d, c1, c2, p, fuel, i1);
            if hc && !col1 && fuel > 0 {
                assert forall|t: int| 0 <= t < sub1.len() implies (#[trigger] sub1[t]).pid != p by {
                    assert(l1[t + 1] == sub1[t]);
                }
                lemma_level_collapse_absent(es, Some(e.pid), d1, c1, c2, p, (fuel - 1) as nat, 0);
            }
        } else {
            assert(l1 == r1);
            lemma_level_collapse_absent(es, parent, d, c1, c2, p, fuel, i1);
        }
    }
}

/// Rows of a level where the collapsed sets differ at most in `p`:
/// everything before the first row for `p` is the same, and that row keeps
/// its place, id and children flag.
#[verifier::spinoff_prover]
pub proof fn lemma_level_collapse_first(
    es: Seq<EntryView>,
    parent: Option<u32>,
    d: nat,
    c1: Set<u32>,
    c2: Set<u32>,
    p: u32,
    fuel: nat,
    i: nat,
    k: int,
)
    requires
        forall|x: u32| x != p ==> (c1.contains(x) <==> c2.contains(x)),
        0 <= k < tree_level(es, parent, d, c1, fuel, i).len(),
        tree_level(es, parent, d, c1, fuel, i)[k].pid == p,
        forall|t: int| 0 <= t < k ==> (#[trigger] tree_level(es, parent, d, c1, fuel, i)[t]).pid != p,
    ensures
        k < tree_level(es, parent, d, c2, fuel, i).len(),
        tree_level(es, parent, d, c2, fuel, i).subrange(0, k) == tree_level(es, parent, d, c1, fuel, i).subrange(0, k),
        tree_level(es, parent, d, c2, fuel, i)[k].pid == p,
        tree_level(es, parent, d, c2, fuel, i)[k].has_children == tree_level(es, parent, d, c1, fuel, i)[k].has_children,
    decreases fuel, es.len() - i,
{
    let l1 = tree_level(es, parent, d, c1, fuel, i);
    let l2 = tree_level(es, parent, d, c2, fuel, i);
    let i1 = (i + 1) as nat;
    let r1 = tree_level(es, parent, d, c1, fuel, i1);
    let r2 = tree_level(es, parent, d, c2, fuel, i1);
    if es[i as int].parent == parent {
        let e = es[i as int];
        let hc = has_child(es, e.pid);
        let col1 = c1.contains(e.pid);
        let col2 = c2.contains(e.pid);
        let row1 = row_for(e, d, hc, tree_command(e.name, d, hc, col1));
        let row2 = row_for(e, d, hc, tree_command(e.name, d, hc, col2));
        let d1 = d + 1;
        let sub1 = if hc && !col1 && fuel > 0 {
            tree_level(es, Some(e.pid), d1, c1, (fuel - 1) as nat, 0)
        } else {
            Seq::empty()
        };
        let sub2 = if hc && !col2 && fuel > 0 {
            tree_level(es, Some(e.pid), d1, c2, (fuel - 1) as nat, 0)
        } else {
            Seq::empty()
        };
        assert(l1 == seq![row1] + sub1 + r1);
        assert(l2 == seq![row2] + sub2 + r2);
        if e.pid == p {
            assert(l2[0] == row2);
            assert(l2.subrange(0, 0) =~= l1.subrange(0, 0));
            assert(k == 0) by {
                if k > 0 {
                    assert(l1[0].pid != p);
                }
            }
        } else {
            assert(c1.contains(e.pid) == c2.contains(e.pid));
            assert(row1 == row2);
            assert(k != 0);
            if k < 1 + sub1.len() {
                let k1 = k - 1;
                assert(sub1[k1] == l1[k]);
                assert forall|t: int| 0 <= t < k1 implies (#[trigger] sub1[t]).pid != p by {
                    assert(l1[t + 1] == sub1[t]);
                }
                lemma_level_collapse_first(es, Some(e.pid), d1, c1, c2, p, (fuel - 1) as nat, 0, k1);
                assert(l2.subrange(0, k) =~= seq![row1] + sub2.subrange(0, k1));
                assert(l1.subrange(0, k) =~= seq![row1] + sub1.subrange(0, k1));
                assert(l2[k] == sub2[k1]);
            } else {
                let k2 = k - 1 - sub1.len();
                assert(r1[k2] == l1[k]);
                if hc && !col1 && fuel > 0 {
                    assert forall|t: int| 0 <= t < sub1.len() implies (#[trigger] sub1[t]).pid != p by {
                        assert(l1[t + 1] == sub1[t]);
                    }
                    lemma_level_collapse_absent(es, Some(e.pid), d1, c1, c2, p, (fuel - 1) as nat, 0);
                }
                assert(sub2 == sub1);
                assert forall|t: int| 0 <= t < k2 implies (#[trigger] r1[t]).pid != p by {
                    assert(l1[t + 1 + sub1.len()] == r1[t]);
                }
                lemma_level_collapse_first(es, parent, d, c1, c2, p, fuel, i1, k2);
                assert(l2.subrange(0, k) =~= seq![row1] + sub1 + r2.subrange(0, k2));
                assert(l1.subrange(0, k) =~= seq![row1] + sub1 + r1.subrange(0, k2));
                assert(l2[k] == r2[k2]);
            }
        }
    } else {
        assert(l1 == r1);
        assert(l2 == r2);
        lemma_level_collapse_first(es, parent, d, c1, c2, p, fuel, i1, k);
    }
}

/// No two rows of a rooted level share a process id.
proof fn lemma_level_distinct(es: Seq<EntryView>, parent: Option<u32>, d: nat, collapsed: Set<u32>, fuel: nat, i: nat)
    requires
        distinct_pids(es),
        level_rooted(es, parent, d),
    ensures
        forall|a: int, b: int| 0 <= a < b < tree_level(es, parent, d, collapsed, fuel, i).len() ==>
            (#[trigger] tree_level(es, parent, d, collapsed, fuel, i)[a]).pid
                != (#[trigger] tree_level(es, parent, d, collapsed, fuel, i)[b]).pid,
    decreases fuel, es.len() - i,
{
    let l = tree_level(es, parent, d, collapsed, fuel, i);
    if i < es.len() {
        let i1 = (i + 1) as nat;
        let rest = tree_level(es, parent, d, collapsed, fuel, i1);
        lemma_level_distinct(es, parent, d, collapsed, fuel, i1);
        lemma_level_sources(es, parent, d, collapsed, fuel, i1);
        if es[i as int].parent == parent {
            let e = es[i as int];
            let hc = has_child(es, e.pid);
            let col = collapsed.contains(e.pid);
            let row = row_for(e, d, hc, tree_command(e.name, d, hc, col));
            lemma_top_entry_rooted(es, parent, d, i as int);
            let d1 = d + 1;
            let sub = if hc && !col && fuel > 0 {
                tree_level(es, Some(e.pid), d1, collapsed, (fuel - 1) as nat, 0)
            } else {
                Seq::empty()
            };
            if hc && !col && fuel > 0 {
                lemma_level_distinct(es, Some(e.pid), d1, collapsed, (fuel - 1) as nat, 0);
                lemma_level_sources(es, Some(e.pid), d1, collapsed, (fuel - 1) as nat, 0);
            }
            assert(l == seq![row] + sub + rest);
            assert forall|a: int, b: int| 0 <= a < b < l.len() implies (#[trigger] l[a]).pid != (#[trigger] l[b]).pid by {
                if a == 0 {
                    assert(l[a] == row);
                    if b < 1 + sub.len() {
                        let r = sub[b - 1];
                        assert(l[b] == r);
                        assert(has_source(es, r, Some(e.pid), d1, 0));
                        let j = choose|j: int| row_source(es, r, Some(e.pid), d1, 0, j);
                        if r.pid == e.pid {
                            assert(es[j].pid == es[i as int].pid);
                            assert(j == i);
                            lemma_root_distance_unique(es, i as int, d, r.depth);
                        }
                    } else {
                        let r = rest[b - 1 - sub.len()];
                        assert(l[b] == r);
                        assert(has_source(es, r, parent, d, i1 as int));
                        let j = choose|j: int| row_source(es, r, parent, d, i1 as int, j);
                        if r.pid == e.pid {
                            assert(es[j].pid == es[i as int].pid);
                            assert(j == i);
                            lemma_root_distance_unique(es, i as int, d, r.depth);
                            assert(ancestor(es, j, 0) == j);
                        }
                    }
                } else if a < 1 + sub.len() {
                    let ra = sub[a - 1];
                    assert(l[a] == ra);
                    if b < 1 + sub.len() {
                        assert(l[b] == sub[b - 1]);
                    } else {
                        let rb = rest[b - 1 - sub.len()];
                        assert(l[b] == rb);
                        assert(has_source(es, ra, Some(e.pid), d1, 0));
                        let ja = choose|j: int| row_source(es, ra, Some(e.pid), d1, 0, j);
                        lemma_subtree_ancestor(es, e.pid, d, i as int, ra, ja);
                        assert(has_source(es, rb, parent, d, i1 as int));
                        let jb = choose|j: int| row_source(es, rb, parent, d, i1 as int, j);
                        if ra.pid == rb.pid {
                            assert(es[ja].pid == es[jb].pid);
                            assert(ja == jb);
                            lemma_root_distance_unique(es, ja, ra.depth, rb.depth);
                        }
                    }
                } else {
                    assert(l[a] == rest[a - 1 - sub.len()]);
                    assert(l[b] == rest[b - 1 - sub.len()]);
                }
            }
        } else {
            assert(l == rest);
        }
    }
}

/// Some entry has the row's process id and is at distance `row.depth` from
/// a process without parent.
pub open spec fn comes_from_entry(es: Seq<EntryView>, row: RowView) -> bool {
    exists|j: int| 0 <= j < es.len() && es[j].pid == row.pid && #[trigger] root_distance(es, j, row.depth)
}

/// With distinct process ids, the tree view shows each process at most
/// once, and every row comes from an entry of the snapshot whose ancestry
/// reaches a process without parent in exactly the row's depth.
pub proof fn lemma_tree_rows_distinct(es: Seq<EntryView>, collapsed: Set<u32>)
    requires
        distinct_pids(es),
    ensures
        forall|a: int, b: int| 0 <= a < b < tree_rows(es, collapsed).len() ==>
            (#[trigger] tree_rows(es, collapsed)[a]).pid != (#[trigger] tree_rows(es, collapsed)[b]).pid,
        forall|t: int| 0 <= t < tree_rows(es, collapsed).len() ==> comes_from_entry(es, #[trigger] tree_rows(es, collapsed)[t]),
{
    lemma_level_distinct(es, None, 0, collapsed, es.len(), 0);
    lemma_level_sources(es, None, 0, collapsed, es.len(), 0);
    let l = tree_rows(es, collapsed);
    assert forall|t: int| 0 <= t < l.len() implies comes_from_entry(es, #[trigger] l[t]) by {
        assert(has_source(es, l[t], None, 0, 0));
        let j = choose|j: int| row_source(es, l[t], None, 0, 0, j);
        assert(0 <= j < es.len() && es[j].pid == l[t].pid && root_distance(es, j, l[t].depth));
    }
}

proof fn lemma_search_hits_len(es: Seq<EntryView>, query_lower: Seq<char>)
    ensures
        search_hits(es, query_lower).len() <= es.len(),
    decreases es.len(),
{
    if es.len() > 0 {
        lemma_search_hits_len(es.drop_last(), query_lower);
    }
}

proof fn lemma_tree_rows_len(es: Seq<EntryView>, collapsed: Set<u32>)
    requires
        distinct_pids(es),
    ensures
        tree_rows(es, collapsed).len() <= es.len(),
{
    broadcast use vstd::seq_lib::seq_to_set_is_finite;
    lemma_tree_rows_distinct(es, collapsed);
    let rows = tree_rows(es, collapsed);
    let row_pids = rows.map_values(|r: RowView| r.pid);
    let entry_pids = es.map_values(|e: EntryView| e.pid);
    assert forall|a: int, b: int| 0 <= a < row_pids.len() && 0 <= b < row_pids.len() && a != b
        implies row_pids[a] != row_pids[b] by {
        if a < b {
            assert(rows[a].pid != rows[b].pid);
        } else {
            assert(rows[b].pid != rows[a].pid);
        }
    }
    assert(row_pids.no_duplicates());
    row_pids.unique_seq_to_set();
    entry_pids.lemma_cardinality_of_set();
    assert forall|x: u32| row_pids.to_set().contains(x) implies entry_pids.to_set().contains(x) by {
        assert(row_pids.contains(x));
        let t = choose|t: int| 0 <= t < row_pids.len() && row_pids[t] == x;
        assert(comes_from_entry(es, rows[t]));
        let j = choose|j: int| 0 <= j < es.len() && es[j].pid == rows[t].pid && #[trigger] root_distance(es, j, rows[t].depth);
        assert(entry_pids[j] == x);
        assert(entry_pids.contains(x));
    }
    lemma_len_subset(row_pids.to_set(), entry_pids.to_set());
}

/// With distinct process ids, the process table never has more rows than
/// the snapshot has processes, whatever the layout, search or collapsed set.
pub proof fn lemma_table_rows_bounded(es: Seq<EntryView>, searching: bool, query: Seq<char>, flat: bool, collapsed: Set<u32>)
    requires
        distinct_pids(es),
    ensures
        table_rows(es, searching, query, flat, collapsed).len() <= es.len(),
{
    if searching && query.len() > 0 {
        let hits = search_hits(es, lowercased(query));
        lemma_search_hits_len(es, lowercased(query));
        lemma_ranked_rows_sorted_and_complete(hits);
    } else if flat {
        lemma_ranked_rows_sorted_and_complete(es);
    } else {
        lemma_tree_rows_len(es, collapsed);
    }
}

/// `row` is the tree-view row of entry `j`: the same process, the children
/// flag set exactly when some entry names it as parent, and the command made
/// of two spaces per level, a branch mark below the top level, `[+] ` for a
/// collapsed parent, `[-] ` for an expanded one or ` *  ` for a process
/// without children, and then the process name.
pub open spec fn displays_entry(es: Seq<EntryView>, collapsed: Set<u32>, row: RowView, j: int) -> bool {
    let e = es[j];
    let kids = exists|k: int| 0 <= k < es.len() && #[trigger] es[k].parent == Some(e.pid);
    &&& 0 <= j < es.len()
    &&& row.pid == e.pid
    &&& row.has_children == kids
    &&& row.display_command == spaces(2 * row.depth)
        + (if row.depth > 0 { "└─ "@ } else { Seq::<char>::empty() })
        + (if kids { if collapsed.contains(e.pid) { "[+] "@ } else { "[-] "@ } } else { " *  "@ })
        + e.name
}

/// `row` is the tree-view row of some entry of `es`.
pub open spec fn displays_some_entry(es: Seq<EntryView>, collapsed: Set<u32>, row: RowView) -> bool {
    exists|j: int| #[trigger] displays_entry(es, collapsed, row, j)
}

proof fn lemma_level_rows_display(es: Seq<EntryView>, parent: Option<u32>, d: nat, collapsed: Set<u32>, fuel: nat, i: nat)
    ensures
        forall|t: int| 0 <= t < tree_level(es, parent, d, collapsed, fuel, i).len() ==>
            displays_some_entry(es, collapsed, #[trigger] tree_level(es, parent, d, collapsed, fuel, i)[t]),
    decreases fuel, es.len() - i,
{
    let l = tree_level(es, parent, d, collapsed, fuel, i);
    if i < es.len() {
        let rest = tree_level(es, parent, d, collapsed, fuel, i + 1);
        lemma_level_rows_display(es, parent, d, collapsed, fuel, i + 1);
        if es[i as int].parent == parent {
            let e = es[i as int];
            let hc = has_child(es, e.pid);
            let col = collapsed.contains(e.pid);
            let row = row_for(e, d, hc, tree_command(e.name, d, hc, col));
            let sub = if hc && !col && fuel > 0 {
                tree_level(es, Some(e.pid), d + 1, collapsed, (fuel - 1) as nat, 0)
            } else {
                Seq::empty()
            };
            if hc && !col && fuel > 0 {
                lemma_level_rows_display(es, Some(e.pid), d + 1, collapsed, (fuel - 1) as nat, 0);
            }
            assert(l == seq![row] + sub + rest);
            assert(displays_entry(es, collapsed, row, i as int));
            assert forall|t: int| 0 <= t < l.len() implies displays_some_entry(es, collapsed, #[trigger] l[t]) by {
                if t == 0 {
                    assert(l[t] == row);
                    assert(displays_entry(es, collapsed, l[t], i as int));
                } else if t < 1 + sub.len() {
                    assert(l[t] == sub[t - 1]);
                } else {
                    assert(l[t] == rest[t - 1 - sub.len()]);
                }
            }
        } else {
            assert(l == rest);
        }
    }
}

/// Every row of the tree view shows a process of the snapshot with its
/// name, indented two spaces per level, a branch mark below the top level,
/// and the marker `[+] ` when it has children and is collapsed, `[-] ` when
/// it has children and is expanded, ` *  ` when it has none.
pub proof fn lemma_tree_rows_display(es: Seq<EntryView>, collapsed: Set<u32>)
    ensures
        forall|t: int| 0 <= t < tree_rows(es, collapsed).len() ==>
            displays_some_entry(es, collapsed, #[trigger] tree_rows(es, collapsed)[t]),
{
    lemma_level_rows_display(es, None, 0, collapsed, es.len(), 0);
}

} // verus!
