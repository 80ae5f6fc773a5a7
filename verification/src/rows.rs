//! The rows of the process table: the tree view, the flat view (all
//! processes by CPU usage) and the search view (matching processes by CPU
//! usage).

use vstd::prelude::*;
use crate::text::{
    decimal, spaces, contains_text, lowercased, to_lowercase, chars_of, contains_chars,
    decimal_string,
};
use crate::process::{ProcessEntry, EntryView, entry_views, opt_text};
use crate::ordering::{rank_order, is_index_permutation, order_by_rank_desc, lemma_rank_order_is_stable_sort};
use vstd::string::StringExecFns;
use std::collections::HashMap;

verus! {

broadcast use vstd::std_specs::hash::group_hash_axioms;

/// One line of the process table. Usage figures that are fractional (CPU
/// and memory percentages) are not part of the row; `cpu_rank` and
/// `mem_val` stand for them.
pub struct FlatRow {
    pub pid: u32,
    pub started: String,
    pub pid_str: String,
    pub elapsed: String,
    pub ni: String,
    pub pgrp: String,
    pub tt: String,
    pub ruser: String,
    pub euser: String,
    pub fuser: String,
    pub display_command: String,
    pub cpu_rank: u32,
    pub mem_val: u64,
    pub depth: usize,
    pub has_children: bool,
}

/// Mathematical view of a [`FlatRow`].
pub struct RowView {
    pub pid: u32,
    pub started: Seq<char>,
    pub pid_str: Seq<char>,
    pub elapsed: Seq<char>,
    pub ni: Seq<char>,
    pub pgrp: Seq<char>,
    pub tt: Seq<char>,
    pub ruser: Seq<char>,
    pub euser: Seq<char>,
    pub fuser: Seq<char>,
    pub display_command: Seq<char>,
    pub cpu_rank: u32,
    pub mem_val: u64,
    pub depth: nat,
    pub has_children: bool,
}

impl View for FlatRow {
    type V = RowView;

    open spec fn view(&self) -> RowView {
        RowView {
            pid: self.pid,
            started: self.started@,
            pid_str: self.pid_str@,
            elapsed: self.elapsed@,
            ni: self.ni@,
            pgrp: self.pgrp@,
            tt: self.tt@,
            ruser: self.ruser@,
            euser: self.euser@,
            fuser: self.fuser@,
            display_command: self.display_command@,
            cpu_rank: self.cpu_rank,
            mem_val: self.mem_val,
            depth: self.depth as nat,
            has_children: self.has_children,
        }
    }
}

/// The views of a list of rows.
pub open spec fn row_views(v: Seq<FlatRow>) -> Seq<RowView> {
    v.map_values(|r: FlatRow| r@)
}

/// The owner shown for a process: its user id, or `user` when unknown.
pub open spec fn user_label(u: Option<Seq<char>>) -> Seq<char> {
    match u {
        Some(s) => s,
        None => "user"@,
    }
}

/// The row for entry `e` at tree depth `depth` with the given command text.
pub open spec fn row_for(e: EntryView, depth: nat, has_children: bool, command: Seq<char>) -> RowView {
    RowView {
        pid: e.pid,
        started: "00:00"@,
        pid_str: decimal(e.pid as nat),
        elapsed: "00:00"@,
        ni: "0"@,
        pgrp: "0"@,
        tt: "-"@,
        ruser: user_label(e.user),
        euser: user_label(e.user),
        fuser: "-"@,
        display_command: command,
        cpu_rank: e.cpu_rank,
        mem_val: e.memory,
        depth,
        has_children,
    }
}

/// Command text in the flat and search views.
pub open spec fn flat_command(name: Seq<char>) -> Seq<char> {
    "- "@ + name
}

/// Marker before a name in the tree view: `[+] ` for a collapsed parent,
/// `[-] ` for an expanded one, ` *  ` for a process without children.
pub open spec fn tree_marker(has_children: bool, collapsed: bool) -> Seq<char> {
    if has_children {
        if collapsed { "[+] "@ } else { "[-] "@ }
    } else {
        " *  "@
    }
}

/// Command text in the tree view: two spaces per level, a branch mark below
/// the top level, the marker, then the name.
pub open spec fn tree_command(name: Seq<char>, depth: nat, has_children: bool, collapsed: bool) -> Seq<char> {
    spaces(2 * depth) + (if depth > 0 { "└─ "@ } else { Seq::<char>::empty() }) + tree_marker(has_children, collapsed) + name
}

/// Some entry of `es` has `pid` as its parent.
pub open spec fn has_child(es: Seq<EntryView>, pid: u32) -> bool {
    exists|j: int| 0 <= j < es.len() && #[trigger] es[j].parent == Some(pid)
}

/// Rows of the tree view for the children of `parent` from index `i` on, at
/// depth `depth`, each followed by its own subtree unless it is collapsed.
/// `fuel` bounds how many more levels are expanded.
pub open spec fn tree_level(es: Seq<EntryView>, parent: Option<u32>, depth: nat, collapsed: Set<u32>, fuel: nat, i: nat) -> Seq<RowView>
    decreases fuel, es.len() - i,
{
    if i >= es.len() {
        Seq::empty()
    } else {
        let rest = tree_level(es, parent, depth, collapsed, fuel, i + 1);
        if es[i as int].parent == parent {
            let e = es[i as int];
            let hc = has_child(es, e.pid);
            let col = collapsed.contains(e.pid);
            let row = row_for(e, depth, hc, tree_command(e.name, depth, hc, col));
            let sub = if hc && !col && fuel > 0 {
                tree_level(es, Some(e.pid), depth + 1, collapsed, (fuel - 1) as nat, 0)
            } else {
                Seq::empty()
            };
            seq![row] + sub + rest
        } else {
            rest
        }
    }
}

/// Rows of the tree view: the processes without a parent, each followed by
/// its expanded descendants, depth first, in snapshot order.
pub open spec fn tree_rows(es: Seq<EntryView>, collapsed: Set<u32>) -> Seq<RowView> {
    tree_level(es, None, 0, collapsed, es.len(), 0)
}

/// Ranks of the entries.
pub open spec fn ranks_of(es: Seq<EntryView>) -> Seq<u32> {
    es.map_values(|e: EntryView| e.cpu_rank)
}

/// Rows of the flat view of `es`: every entry, highest rank first, ties in
/// snapshot order.
pub open spec fn ranked_rows(es: Seq<EntryView>) -> Seq<RowView> {
    rank_order(ranks_of(es), es.len()).map_values(|i: int| row_for(es[i], 0, false, flat_command(es[i].name)))
}

/// An entry matches a lower-cased query when its lower-cased name or its
/// process id contains the query.
pub open spec fn search_hit(e: EntryView, query_lower: Seq<char>) -> bool {
    contains_text(lowercased(e.name), query_lower) || contains_text(decimal(e.pid as nat), query_lower)
}

/// The entries that match the lower-cased query, in order.
pub open spec fn search_hits(es: Seq<EntryView>, query_lower: Seq<char>) -> Seq<EntryView>
    decreases es.len(),
{
    if es.len() == 0 {
        Seq::empty()
    } else {
        let rest = search_hits(es.drop_last(), query_lower);
        if search_hit(es.last(), query_lower) {
            rest.push(es.last())
        } else {
            rest
        }
    }
}

/// Rows of the process table for the given view settings: with a search
/// under way and a non-empty query, the matching entries by rank; in flat
/// mode all entries by rank; otherwise the tree.
pub open spec fn table_rows(es: Seq<EntryView>, searching: bool, query: Seq<char>, flat: bool, collapsed: Set<u32>) -> Seq<RowView> {
    if searching && query.len() > 0 {
        ranked_rows(search_hits(es, lowercased(query)))
    } else if flat {
        ranked_rows(es)
    } else {
        tree_rows(es, collapsed)
    }
}

/// The flat view lists every entry exactly once, in non-increasing order of
/// CPU rank.
pub proof fn lemma_ranked_rows_sorted_and_complete(es: Seq<EntryView>)
    ensures
        ranked_rows(es).len() == es.len(),
        forall|a: int, b: int| 0 <= a < b < es.len() ==>
            (#[trigger] ranked_rows(es)[a]).cpu_rank >= (#[trigger] ranked_rows(es)[b]).cpu_rank,
        forall|i: int| 0 <= i < es.len() ==> exists|k: int| 0 <= k < es.len()
            && #[trigger] ranked_rows(es)[k] == row_for(#[trigger] es[i], 0, false, flat_command(es[i].name)),
{
    let ranks = ranks_of(es);
    lemma_rank_order_is_stable_sort(ranks, es.len());
    let o = rank_order(ranks, es.len());
    let rows = ranked_rows(es);
    assert forall|a: int, b: int| 0 <= a < b < es.len() implies (#[trigger] rows[a]).cpu_rank >= (#[trigger] rows[b]).cpu_rank by {
        assert(ranks[o[a]] > ranks[o[b]] || ranks[o[a]] == ranks[o[b]]);
        assert(ranks[o[a]] == es[o[a]].cpu_rank);
        assert(ranks[o[b]] == es[o[b]].cpu_rank);
    }
    assert forall|i: int| 0 <= i < es.len() implies exists|k: int| 0 <= k < es.len()
        && #[trigger] rows[k] == row_for(#[trigger] es[i], 0, false, flat_command(es[i].name)) by {
        assert(o.contains(i));
        let k = choose|k: int| 0 <= k < o.len() && o[k] == i;
        assert(rows[k] == row_for(es[i], 0, false, flat_command(es[i].name)));
    }
}

/// The search view keeps exactly the entries that match the query: every
/// kept entry matches and comes from the snapshot, every matching entry of
/// the snapshot is kept.
pub proof fn lemma_search_hits_exact(es: Seq<EntryView>, query_lower: Seq<char>)
    ensures
        forall|k: int| 0 <= k < search_hits(es, query_lower).len() ==>
            search_hit(#[trigger] search_hits(es, query_lower)[k], query_lower)
            && es.contains(search_hits(es, query_lower)[k]),
        forall|i: int| 0 <= i < es.len() && search_hit(#[trigger] es[i], query_lower) ==>
            search_hits(es, query_lower).contains(es[i]),
    decreases es.len(),
{
    if es.len() > 0 {
        let init = es.drop_last();
        lemma_search_hits_exact(init, query_lower);
        let h = search_hits(es, query_lower);
        let hi = search_hits(init, query_lower);
        assert forall|k: int| 0 <= k < h.len() implies search_hit(#[trigger] h[k], query_lower) && es.contains(h[k]) by {
            if k < hi.len() {
                assert(h[k] == hi[k]);
                assert(init.contains(hi[k]));
                let j = choose|j: int| 0 <= j < init.len() && init[j] == hi[k];
                assert(es[j] == init[j]);
            } else {
                assert(h[k] == es.last());
                assert(es[es.len() - 1] == es.last());
            }
        }
        assert forall|i: int| 0 <= i < es.len() && search_hit(#[trigger] es[i], query_lower) implies h.contains(es[i]) by {
            if i < es.len() - 1 {
                assert(init[i] == es[i]);
                assert(hi.contains(es[i]));
                let k = choose|k: int| 0 <= k < hi.len() && hi[k] == es[i];
                assert(h[k] == hi[k]);
            } else {
                assert(h[h.len() - 1] == es.last());
            }
        }
    }
}

/// `needle` appears in `hay` at some position, the end included.
pub open spec fn occurs_in(hay: Seq<char>, needle: Seq<char>) -> bool {
    exists|s: int| 0 <= s && s + needle.len() <= hay.len() && #[trigger] hay.subrange(s, s + needle.len()) == needle
}

/// The search keeps a process exactly when the lower-cased query appears
/// anywhere in its lower-cased name or in its decimal process id; so a
/// process whose lower-cased name or id is the lower-cased query is always
/// found, and while a non-empty query is searched the table shows a row for
/// every process found.
pub proof fn lemma_search_finds_exactly_the_matches(es: Seq<EntryView>, query: Seq<char>, flat: bool, collapsed: Set<u32>)
    ensures
        forall|i: int| 0 <= i < es.len() ==>
            (search_hits(es, lowercased(query)).contains(#[trigger] es[i])
                <==> (occurs_in(lowercased(es[i].name), lowercased(query)) || occurs_in(decimal(es[i].pid as nat), lowercased(query)))),
        forall|i: int| 0 <= i < es.len() && (lowercased(#[trigger] es[i].name) == lowercased(query) || decimal(es[i].pid as nat) == lowercased(query))
            ==> search_hits(es, lowercased(query)).contains(es[i]),
        query.len() > 0 ==> forall|i: int| 0 <= i < es.len()
            && (occurs_in(lowercased(#[trigger] es[i].name), lowercased(query)) || occurs_in(decimal(es[i].pid as nat), lowercased(query)))
            ==> exists|k: int| 0 <= k < table_rows(es, true, query, flat, collapsed).len()
                && (#[trigger] table_rows(es, true, query, flat, collapsed)[k]).pid == es[i].pid,
{
    let q = lowercased(query);
    let hits = search_hits(es, q);
    lemma_search_hits_exact(es, q);
    lemma_ranked_rows_sorted_and_complete(hits);
    assert forall|t: Seq<char>| #[trigger] occurs_in(t, q) == contains_text(t, q) by {
        if occurs_in(t, q) {
            let s = choose|s: int| 0 <= s && s + q.len() <= t.len() && #[trigger] t.subrange(s, s + q.len()) == q;
            assert(t.subrange(s, s + q.len()) == q);
        }
        if contains_text(t, q) {
            let s = choose|s: int| 0 <= s <= t.len() - q.len() && #[trigger] t.subrange(s, s + q.len()) == q;
            assert(t.subrange(s, s + q.len()) == q);
        }
    }
    assert forall|t: Seq<char>| t == q implies #[trigger] contains_text(t, q) by {
        let z: int = 0;
        assert(t.subrange(z, z + q.len()) =~= q);
    }
    assert forall|i: int| 0 <= i < es.len() implies
        (hits.contains(#[trigger] es[i]) <==> search_hit(es[i], q)) by {
        if hits.contains(es[i]) {
            let k = choose|k: int| 0 <= k < hits.len() && hits[k] == es[i];
            assert(search_hit(hits[k], q));
        }
    }
    assert forall|i: int| 0 <= i < es.len() && (lowercased(#[trigger] es[i].name) == q || decimal(es[i].pid as nat) == q)
        implies hits.contains(es[i]) by {
        assert(contains_text(lowercased(es[i].name), q) || contains_text(decimal(es[i].pid as nat), q));
    }
    if query.len() > 0 {
        let rows = table_rows(es, true, query, flat, collapsed);
        assert(rows == ranked_rows(hits));
        assert forall|i: int| 0 <= i < es.len()
            && (occurs_in(lowercased(#[trigger] es[i].name), q) || occurs_in(decimal(es[i].pid as nat), q))
            implies exists|k: int| 0 <= k < rows.len() && (#[trigger] rows[k]).pid == es[i].pid by {
            assert(hits.contains(es[i]));
            let j = choose|j: int| 0 <= j < hits.len() && hits[j] == es[i];
            let k = choose|k: int| 0 <= k < hits.len()
                && #[trigger] ranked_rows(hits)[k] == row_for(#[trigger] hits[j], 0, false, flat_command(hits[j].name));
            assert(rows[k].pid == es[i].pid);
        }
    }
}

fn text(s: &str) -> (r: String)
    ensures
        r@ == s@,
{
    String::from_str(s)
}

fn owner_label(u: &Option<String>) -> (r: String)
    ensures
        r@ == user_label(opt_text(*u)),
{
    match u {
        Some(s) => s.clone(),
        None => text("user"),
    }
}

/// The row for `e` at `depth` with the given command text.
pub fn make_row(e: &ProcessEntry, depth: usize, has_children: bool, command: String) -> (r: FlatRow)
    ensures
        r@ == row_for(e@, depth as nat, has_children, command@),
{
    FlatRow {
        pid: e.pid,
        started: text("00:00"),
        pid_str: decimal_string(e.pid as u64),
        elapsed: text("00:00"),
        ni: text("0"),
        pgrp: text("0"),
        tt: text("-"),
        ruser: owner_label(&e.user),
        euser: owner_label(&e.user),
        fuser: text("-"),
        display_command: command,
        cpu_rank: e.cpu_rank,
        mem_val: e.memory,
        depth,
        has_children,
    }
}

/// Command text of the flat and search views.
pub fn flat_command_text(name: &str) -> (r: String)
    ensures
        r@ == flat_command(name@),
{
    let mut s = text("- ");
    s.append(name);
    s
}

/// Command text of the tree view.
pub fn tree_command_text(name: &str, depth: usize, has_children: bool, collapsed: bool) -> (r: String)
    ensures
        r@ == tree_command(name@, depth as nat, has_children, collapsed),
{
    let mut s = String::new();
    let mut level: usize = 0;
    while level < depth
        invariant
            level <= depth,
            s@ == spaces(2 * level as nat),
        decreases depth - level,
    {
        s.append("  ");
        proof { reveal_strlit("  "); }
        level = level + 1;
        assert(s@ =~= spaces(2 * level as nat));
    }
    if depth > 0 {
        s.append("└─ ");
    }
    let marker = if has_children {
        if collapsed { "[+] " } else { "[-] " }
    } else {
        " *  "
    };
    s.append(marker);
    s.append(name);
    assert(s@ =~= tree_command(name@, depth as nat, has_children, collapsed));
    s
}

/// Indices of the entries before position `j` whose parent is `parent`, in
/// snapshot order.
pub open spec fn child_indices(es: Seq<EntryView>, parent: Option<u32>, j: int) -> Seq<usize>
    decreases j,
{
    if j <= 0 {
        Seq::empty()
    } else {
        let prev = child_indices(es, parent, j - 1);
        if es[j - 1].parent == parent {
            prev.push((j - 1) as usize)
        } else {
            prev
        }
    }
}

/// The listed indices are exactly the matching positions before `j`, in
/// increasing order.
proof fn lemma_child_indices(es: Seq<EntryView>, parent: Option<u32>, j: int)
    requires
        0 <= j <= es.len(),
        es.len() <= usize::MAX,
    ensures
        forall|t: int| 0 <= t < child_indices(es, parent, j).len() ==>
            #[trigger] child_indices(es, parent, j)[t] < j && es[child_indices(es, parent, j)[t] as int].parent == parent,
        forall|a: int, b: int| 0 <= a < b < child_indices(es, parent, j).len() ==>
            #[trigger] child_indices(es, parent, j)[a] < #[trigger] child_indices(es, parent, j)[b],
        forall|k: int| 0 <= k < j && #[trigger] es[k].parent == parent ==>
            exists|t: int| 0 <= t < child_indices(es, parent, j).len() && child_indices(es, parent, j)[t] == k,
    decreases j,
{
    if j > 0 {
        lemma_child_indices(es, parent, j - 1);
        let prev = child_indices(es, parent, j - 1);
        let l = child_indices(es, parent, j);
        if es[j - 1].parent == parent {
            assert(l[prev.len() as int] == j - 1);
            assert forall|k: int| 0 <= k < j && #[trigger] es[k].parent == parent implies
                exists|t: int| 0 <= t < l.len() && l[t] == k by {
                if k < j - 1 {
                    let t = choose|t: int| 0 <= t < prev.len() && prev[t] == k;
                    assert(l[t] == k);
                } else {
                    assert(l[prev.len() as int] == k);
                }
            }
        } else {
            assert forall|k: int| 0 <= k < j && #[trigger] es[k].parent == parent implies
                exists|t: int| 0 <= t < l.len() && l[t] == k by {
                let t = choose|t: int| 0 <= t < prev.len() && prev[t] == k;
                assert(l[t] == k);
            }
        }
    }
}

/// Positions from `i` to `j` without a child of `parent` add no rows.
proof fn lemma_level_skip(es: Seq<EntryView>, parent: Option<u32>, depth: nat, collapsed: Set<u32>, fuel: nat, i: nat, j: nat)
    requires
        i <= j <= es.len(),
        forall|k: int| i <= k < j ==> (#[trigger] es[k]).parent != parent,
    ensures
        tree_level(es, parent, depth, collapsed, fuel, i) == tree_level(es, parent, depth, collapsed, fuel, j),
    decreases j - i,
{
    if i < j {
        assert(es[i as int].parent != parent);
        lemma_level_skip(es, parent, depth, collapsed, fuel, i + 1, j);
    }
}

/// The position of the `t`-th child of `parent`, or the end of the snapshot.
spec fn next_child(es: Seq<EntryView>, parent: Option<u32>, t: int) -> nat {
    let l = child_indices(es, parent, es.len() as int);
    if t < l.len() { l[t] as nat } else { es.len() }
}

/// The rows of a level from just after its `t`-th child (from the start when
/// `t` is 0) are those from its next child on.
proof fn lemma_level_at_next(es: Seq<EntryView>, parent: Option<u32>, depth: nat, collapsed: Set<u32>, fuel: nat, t: int)
    requires
        es.len() <= usize::MAX,
        0 <= t <= child_indices(es, parent, es.len() as int).len(),
    ensures
        tree_level(es, parent, depth, collapsed, fuel,
            if t == 0 { 0nat } else { (child_indices(es, parent, es.len() as int)[t - 1] + 1) as nat })
            == tree_level(es, parent, depth, collapsed, fuel, next_child(es, parent, t)),
{
    let n = es.len() as int;
    let l = child_indices(es, parent, n);
    lemma_child_indices(es, parent, n);
    let lo: nat = if t == 0 { 0nat } else { (l[t - 1] + 1) as nat };
    let hi = next_child(es, parent, t);
    if t > 0 && t < l.len() {
        assert(l[t - 1] < l[t]);
    }
    assert forall|k: int| lo <= k < hi implies (#[trigger] es[k]).parent != parent by {
        if es[k].parent == parent {
            let s = choose|s: int| 0 <= s < l.len() && l[s] == k;
            if s < t {
                if s < t - 1 {
                    assert(l[s] < l[t - 1]);
                }
            } else if s > t {
                assert(l[t] < l[s]);
            }
        }
    }
    lemma_level_skip(es, parent, depth, collapsed, fuel, lo, hi);
}

/// For each process id that some entry names as parent, the indices of
/// those entries in snapshot order; and the indices of the entries without
/// a parent.
pub struct ChildIndex {
    pub roots: Vec<usize>,
    pub by_parent: HashMap<u32, Vec<usize>>,
}

/// `idx` lists the children of every process of `es`, in snapshot order.
pub open spec fn indexes_children(idx: &ChildIndex, es: Seq<EntryView>) -> bool {
    &&& idx.roots@ == child_indices(es, None, es.len() as int)
    &&& forall|p: u32| #[trigger] idx.by_parent@.contains_key(p) <==> has_child(es, p)
    &&& forall|p: u32| #[trigger] idx.by_parent@.contains_key(p) ==>
        idx.by_parent@[p]@ == child_indices(es, Some(p), es.len() as int)
}

/// Groups the entries by parent, as the tree view walks them.
pub fn index_children(es: &Vec<ProcessEntry>) -> (idx: ChildIndex)
    ensures
        indexes_children(&idx, entry_views(es@)),
{
    let ghost ev = entry_views(es@);
    let n = es.len();
    let mut roots: Vec<usize> = Vec::new();
    let mut by_parent: HashMap<u32, Vec<usize>> = HashMap::new();
    let mut j: usize = 0;
    while j < n
        invariant
            n == es@.len(),
            ev == entry_views(es@),
            j <= n,
            roots@ == child_indices(ev, None, j as int),
            forall|p: u32| #[trigger] by_parent@.contains_key(p) <==>
                exists|k: int| 0 <= k < j && #[trigger] ev[k].parent == Some(p),
            forall|p: u32| #[trigger] by_parent@.contains_key(p) ==>
                by_parent@[p]@ == child_indices(ev, Some(p), j as int),
        decreases n - j,
    {
        let ghost old_map = by_parent@;
        assert(ev[j as int] == es@[j as int]@);
        match es[j].parent {
            None => {
                roots.push(j);
            },
            Some(p) => {
                let mut list = match by_parent.remove(&p) {
                    Some(l) => l,
                    None => Vec::new(),
                };
                proof {
                    if !old_map.contains_key(p) {
                        lemma_child_indices(ev, Some(p), j as int);
                        if child_indices(ev, Some(p), j as int).len() > 0 {
                            let k = child_indices(ev, Some(p), j as int)[0] as int;
                            assert(ev[k].parent == Some(p));
                        }
                        assert(list@ =~= child_indices(ev, Some(p), j as int));
                    }
                }
                list.push(j);
                by_parent.insert(p, list);
            },
        }
        proof {
            let j1 = (j + 1) as int;
            assert forall|q: u32| #[trigger] by_parent@.contains_key(q) <==>
                exists|k: int| 0 <= k < j1 && #[trigger] ev[k].parent == Some(q) by {
                if by_parent@.contains_key(q) && ev[j as int].parent != Some(q) {
                    assert(old_map.contains_key(q));
                }
                if exists|k: int| 0 <= k < j1 && #[trigger] ev[k].parent == Some(q) {
                    let k = choose|k: int| 0 <= k < j1 && #[trigger] ev[k].parent == Some(q);
                    if k < j {
                        assert(old_map.contains_key(q));
                    }
                }
            }
            assert forall|q: u32| #[trigger] by_parent@.contains_key(q) implies
                by_parent@[q]@ == child_indices(ev, Some(q), j1) by {
                if ev[j as int].parent != Some(q) {
                    assert(old_map.contains_key(q));
                }
            }
        }
        j = j + 1;
    }
    proof {
        assert forall|p: u32| #[trigger] by_parent@.contains_key(p) <==> has_child(ev, p) by {
            if has_child(ev, p) {
                let k = choose|k: int| 0 <= k < ev.len() && #[trigger] ev[k].parent == Some(p);
                assert(by_parent@.contains_key(p));
            }
        }
    }
    ChildIndex { roots, by_parent }
}

fn push_tree_level(
    es: &Vec<ProcessEntry>,
    idx: &ChildIndex,
    parent: Option<u32>,
    depth: usize,
    collapsed: &std::collections::HashSet<u32>,
    fuel: usize,
    out: &mut Vec<FlatRow>,
)
    requires
        indexes_children(idx, entry_views(es@)),
        depth + fuel <= es@.len(),
    ensures
        row_views(final(out)@) == row_views(old(out)@) + tree_level(entry_views(es@), parent, depth as nat, collapsed@, fuel as nat, 0),
    decreases fuel,
{
    let ghost ev = entry_views(es@);
    let ghost start = row_views(out@);
    let ghost l = child_indices(ev, parent, ev.len() as int);
    let n = es.len();
    let list: &Vec<usize> = match parent {
        None => &idx.roots,
        Some(p) => match idx.by_parent.get(&p) {
            Some(v) => v,
            None => {
                proof {
                    assert forall|k: int| 0 <= k < n implies (#[trigger] ev[k]).parent != parent by {
                        if ev[k].parent == parent {
                            assert(has_child(ev, p));
                        }
                    }
                    lemma_level_skip(ev, parent, depth as nat, collapsed@, fuel as nat, 0, n as nat);
                    assert(tree_level(ev, parent, depth as nat, collapsed@, fuel as nat, n as nat) =~= Seq::<RowView>::empty());
                }
                assert(row_views(out@) =~= start + tree_level(ev, parent, depth as nat, collapsed@, fuel as nat, 0));
                return;
            },
        },
    };
    assert(list@ == l);
    proof {
        lemma_child_indices(ev, parent, n as int);
        lemma_level_at_next(ev, parent, depth as nat, collapsed@, fuel as nat, 0);
    }
    let mut t: usize = 0;
    while t < list.len()
        invariant
            n == es@.len(),
            ev == entry_views(es@),
            indexes_children(idx, ev),
            depth + fuel <= es@.len(),
            l == child_indices(ev, parent, n as int),
            list@ == l,
            t <= l.len(),
            forall|q: int| 0 <= q < l.len() ==> #[trigger] l[q] < n && ev[l[q] as int].parent == parent,
            start + tree_level(ev, parent, depth as nat, collapsed@, fuel as nat, 0)
                == row_views(out@) + tree_level(ev, parent, depth as nat, collapsed@, fuel as nat, next_child(ev, parent, t as int)),
        decreases l.len() - t,
    {
        let i = list[t];
        let ghost before = row_views(out@);
        let ghost rest = tree_level(ev, parent, depth as nat, collapsed@, fuel as nat, (i + 1) as nat);
        let e = &es[i];
        assert(ev[i as int] == e@);
        let hc = idx.by_parent.contains_key(&e.pid);
        assert(hc == has_child(ev, e@.pid));
        let col = collapsed.contains(&e.pid);
        let command = tree_command_text(e.name.as_str(), depth, hc, col);
        let row = make_row(e, depth, hc, command);
        out.push(row);
        assert(row_views(out@) =~= before.push(row@));
        if hc && !col && fuel > 0 {
            push_tree_level(es, idx, Some(e.pid), depth + 1, collapsed, fuel - 1, out);
        }
        proof {
            let sub = if hc && !col && fuel > 0 {
                tree_level(ev, Some(e@.pid), (depth + 1) as nat, collapsed@, (fuel - 1) as nat, 0)
            } else {
                Seq::<RowView>::empty()
            };
            assert(row_views(out@) =~= before + seq![row@] + sub);
            assert(next_child(ev, parent, t as int) == i);
            assert(tree_level(ev, parent, depth as nat, collapsed@, fuel as nat, i as nat) == seq![row@] + sub + rest);
            lemma_level_at_next(ev, parent, depth as nat, collapsed@, fuel as nat, t + 1);
            assert(before + tree_level(ev, parent, depth as nat, collapsed@, fuel as nat, i as nat) =~= row_views(out@) + rest);
        }
        t = t + 1;
    }
    assert(tree_level(ev, parent, depth as nat, collapsed@, fuel as nat, n as nat) =~= Seq::<RowView>::empty());
    assert(row_views(out@) =~= start + tree_level(ev, parent, depth as nat, collapsed@, fuel as nat, 0));
}

/// Rows of the tree view.
pub fn build_tree_rows(es: &Vec<ProcessEntry>, collapsed: &std::collections::HashSet<u32>) -> (r: Vec<FlatRow>)
    ensures
        row_views(r@) == tree_rows(entry_views(es@), collapsed@),
{
    let idx = index_children(es);
    let mut out: Vec<FlatRow> = Vec::new();
    push_tree_level(es, &idx, None, 0, collapsed, es.len(), &mut out);
    assert(row_views(out@) =~= tree_rows(entry_views(es@), collapsed@));
    out
}

/// Rows of the flat view: every entry, highest rank first, ties in order.
pub fn build_ranked_rows(es: &Vec<ProcessEntry>) -> (r: Vec<FlatRow>)
    ensures
        row_views(r@) == ranked_rows(entry_views(es@)),
{
    let ghost ev = entry_views(es@);
    let mut ranks: Vec<u32> = Vec::new();
    let mut k: usize = 0;
    while k < es.len()
        invariant
            ev == entry_views(es@),
            k <= es@.len(),
            ranks@ == ranks_of(ev).subrange(0, k as int),
        decreases es@.len() - k,
    {
        ranks.push(es[k].cpu_rank);
        k = k + 1;
        assert(ranks@ =~= ranks_of(ev).subrange(0, k as int));
    }
    assert(ranks@ =~= ranks_of(ev));
    let order = order_by_rank_desc(&ranks);
    proof {
        lemma_rank_order_is_stable_sort(ranks@, ranks@.len());
    }
    let ghost ro = rank_order(ranks_of(ev), ev.len());
    let mut out: Vec<FlatRow> = Vec::new();
    let mut t: usize = 0;
    while t < order.len()
        invariant
            ev == entry_views(es@),
            ranks@ == ranks_of(ev),
            ro == rank_order(ranks_of(ev), ev.len()),
            is_index_permutation(ro, ev.len()),
            order@.len() == ro.len(),
            forall|q: int| 0 <= q < order@.len() ==> order@[q] as int == #[trigger] ro[q],
            t <= order@.len(),
            row_views(out@) == ro.subrange(0, t as int).map_values(|i: int| row_for(ev[i], 0, false, flat_command(ev[i].name))),
        decreases order@.len() - t,
    {
        let idx = order[t];
        assert(ro[t as int] == idx as int);
        assert(0 <= ro[t as int] < ev.len());
        let e = &es[idx];
        assert(ev[idx as int] == e@);
        let command = flat_command_text(e.name.as_str());
        let row = make_row(e, 0, false, command);
        let ghost before = row_views(out@);
        out.push(row);
        proof {
            let f = |i: int| row_for(ev[i], 0, false, flat_command(ev[i].name));
            assert(ro.subrange(0, t + 1) =~= ro.subrange(0, t as int).push(ro[t as int]));
            assert(ro.subrange(0, t + 1).map_values(f) =~= ro.subrange(0, t as int).map_values(f).push(f(ro[t as int])));
            assert(row_views(out@) =~= before.push(row@));
        }
        t = t + 1;
    }
    assert(ro.subrange(0, ro.len() as int) =~= ro);
    out
}

/// The entries that match the lower-cased query, in order.
pub fn matching_processes(es: &Vec<ProcessEntry>, query_lower: &Vec<char>) -> (r: Vec<ProcessEntry>)
    ensures
        entry_views(r@) == search_hits(entry_views(es@), query_lower@),
{
    let mut r: Vec<ProcessEntry> = Vec::new();
    let mut i: usize = 0;
    while i < es.len()
        invariant
            i <= es@.len(),
            entry_views(r@) == search_hits(entry_views(es@.subrange(0, i as int)), query_lower@),
        decreases es@.len() - i,
    {
        let e = &es[i];
        let lower_name = to_lowercase(e.name.as_str());
        let name_chars = chars_of(lower_name.as_str());
        let pid_text = decimal_string(e.pid as u64);
        let pid_chars = chars_of(pid_text.as_str());
        let hit = contains_chars(&name_chars, query_lower) || contains_chars(&pid_chars, query_lower);
        proof {
            let pre = es@.subrange(0, i as int);
            let cur = es@.subrange(0, i + 1);
            assert(entry_views(cur).drop_last() =~= entry_views(pre));
            assert(entry_views(cur).last() == es@[i as int]@);
            assert(hit == search_hit(e@, query_lower@));
        }
        if hit {
            let c = e.copy();
            r.push(c);
        }
        proof {
            let cur = es@.subrange(0, i + 1);
            assert(entry_views(r@) =~= search_hits(entry_views(cur), query_lower@));
        }
        i = i + 1;
    }
    assert(es@.subrange(0, es@.len() as int) =~= es@);
    r
}

/// Rows of the process table for the given view settings (see
/// [`table_rows`]).
pub fn build_rows(
    es: &Vec<ProcessEntry>,
    searching: bool,
    query: &String,
    flat: bool,
    collapsed: &std::collections::HashSet<u32>,
) -> (r: Vec<FlatRow>)
    ensures
        row_views(r@) == table_rows(entry_views(es@), searching, query@, flat, collapsed@),
{
    if searching && query.as_str().unicode_len() > 0 {
        let q = to_lowercase(query.as_str());
        let qc = chars_of(q.as_str());
        let hits = matching_processes(es, &qc);
        build_ranked_rows(&hits)
    } else if flat {
        build_ranked_rows(es)
    } else {
        build_tree_rows(es, collapsed)
    }
}

} // verus!
