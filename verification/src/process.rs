//! One process as the monitor sees it, and the filter that hides kernel
//! worker threads from every process view.

use vstd::prelude::*;
use crate::text::{has_prefix, chars_of, starts_with_chars};

verus! {

/// A process of the current snapshot.
///
/// `cpu_rank` orders processes by CPU usage: a larger rank means more CPU,
/// equal ranks mean equal usage. `user` is the owner's user id as text, when
/// known.
pub struct ProcessEntry {
    pub pid: u32,
    pub parent: Option<u32>,
    pub name: String,
    pub cpu_rank: u32,
    pub memory: u64,
    pub user: Option<String>,
}

/// Mathematical view of a [`ProcessEntry`].
pub struct EntryView {
    pub pid: u32,
    pub parent: Option<u32>,
    pub name: Seq<char>,
    pub cpu_rank: u32,
    pub memory: u64,
    pub user: Option<Seq<char>>,
}

pub open spec fn opt_text(s: Option<String>) -> Option<Seq<char>> {
    match s {
        Some(t) => Some(t@),
        None => None,
    }
}

impl View for ProcessEntry {
    type V = EntryView;

    open spec fn view(&self) -> EntryView {
        EntryView {
            pid: self.pid,
            parent: self.parent,
            name: self.name@,
            cpu_rank: self.cpu_rank,
            memory: self.memory,
            user: opt_text(self.user),
        }
    }
}

/// The views of a list of entries.
pub open spec fn entry_views(v: Seq<ProcessEntry>) -> Seq<EntryView> {
    v.map_values(|e: ProcessEntry| e@)
}

fn copy_text(s: &Option<String>) -> (r: Option<String>)
    ensures
        opt_text(r) == opt_text(*s),
{
    match s {
        Some(t) => Some(t.clone()),
        None => None,
    }
}

impl ProcessEntry {
    /// An independent copy of this entry.
    pub fn copy(&self) -> (r: ProcessEntry)
        ensures
            r@ == self@,
    {
        ProcessEntry {
            pid: self.pid,
            parent: self.parent,
            name: self.name.clone(),
            cpu_rank: self.cpu_rank,
            memory: self.memory,
            user: copy_text(&self.user),
        }
    }
}

/// Names of kernel threads that the process views leave out: the empty name
/// and names starting with `kworker`, `kthreadd`, `ksoftirqd`, `rcu_`,
/// `migration/` or `cpuhp/`.
pub open spec fn is_hidden_name(name: Seq<char>) -> bool {
    ||| name.len() == 0
    ||| has_prefix(name, "kworker"@)
    ||| has_prefix(name, "kthreadd"@)
    ||| has_prefix(name, "ksoftirqd"@)
    ||| has_prefix(name, "rcu_"@)
    ||| has_prefix(name, "migration/"@)
    ||| has_prefix(name, "cpuhp/"@)
}

/// The entries of `es` whose names are not hidden, in order.
pub open spec fn visible_entries(es: Seq<EntryView>) -> Seq<EntryView>
    decreases es.len(),
{
    if es.len() == 0 {
        Seq::empty()
    } else {
        let rest = visible_entries(es.drop_last());
        if is_hidden_name(es.last().name) {
            rest
        } else {
            rest.push(es.last())
        }
    }
}

/// The filter keeps exactly the entries with names that are not hidden:
/// no kept entry has a hidden name, every kept entry comes from the input,
/// and every input entry with a name that is not hidden is kept.
pub proof fn lemma_visible_entries_exact(es: Seq<EntryView>)
    ensures
        forall|k: int| 0 <= k < visible_entries(es).len() ==>
            !is_hidden_name((#[trigger] visible_entries(es)[k]).name) && es.contains(visible_entries(es)[k]),
        forall|i: int| 0 <= i < es.len() && !is_hidden_name((#[trigger] es[i]).name) ==>
            visible_entries(es).contains(es[i]),
    decreases es.len(),
{
    if es.len() > 0 {
        let init = es.drop_last();
        lemma_visible_entries_exact(init);
        let h = visible_entries(es);
        let hi = visible_entries(init);
        assert forall|k: int| 0 <= k < h.len() implies !is_hidden_name((#[trigger] h[k]).name) && es.contains(h[k]) by {
            if k < hi.len() {
                assert(h[k] == hi[k]);
                assert(init.contains(hi[k]));
                let j = choose|j: int| 0 <= j < init.len() && init[j] == hi[k];
                assert(es[j] == init[j]);
            } else {
                assert(h[k] == es.last());
                assert(es[es.len() - 1] == es.last());
            }
        }
        assert forall|i: int| 0 <= i < es.len() && !is_hidden_name((#[trigger] es[i]).name) implies h.contains(es[i]) by {
            if i < es.len() - 1 {
                assert(init[i] == es[i]);
                assert(hi.contains(es[i]));
                let k = choose|k: int| 0 <= k < hi.len() && hi[k] == es[i];
                assert(h[k] == hi[k]);
            } else {
                assert(h[h.len() - 1] == es.last());
            }
        }
    }
}

/// `name` begins with the characters of `p`.
pub open spec fn begins_with(name: Seq<char>, p: Seq<char>) -> bool {
    name.len() >= p.len() && forall|k: int| 0 <= k < p.len() ==> name[k] == p[k]
}

/// The process views leave out exactly the kernel threads: a process is
/// kept if and only if its name is not empty and starts with none of
/// `kworker`, `kthreadd`, `ksoftirqd`, `rcu_`, `migration/` and `cpuhp/`. In
/// particular every non-empty name whose first character is not `k`, `r`,
/// `m` or `c` is shown, and kept entries keep their order of the snapshot.
pub proof fn lemma_only_kernel_threads_hidden(es: Seq<EntryView>, i: int)
    requires
        0 <= i < es.len(),
    ensures
        visible_entries(es).contains(es[i]) <==> !(
            es[i].name.len() == 0
            || begins_with(es[i].name, "kworker"@)
            || begins_with(es[i].name, "kthreadd"@)
            || begins_with(es[i].name, "ksoftirqd"@)
            || begins_with(es[i].name, "rcu_"@)
            || begins_with(es[i].name, "migration/"@)
            || begins_with(es[i].name, "cpuhp/"@)),
        es[i].name.len() > 0 && es[i].name[0] != 'k' && es[i].name[0] != 'r' && es[i].name[0] != 'm'
            && es[i].name[0] != 'c' ==> visible_entries(es).contains(es[i]),
{
    lemma_visible_entries_exact(es);
    let name = es[i].name;
    reveal_strlit("kworker");
    reveal_strlit("kthreadd");
    reveal_strlit("ksoftirqd");
    reveal_strlit("rcu_");
    reveal_strlit("migration/");
    reveal_strlit("cpuhp/");
    let ps = seq!["kworker"@, "kthreadd"@, "ksoftirqd"@, "rcu_"@, "migration/"@, "cpuhp/"@];
    assert forall|j: int| 0 <= j < 6 implies has_prefix(name, #[trigger] ps[j]) == begins_with(name, ps[j]) by {
        let p = ps[j];
        if begins_with(name, p) {
            assert(name.subrange(0, p.len() as int) =~= p);
        }
        if has_prefix(name, p) {
            assert forall|k: int| 0 <= k < p.len() implies name[k] == p[k] by {
                assert(name.subrange(0, p.len() as int)[k] == name[k]);
            }
        }
    }
    assert(has_prefix(name, ps[0]) == begins_with(name, ps[0]));
    assert(has_prefix(name, ps[1]) == begins_with(name, ps[1]));
    assert(has_prefix(name, ps[2]) == begins_with(name, ps[2]));
    assert(has_prefix(name, ps[3]) == begins_with(name, ps[3]));
    assert(has_prefix(name, ps[4]) == begins_with(name, ps[4]));
    assert(has_prefix(name, ps[5]) == begins_with(name, ps[5]));
    if visible_entries(es).contains(es[i]) {
        let k = choose|k: int| 0 <= k < visible_entries(es).len() && visible_entries(es)[k] == es[i];
        assert(!is_hidden_name(visible_entries(es)[k].name));
    }
    if name.len() > 0 && name[0] != 'k' && name[0] != 'r' && name[0] != 'm' && name[0] != 'c' {
        assert(!begins_with(name, ps[0])) by { assert(ps[0][0] == 'k'); }
        assert(!begins_with(name, ps[1])) by { assert(ps[1][0] == 'k'); }
        assert(!begins_with(name, ps[2])) by { assert(ps[2][0] == 'k'); }
        assert(!begins_with(name, ps[3])) by { assert(ps[3][0] == 'r'); }
        assert(!begins_with(name, ps[4])) by { assert(ps[4][0] == 'm'); }
        assert(!begins_with(name, ps[5])) by { assert(ps[5][0] == 'c'); }
    }
}

/// Whether a process with this name is left out of the process views.
pub fn is_hidden_process_name(name: &str) -> (r: bool)
    ensures
        r == is_hidden_name(name@),
{
    let cs = chars_of(name);
    if cs.len() == 0 {
        return true;
    }
    starts_with_chars(&cs, &chars_of("kworker"))
        || starts_with_chars(&cs, &chars_of("kthreadd"))
        || starts_with_chars(&cs, &chars_of("ksoftirqd"))
        || starts_with_chars(&cs, &chars_of("rcu_"))
        || starts_with_chars(&cs, &chars_of("migration/"))
        || starts_with_chars(&cs, &chars_of("cpuhp/"))
}

/// The entries whose names are not hidden, in the order given.
pub fn visible_processes(all: &Vec<ProcessEntry>) -> (r: Vec<ProcessEntry>)
    ensures
        entry_views(r@) == visible_entries(entry_views(all@)),
{
    let mut r: Vec<ProcessEntry> = Vec::new();
    let mut i: usize = 0;
    while i < all.len()
        invariant
            i <= all@.len(),
            entry_views(r@) == visible_entries(entry_views(all@.subrange(0, i as int))),
        decreases all@.len() - i,
    {
        let e = &all[i];
        let hidden = is_hidden_process_name(e.name.as_str());
        proof {
            let pre = all@.subrange(0, i as int);
            let cur = all@.subrange(0, i + 1);
            assert(entry_views(cur).drop_last() =~= entry_views(pre));
            assert(entry_views(cur).last() == all@[i as int]@);
        }
        if !hidden {
            let c = e.copy();
            r.push(c);
        }
        proof {
            let cur = all@.subrange(0, i + 1);
            assert(entry_views(r@) =~= visible_entries(entry_views(cur)));
        }
        i = i + 1;
    }
    assert(all@.subrange(0, all@.len() as int) =~= all@);
    r
}

} // verus!
