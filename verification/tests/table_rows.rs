use std::collections::HashSet;
use sysng::process::ProcessEntry;
use sysng::rows::{build_ranked_rows, build_rows, build_tree_rows, index_children, FlatRow};

fn entry(pid: u32, parent: Option<u32>, name: &str, cpu_rank: u32) -> ProcessEntry {
    ProcessEntry {
        pid,
        parent,
        name: name.to_string(),
        cpu_rank,
        memory: 2048,
        user: if pid == 7 { None } else { Some("1000".to_string()) },
    }
}

fn snapshot() -> Vec<ProcessEntry> {
    vec![
        entry(1, None, "systemd", 10),
        entry(20, Some(1), "sshd", 30),
        entry(21, Some(20), "bash", 50),
        entry(22, Some(21), "FireFox", 90),
        entry(7, Some(1), "cron", 30),
        entry(99, Some(555), "orphan", 5),
    ]
}

fn commands(rows: &[FlatRow]) -> Vec<String> {
    rows.iter().map(|r| r.display_command.clone()).collect()
}

#[test]
fn tree_rows_are_depth_first_with_markers() {
    let rows = build_tree_rows(&snapshot(), &HashSet::new());
    assert_eq!(
        commands(&rows),
        vec![
            "[-] systemd",
            "  └─ [-] sshd",
            "    └─ [-] bash",
            "      └─  *  FireFox",
            "  └─  *  cron",
        ]
    );
    let depths: Vec<usize> = rows.iter().map(|r| r.depth).collect();
    assert_eq!(depths, vec![0, 1, 2, 3, 1]);
    assert!(rows[0].has_children && !rows[3].has_children);
    assert_eq!(rows[1].pid_str, "20");
    assert_eq!(rows[1].started, "00:00");
    assert_eq!(rows[1].elapsed, "00:00");
    assert_eq!(rows[1].ni, "0");
    assert_eq!(rows[1].pgrp, "0");
    assert_eq!(rows[1].tt, "-");
    assert_eq!(rows[1].fuser, "-");
    assert_eq!(rows[1].ruser, "1000");
    assert_eq!(rows[1].euser, "1000");
    assert_eq!(rows[4].ruser, "user");
    assert_eq!(rows[3].mem_val, 2048);
    assert_eq!(rows[3].cpu_rank, 90);
}

#[test]
fn collapsed_node_hides_its_descendants() {
    let mut collapsed = HashSet::new();
    collapsed.insert(20u32);
    let rows = build_tree_rows(&snapshot(), &collapsed);
    assert_eq!(commands(&rows), vec!["[-] systemd", "  └─ [+] sshd", "  └─  *  cron"]);
}

#[test]
fn flat_rows_are_by_cpu_then_snapshot_order() {
    let rows = build_ranked_rows(&snapshot());
    let pids: Vec<u32> = rows.iter().map(|r| r.pid).collect();
    assert_eq!(pids, vec![22, 21, 20, 7, 1, 99]);
    assert_eq!(rows[0].display_command, "- FireFox");
    assert!(rows.iter().all(|r| r.depth == 0 && !r.has_children));
}

#[test]
fn search_matches_lowercased_name_or_pid() {
    let es = snapshot();
    let none = HashSet::new();
    let rows = build_rows(&es, true, &"FIRE".to_string(), false, &none);
    let pids: Vec<u32> = rows.iter().map(|r| r.pid).collect();
    assert_eq!(pids, vec![22]);

    let rows = build_rows(&es, true, &"2".to_string(), false, &none);
    let pids: Vec<u32> = rows.iter().map(|r| r.pid).collect();
    assert_eq!(pids, vec![22, 21, 20]);

    let rows = build_rows(&es, true, &"s".to_string(), false, &none);
    let pids: Vec<u32> = rows.iter().map(|r| r.pid).collect();
    assert_eq!(pids, vec![21, 20, 1]);
}

#[test]
fn build_rows_picks_the_layout() {
    let es = snapshot();
    let none = HashSet::new();
    // An empty query does not filter: the tree is shown.
    assert_eq!(build_rows(&es, true, &String::new(), false, &none).len(), 5);
    assert_eq!(build_rows(&es, false, &"zzz".to_string(), false, &none).len(), 5);
    assert_eq!(build_rows(&es, false, &String::new(), true, &none).len(), 6);
    assert_eq!(build_rows(&es, true, &"zzz".to_string(), true, &none).len(), 0);
}

#[test]
fn tree_shows_each_process_once() {
    let es = snapshot();
    let rows = build_tree_rows(&es, &HashSet::new());
    let mut seen = HashSet::new();
    for r in &rows {
        assert!(seen.insert(r.pid));
    }
}

#[test]
fn cyclic_parents_stay_bounded() {
    // Duplicate ids that form a parent cycle reachable from the top level.
    let es = vec![
        entry(1, None, "a", 0),
        entry(2, Some(1), "b", 0),
        entry(1, Some(2), "c", 0),
    ];
    let rows = build_tree_rows(&es, &HashSet::new());
    assert!(rows.len() <= 3 * 3 * 3 + 3);
    assert!(rows.iter().all(|r| r.depth <= es.len()));
}

#[test]
fn table_never_has_more_rows_than_processes() {
    let es = snapshot();
    let mut collapsed = HashSet::new();
    for query in ["", "s", "zzz", "2"] {
        for searching in [false, true] {
            for flat in [false, true] {
                let rows = build_rows(&es, searching, &query.to_string(), flat, &collapsed);
                assert!(rows.len() <= es.len());
            }
        }
    }
    collapsed.insert(20);
    assert_eq!(build_rows(&es, false, &String::new(), false, &collapsed).len(), 3);
    assert_eq!(build_rows(&es, false, &String::new(), true, &collapsed).len(), es.len());
}

#[test]
fn children_are_grouped_by_parent_in_order() {
    let idx = index_children(&snapshot());
    assert_eq!(idx.roots, vec![0]);
    assert_eq!(idx.by_parent.get(&1), Some(&vec![1, 4]));
    assert_eq!(idx.by_parent.get(&20), Some(&vec![2]));
    assert_eq!(idx.by_parent.get(&555), Some(&vec![5]));
    assert_eq!(idx.by_parent.get(&22), None);
    assert_eq!(idx.by_parent.len(), 4);
}
