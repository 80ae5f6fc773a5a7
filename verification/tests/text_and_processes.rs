use sysng::ordering::order_by_rank_desc;
use sysng::process::{is_hidden_process_name, visible_processes, ProcessEntry};
use sysng::text::{chars_of, contains_chars, decimal_string, starts_with_chars};

fn entry(pid: u32, parent: Option<u32>, name: &str, cpu_rank: u32) -> ProcessEntry {
    ProcessEntry {
        pid,
        parent,
        name: name.to_string(),
        cpu_rank,
        memory: 1024 * 1024,
        user: Some("1000".to_string()),
    }
}

#[test]
fn decimal_string_matches_to_string() {
    assert_eq!(decimal_string(0), "0");
    assert_eq!(decimal_string(7), "7");
    assert_eq!(decimal_string(10), "10");
    assert_eq!(decimal_string(12345), "12345");
    assert_eq!(decimal_string(u64::MAX), u64::MAX.to_string());
}

#[test]
fn prefix_and_substring_checks() {
    let hay = chars_of("kworker/0:1");
    assert!(starts_with_chars(&hay, &chars_of("kworker")));
    assert!(!starts_with_chars(&hay, &chars_of("worker")));
    assert!(starts_with_chars(&hay, &chars_of("")));
    assert!(contains_chars(&hay, &chars_of("er/0")));
    assert!(contains_chars(&hay, &chars_of("")));
    assert!(!contains_chars(&hay, &chars_of("kworker/0:12")));
    assert!(!contains_chars(&chars_of("abc"), &chars_of("bd")));
    assert_eq!(chars_of("└─ x"), vec!['└', '─', ' ', 'x']);
}

#[test]
fn kernel_threads_are_hidden() {
    for name in ["", "kworker/1:0", "kthreadd", "ksoftirqd/3", "rcu_sched", "migration/2", "cpuhp/0"] {
        assert!(is_hidden_process_name(name), "{name} should be hidden");
    }
    for name in ["bash", "rcu", "kswapd0", "systemd", "Kworker"] {
        assert!(!is_hidden_process_name(name), "{name} should be shown");
    }
}

#[test]
fn visible_processes_keeps_order_and_drops_hidden() {
    let all = vec![
        entry(1, None, "systemd", 0),
        entry(2, None, "kthreadd", 0),
        entry(3, Some(2), "kworker/0:0", 0),
        entry(10, Some(1), "bash", 0),
        entry(11, Some(1), "", 0),
    ];
    let kept = visible_processes(&all);
    let pids: Vec<u32> = kept.iter().map(|e| e.pid).collect();
    assert_eq!(pids, vec![1, 10]);
}

#[test]
fn rank_order_is_stable_and_descending() {
    assert_eq!(order_by_rank_desc(&vec![3, 1, 3, 2]), vec![0, 2, 3, 1]);
    assert_eq!(order_by_rank_desc(&vec![]), Vec::<usize>::new());
    assert_eq!(order_by_rank_desc(&vec![5, 5, 5]), vec![0, 1, 2]);
    assert_eq!(order_by_rank_desc(&vec![1, 2, 3, 4]), vec![3, 2, 1, 0]);
}
