use sysng::layout::{centered_rect, Area};
use sysng::metrics::{
    graph_heading_text, graph_metric, plan_tick, GraphMetric, MetricHistory, TickPlan, HISTORY_LEN, SAMPLE_INTERVAL_MS,
};
use sysng::monitor::{KeyCode, KeyPress, MonitorState};
use sysng::process::ProcessEntry;
use sysng::view::{
    column_headers, column_offset, footer_text, help_text, signal_menu_text, system_summary_text,
    table_title_text, table_window,
};

fn entry(pid: u32, parent: Option<u32>, name: &str) -> ProcessEntry {
    ProcessEntry { pid, parent, name: name.to_string(), cpu_rank: 0, memory: 0, user: None }
}

#[test]
fn history_keeps_the_last_45_samples() {
    let mut h: MetricHistory<u32> = MetricHistory::new();
    for i in 0..100u32 {
        h.record(i, i + 1000, i + 2000, i + 3000);
        assert!(h.cpu.len() <= HISTORY_LEN);
    }
    assert_eq!(h.cpu.len(), 45);
    assert_eq!(h.cpu.front(), Some(&55));
    assert_eq!(h.cpu.back(), Some(&99));
    assert_eq!(h.mem.back(), Some(&1099));
    assert_eq!(h.swap.front(), Some(&2055));
    assert_eq!(h.net.back(), Some(&3099));
}

#[test]
fn history_spans_45_seconds() {
    assert_eq!(HISTORY_LEN as u128 * SAMPLE_INTERVAL_MS, 45000);
}

#[test]
fn graph_tabs_cycle_through_four_metrics() {
    assert_eq!(graph_metric(0), GraphMetric::Cpu);
    assert_eq!(graph_metric(1), GraphMetric::Memory);
    assert_eq!(graph_metric(2), GraphMetric::Swap);
    assert_eq!(graph_metric(3), GraphMetric::Network);
    assert_eq!(graph_metric(4), GraphMetric::Cpu);
    assert_eq!(graph_heading_text(GraphMetric::Cpu), " CPU Usage History (45s window)");
    assert_eq!(graph_heading_text(GraphMetric::Memory), " Memory Usage History (45s window)");
    assert_eq!(graph_heading_text(GraphMetric::Swap), " Swap Usage History (45s window)");
    assert_eq!(graph_heading_text(GraphMetric::Network), " Network Throughput History (45s window)");
    let mut h: MetricHistory<u32> = MetricHistory::new();
    h.record(1, 2, 3, 4);
    h.record(5, 6, 7, 8);
    assert_eq!(h.series(0).iter().copied().collect::<Vec<_>>(), vec![1, 5]);
    assert_eq!(h.series(1).iter().copied().collect::<Vec<_>>(), vec![2, 6]);
    assert_eq!(h.series(2).iter().copied().collect::<Vec<_>>(), vec![3, 7]);
    assert_eq!(h.series(3).iter().copied().collect::<Vec<_>>(), vec![4, 8]);
}

#[test]
fn tab_in_the_graphs_view_selects_the_next_metric() {
    let mut s = MonitorState::new(&vec![entry(1, None, "init")]);
    s.handle_key(KeyPress { code: KeyCode::F(7), control: false });
    assert_eq!(graph_metric(s.graph_tab_index), GraphMetric::Cpu);
    for expected in [GraphMetric::Memory, GraphMetric::Swap, GraphMetric::Network, GraphMetric::Cpu] {
        s.handle_key(KeyPress { code: KeyCode::Tab, control: false });
        assert_eq!(graph_metric(s.graph_tab_index), expected);
    }
}

#[test]
fn help_screen_lists_the_keys() {
    let help = help_text();
    assert!(help.starts_with(" 📖 sysng Help & Documentation (Ctrl+H / F1)\n\n"));
    assert!(help.contains("[F7]             45-Second Resource & Network Graphs\n"));
    assert!(help.ends_with("[Ctrl+Q/C]       Safe Exit Confirmation"));
    assert_eq!(help.lines().count(), 14);
}

#[test]
fn tick_plan_thresholds() {
    assert_eq!(
        plan_tick(2999, 999, Some(1999)),
        TickPlan { reload_processes: false, take_sample: false, dismiss_popup: false }
    );
    assert_eq!(
        plan_tick(3000, 1000, Some(2000)),
        TickPlan { reload_processes: true, take_sample: true, dismiss_popup: true }
    );
    assert!(!plan_tick(0, 0, None).dismiss_popup);
}

fn inside(c: Area, r: Area) -> bool {
    let right = (r.x as u32 + r.width as u32).min(u16::MAX as u32);
    let bottom = (r.y as u32 + r.height as u32).min(u16::MAX as u32);
    r.x <= c.x && c.x as u32 + c.width as u32 <= right && r.y <= c.y && c.y as u32 + c.height as u32 <= bottom
}

#[test]
fn centered_rect_takes_the_middle() {
    let r = centered_rect(60, 40, Area { x: 0, y: 0, width: 100, height: 50 });
    assert_eq!(r, Area { x: 20, y: 15, width: 60, height: 20 });
    let r = centered_rect(50, 25, Area { x: 10, y: 4, width: 80, height: 40 });
    assert_eq!(r, Area { x: 30, y: 19, width: 40, height: 10 });
    let r = centered_rect(60, 40, Area { x: 0, y: 0, width: 100, height: 100 });
    assert_eq!(r, Area { x: 20, y: 30, width: 60, height: 40 });
    // 37 / 25 / 37 percent of 9 rows: offsets round 3.33 to 3 and 5.58 to 6.
    let r = centered_rect(100, 25, Area { x: 0, y: 0, width: 10, height: 9 });
    assert_eq!(r, Area { x: 0, y: 3, width: 10, height: 3 });
    let whole = Area { x: 3, y: 7, width: 90, height: 30 };
    assert_eq!(centered_rect(100, 100, whole), whole);
}

#[test]
fn centered_rect_stays_inside() {
    let areas = [
        Area { x: 0, y: 0, width: 0, height: 0 },
        Area { x: 0, y: 0, width: 1, height: 1 },
        Area { x: 5, y: 2, width: 7, height: 3 },
        Area { x: 65000, y: 65000, width: 1000, height: 1000 },
        Area { x: 0, y: 0, width: 211, height: 57 },
    ];
    for r in areas {
        for p in [0u16, 1, 25, 40, 50, 60, 99, 100] {
            let c = centered_rect(p, 100 - p / 2, r);
            assert!(inside(c, r), "{:?} not inside {:?}", c, r);
        }
    }
}

#[test]
fn columns_and_window() {
    assert_eq!(column_offset(3), 3);
    assert_eq!(column_offset(11), 11);
    assert_eq!(column_offset(40), 11);
    assert_eq!(column_headers(0).len(), 12);
    assert_eq!(column_headers(0)[0], "STARTED");
    assert_eq!(column_headers(10), vec!["FUSER", "COMMAND"]);
    assert_eq!(table_window(0, 30), (0, 26));
    assert_eq!(table_window(30, 30), (5, 26));
    assert_eq!(table_window(25, 30), (0, 26));
    assert_eq!(table_window(3, 8), (0, 10));
    assert_eq!(table_window(7, 8), (4, 10));
    assert_eq!(table_window(7, 3), (0, 10));
}

#[test]
fn titles_footers_and_menu() {
    let es = vec![entry(1, None, "init"), entry(42, Some(1), "worker")];
    let mut s = MonitorState::new(&es);
    assert_eq!(
        table_title_text(&s),
        " ⚙ sysng: Process Tree View [Space: Toggle | Ctrl+K: Signals | Ctrl+H: Help] "
    );
    assert_eq!(
        footer_text(&s),
        " [UP/DOWN] Select | [SPACE] Toggle | [Ctrl+K] Signals | [Ctrl+H] Help | [F3] Search | [TAB] Tree/Flat "
    );
    assert!(signal_menu_text(&s).is_none());
    s.handle_key(KeyPress { code: KeyCode::Down, control: false });
    s.handle_key(KeyPress { code: KeyCode::Char('k'), control: true });
    s.handle_key(KeyPress { code: KeyCode::Down, control: false });
    assert_eq!(footer_text(&s), " [UP/DOWN] Choose Signal | [ENTER] Send Signal | [ESC] Cancel ");
    let menu = signal_menu_text(&s).unwrap();
    assert_eq!(
        menu,
        "Send Signal to Process (PID: 42, Name: └─  *  worker)\n\n   SIGTERM (15 - Graceful termination)\n👉 SIGKILL (9  - Force kill)\n   SIGINT  (2  - Interrupt / Ctrl+C)\n   SIGHUP  (1  - Hangup / Reload config)\n   SIGSTOP (19 - Pause / Stop process)\n   SIGCONT (18 - Resume process)\n\n[Up/Down] Select | [Enter] Send Signal | [Esc] Cancel"
    );
    s.handle_key(KeyPress { code: KeyCode::Esc, control: false });
    s.handle_key(KeyPress { code: KeyCode::F(3), control: false });
    s.handle_key(KeyPress { code: KeyCode::Char('w'), control: false });
    assert_eq!(
        table_title_text(&s),
        " ⚙ sysng: Search Results [Query: w] [Space: Toggle | Ctrl+K: Signals | Ctrl+H: Help] "
    );
    s.handle_key(KeyPress { code: KeyCode::F(7), control: false });
    assert_eq!(footer_text(&s), " [TAB] Switch Graph Metric | [ESC] Back ");
    s.handle_key(KeyPress { code: KeyCode::F(8), control: false });
    assert_eq!(footer_text(&s), " [TAB] Toggle USB/Mounts | [ESC] Back ");
    s.handle_key(KeyPress { code: KeyCode::F(5), control: false });
    assert_eq!(
        footer_text(&s),
        " [Ctrl+H] Help | [F3] Search | [F5] Stats | [F6] Top | [F7] Graphs | [F8] Mounts | [F9] Sockets | [ESC] Back "
    );
    s.handle_key(KeyPress { code: KeyCode::Char('q'), control: true });
    assert_eq!(footer_text(&s), "Confirm exit? Press [Y] to quit, [N] or [ESC] to cancel");
}

#[test]
fn flat_title() {
    let mut s = MonitorState::new(&vec![entry(1, None, "init")]);
    s.handle_key(KeyPress { code: KeyCode::Tab, control: false });
    assert_eq!(
        table_title_text(&s),
        " ⚙ sysng: Flat Tree View [Space: Toggle | Ctrl+K: Signals | Ctrl+H: Help] "
    );
}

#[test]
fn system_summary() {
    assert_eq!(
        system_summary_text(&Some("Linux".to_string()), &None, 3 * 1048576 + 5, 8 * 1048576),
        " 💻 System Information\n\n   • OS: Linux\n   • Hostname: Unknown Host\n   • Memory: 3 MB / 8 MB"
    );
    assert_eq!(
        system_summary_text(&None, &Some("box".to_string()), 0, 0),
        " 💻 System Information\n\n   • OS: Unknown OS\n   • Hostname: box\n   • Memory: 0 MB / 0 MB"
    );
}

fn offset(size: u32, share: u32) -> u32 {
    (share * size + 50) / 100
}

#[test]
fn centered_rect_places_by_rounded_percentages() {
    for (x, y, w, h) in [(0u16, 0u16, 1u16, 1u16), (4, 2, 37, 11), (0, 0, 211, 57), (100, 50, 80, 24), (65500, 65500, 100, 100)] {
        let r = Area { x, y, width: w, height: h };
        let size_x = (x as u32 + w as u32).min(65535) - x as u32;
        let size_y = (y as u32 + h as u32).min(65535) - y as u32;
        for px in [0u32, 1, 13, 33, 50, 60, 77, 99, 100] {
            for py in [0u32, 7, 25, 40, 51, 100] {
                let mx = (100 - px) / 2;
                let my = (100 - py) / 2;
                let expected = Area {
                    x: (x as u32 + offset(size_x, mx)) as u16,
                    y: (y as u32 + offset(size_y, my)) as u16,
                    width: (offset(size_x, mx + px) - offset(size_x, mx)) as u16,
                    height: (offset(size_y, my + py) - offset(size_y, my)) as u16,
                };
                assert_eq!(centered_rect(px as u16, py as u16, r), expected, "{:?} {} {}", r, px, py);
            }
        }
    }
}

#[test]
fn centered_rect_sweep_of_sizes_and_percentages() {
    for size in (0u32..=130).step_by(9) {
        for p in (0u32..=100).step_by(3) {
            let m = (100 - p) / 2;
            let r = Area { x: 7, y: 3, width: size as u16, height: (130 - size) as u16 };
            let c = centered_rect(p as u16, (100 - p) as u16, r);
            let my = (100 - (100 - p)) / 2;
            let hy = 130 - size;
            assert_eq!(c.x as u32, 7 + offset(size, m));
            assert_eq!(c.width as u32, offset(size, m + p) - offset(size, m));
            assert_eq!(c.y as u32, 3 + offset(hy, my));
            assert_eq!(c.height as u32, offset(hy, my + 100 - p) - offset(hy, my));
        }
    }
}
