use sysng::monitor::{Action, KeyCode, KeyPress, MonitorState, MouseKind};
use sysng::process::ProcessEntry;

fn entry(pid: u32, parent: Option<u32>, name: &str, cpu_rank: u32) -> ProcessEntry {
    ProcessEntry {
        pid,
        parent,
        name: name.to_string(),
        cpu_rank,
        memory: 4096,
        user: Some("0".to_string()),
    }
}

fn snapshot() -> Vec<ProcessEntry> {
    vec![
        entry(1, None, "systemd", 10),
        entry(20, Some(1), "sshd", 30),
        entry(21, Some(20), "bash", 50),
        entry(7, Some(1), "cron", 40),
        entry(3, Some(2), "kworker/0:1", 99),
    ]
}

fn key(code: KeyCode) -> KeyPress {
    KeyPress { code, control: false }
}

fn ctrl(c: char) -> KeyPress {
    KeyPress { code: KeyCode::Char(c), control: true }
}

fn press(s: &mut MonitorState, k: KeyPress) -> Action {
    s.handle_key(k)
}

#[test]
fn new_state_shows_the_tree_without_hidden_processes() {
    let s = MonitorState::new(&snapshot());
    assert_eq!(s.processes.len(), 4);
    let pids: Vec<u32> = s.rows.iter().map(|r| r.pid).collect();
    assert_eq!(pids, vec![1, 20, 21, 7]);
    assert_eq!(s.selected_row_index, 0);
    assert!(s.active_view.is_none() && !s.is_searching && !s.is_flat_tree);
}

#[test]
fn quitting_needs_confirmation() {
    let mut s = MonitorState::new(&snapshot());
    press(&mut s, ctrl('q'));
    assert!(s.quit_confirmation && !s.should_quit);
    press(&mut s, key(KeyCode::Char('x')));
    assert!(s.quit_confirmation && !s.should_quit);
    press(&mut s, key(KeyCode::Char('n')));
    assert!(!s.quit_confirmation && !s.should_quit);
    press(&mut s, ctrl('c'));
    press(&mut s, key(KeyCode::Esc));
    assert!(!s.quit_confirmation && !s.should_quit);
    press(&mut s, ctrl('q'));
    press(&mut s, key(KeyCode::Char('Y')));
    assert!(s.should_quit);
}

#[test]
fn plain_q_does_not_ask_to_quit() {
    let mut s = MonitorState::new(&snapshot());
    press(&mut s, key(KeyCode::Char('q')));
    assert!(!s.quit_confirmation);
}

#[test]
fn selection_moves_and_stays_in_range() {
    let mut s = MonitorState::new(&snapshot());
    press(&mut s, key(KeyCode::Up));
    assert_eq!(s.selected_row_index, 0);
    press(&mut s, key(KeyCode::Down));
    press(&mut s, key(KeyCode::Down));
    assert_eq!(s.selected_row_index, 2);
    press(&mut s, key(KeyCode::PageDown));
    assert_eq!(s.selected_row_index, 3);
    press(&mut s, key(KeyCode::Down));
    assert_eq!(s.selected_row_index, 3);
    press(&mut s, key(KeyCode::PageUp));
    assert_eq!(s.selected_row_index, 0);
    s.handle_mouse(MouseKind::ScrollDown);
    assert_eq!(s.selected_row_index, 1);
    s.handle_mouse(MouseKind::ScrollUp);
    s.handle_mouse(MouseKind::ScrollUp);
    assert_eq!(s.selected_row_index, 0);
}

#[test]
fn column_scroll_is_bounded() {
    let mut s = MonitorState::new(&snapshot());
    for _ in 0..15 {
        press(&mut s, key(KeyCode::Right));
    }
    assert_eq!(s.table_scroll_offset, 10);
    press(&mut s, key(KeyCode::Left));
    assert_eq!(s.table_scroll_offset, 9);
    press(&mut s, key(KeyCode::Esc));
    assert_eq!(s.table_scroll_offset, 0);
}

#[test]
fn search_filters_and_double_backspace_leaves() {
    let mut s = MonitorState::new(&snapshot());
    press(&mut s, key(KeyCode::F(3)));
    assert!(s.is_searching);
    // The table is not rebuilt until the query changes.
    assert_eq!(s.rows.len(), 4);
    press(&mut s, key(KeyCode::Char('S')));
    assert_eq!(s.search_query, "S");
    let pids: Vec<u32> = s.rows.iter().map(|r| r.pid).collect();
    assert_eq!(pids, vec![21, 20, 1]);
    press(&mut s, key(KeyCode::Char(' ')));
    assert_eq!(s.search_query, "S");
    press(&mut s, key(KeyCode::Backspace));
    assert_eq!(s.search_query, "");
    assert_eq!(s.rows.len(), 4);
    press(&mut s, key(KeyCode::Backspace));
    assert!(s.is_searching && s.backspace_pressed_when_empty);
    press(&mut s, key(KeyCode::Backspace));
    assert!(!s.is_searching && !s.backspace_pressed_when_empty);
}

#[test]
fn escape_clears_the_search() {
    let mut s = MonitorState::new(&snapshot());
    press(&mut s, key(KeyCode::F(3)));
    press(&mut s, key(KeyCode::Char('c')));
    press(&mut s, key(KeyCode::Char('r')));
    assert_eq!(s.rows.len(), 1);
    press(&mut s, key(KeyCode::Esc));
    assert!(!s.is_searching);
    assert_eq!(s.search_query, "");
    assert_eq!(s.rows.len(), 4);
}

#[test]
fn space_collapses_and_expands() {
    let mut s = MonitorState::new(&snapshot());
    press(&mut s, key(KeyCode::Down));
    press(&mut s, key(KeyCode::Char(' ')));
    assert!(s.collapsed_pids.contains(&20));
    let pids: Vec<u32> = s.rows.iter().map(|r| r.pid).collect();
    assert_eq!(pids, vec![1, 20, 7]);
    assert_eq!(s.rows[1].display_command, "  └─ [+] sshd");
    press(&mut s, key(KeyCode::Char(' ')));
    assert!(!s.collapsed_pids.contains(&20));
    assert_eq!(s.rows.len(), 4);
}

#[test]
fn tab_switches_layout_and_back() {
    let mut s = MonitorState::new(&snapshot());
    press(&mut s, key(KeyCode::Tab));
    assert!(s.is_flat_tree);
    let pids: Vec<u32> = s.rows.iter().map(|r| r.pid).collect();
    assert_eq!(pids, vec![21, 7, 20, 1]);
    press(&mut s, key(KeyCode::Char(' ')));
    assert!(s.collapsed_pids.is_empty());
    press(&mut s, key(KeyCode::Tab));
    assert!(!s.is_flat_tree);
    let pids: Vec<u32> = s.rows.iter().map(|r| r.pid).collect();
    assert_eq!(pids, vec![1, 20, 21, 7]);
}

#[test]
fn function_keys_toggle_views() {
    let mut s = MonitorState::new(&snapshot());
    press(&mut s, key(KeyCode::F(6)));
    assert_eq!(s.active_view, Some(6));
    press(&mut s, key(KeyCode::F(6)));
    assert_eq!(s.active_view, None);
    press(&mut s, key(KeyCode::F(8)));
    press(&mut s, key(KeyCode::Tab));
    assert!(s.show_usb_devices);
    press(&mut s, key(KeyCode::F(7)));
    for _ in 0..5 {
        press(&mut s, key(KeyCode::Tab));
    }
    assert_eq!(s.graph_tab_index, 1);
    press(&mut s, ctrl('h'));
    assert_eq!(s.active_view, Some(1));
    press(&mut s, key(KeyCode::F(1)));
    assert_eq!(s.active_view, None);
    press(&mut s, key(KeyCode::F(2)));
    assert_eq!(s.active_view, None);
    press(&mut s, key(KeyCode::F(9)));
    // Selection keys do nothing while a view is open.
    press(&mut s, key(KeyCode::Down));
    assert_eq!(s.selected_row_index, 0);
    s.handle_mouse(MouseKind::ScrollDown);
    assert_eq!(s.selected_row_index, 0);
    press(&mut s, key(KeyCode::Esc));
    assert_eq!(s.active_view, None);
}

#[test]
fn signal_menu_wraps_and_sends_the_chosen_signal() {
    let mut s = MonitorState::new(&snapshot());
    press(&mut s, key(KeyCode::Down));
    press(&mut s, ctrl('k'));
    assert!(s.is_kill_prompt);
    assert_eq!(s.kill_option_index, 0);
    press(&mut s, key(KeyCode::Up));
    assert_eq!(s.kill_option_index, 5);
    press(&mut s, key(KeyCode::Down));
    assert_eq!(s.kill_option_index, 0);
    press(&mut s, key(KeyCode::Down));
    // Other keys are ignored while the menu is open.
    press(&mut s, key(KeyCode::Char('q')));
    assert!(s.is_kill_prompt && !s.quit_confirmation);
    let a = press(&mut s, key(KeyCode::Enter));
    assert_eq!(a, Action::SendSignal { pid: 20, signal: 9 });
    assert!(!s.is_kill_prompt);
    assert_eq!(
        s.popup_message.as_deref(),
        Some("Successfully sent SIGKILL (9  - Force kill)\nto PID: 20\nName: └─ [-] sshd\nUser: 0")
    );
    s.dismiss_popup();
    assert!(s.popup_message.is_none());
}

#[test]
fn signal_menu_escape_cancels() {
    let mut s = MonitorState::new(&snapshot());
    press(&mut s, ctrl('k'));
    let a = press(&mut s, key(KeyCode::Esc));
    assert_eq!(a, Action::Nothing);
    assert!(!s.is_kill_prompt);
}

#[test]
fn signal_menu_needs_rows_and_the_table() {
    let mut s = MonitorState::new(&vec![]);
    press(&mut s, ctrl('k'));
    assert!(!s.is_kill_prompt);
    let mut s = MonitorState::new(&snapshot());
    press(&mut s, key(KeyCode::F(5)));
    press(&mut s, ctrl('k'));
    assert!(!s.is_kill_prompt);
}

#[test]
fn reload_keeps_selection_in_range() {
    let mut s = MonitorState::new(&snapshot());
    press(&mut s, key(KeyCode::PageDown));
    assert_eq!(s.selected_row_index, 3);
    s.load_processes(&vec![entry(1, None, "systemd", 0), entry(5, Some(1), "agetty", 0)]);
    assert_eq!(s.rows.len(), 2);
    assert_eq!(s.selected_row_index, 1);
    s.load_processes(&vec![]);
    assert_eq!(s.rows.len(), 0);
    assert_eq!(s.selected_row_index, 1);
}

#[test]
fn confirmation_ignores_other_keys_until_yes() {
    let mut s = MonitorState::new(&snapshot());
    press(&mut s, key(KeyCode::Down));
    press(&mut s, ctrl('c'));
    let before = (s.selected_row_index, s.active_view, s.is_flat_tree, s.is_searching);
    for k in [key(KeyCode::Down), key(KeyCode::Tab), key(KeyCode::F(7)), key(KeyCode::Char('x')), ctrl('q')] {
        assert_eq!(press(&mut s, k), Action::Nothing);
        assert!(s.quit_confirmation && !s.should_quit);
        assert_eq!((s.selected_row_index, s.active_view, s.is_flat_tree, s.is_searching), before);
    }
    press(&mut s, key(KeyCode::Char('y')));
    assert!(s.should_quit);
}

#[test]
fn yes_after_a_cancel_does_not_quit() {
    let mut s = MonitorState::new(&snapshot());
    press(&mut s, key(KeyCode::Char('y')));
    assert!(!s.should_quit && !s.quit_confirmation);
    press(&mut s, ctrl('q'));
    press(&mut s, key(KeyCode::Char('N')));
    press(&mut s, key(KeyCode::Char('y')));
    assert!(!s.should_quit && !s.quit_confirmation);
}

#[test]
fn signal_notice_trims_the_command() {
    let mut s = MonitorState::new(&vec![entry(4, None, "job\u{3000}\t ", 1)]);
    press(&mut s, key(KeyCode::Tab));
    press(&mut s, ctrl('k'));
    let a = press(&mut s, key(KeyCode::Enter));
    assert_eq!(a, Action::SendSignal { pid: 4, signal: 15 });
    assert_eq!(
        s.popup_message.as_deref(),
        Some("Successfully sent SIGTERM (15 - Graceful termination)\nto PID: 4\nName: - job\nUser: 0")
    );
}
