//! The monitor's interactive state and how each key press or mouse scroll
//! changes it.

use vstd::prelude::*;
use std::collections::HashSet;
use crate::text::{trimmed, trim_text, push_char, pop_char};
use crate::process::{ProcessEntry, EntryView, entry_views, opt_text, visible_entries, visible_processes};
use crate::rows::{FlatRow, RowView, row_views, table_rows, build_rows};
use crate::signals::{SIGNAL_COUNT, signal_label, signal_code, signal_name, signal_number};
use crate::signals::{label_shows_number, lemma_entry_sends_the_number_in_its_label};
use crate::rows::tree_rows;
use crate::tree_laws::{distinct_pids, lemma_tree_rows_distinct, lemma_level_collapse_first};
use vstd::string::StringExecFns;

verus! {

broadcast use vstd::std_specs::hash::group_hash_axioms;

/// The key of a key press.
#[derive(Clone, Copy, Debug, PartialEq, Eq, Structural)]
pub enum KeyCode {
    Char(char),
    F(u8),
    Esc,
    Enter,
    Tab,
    Backspace,
    Up,
    Down,
    Left,
    Right,
    PageUp,
    PageDown,
    Other,
}

/// A key press: the key and whether Control was held.
#[derive(Clone, Copy, Debug, PartialEq, Eq, Structural)]
pub struct KeyPress {
    pub code: KeyCode,
    pub control: bool,
}

/// A mouse event, as far as the monitor distinguishes them.
#[derive(Clone, Copy, Debug, PartialEq, Eq, Structural)]
pub enum MouseKind {
    ScrollDown,
    ScrollUp,
    Other,
}

/// What the caller has to do after an event.
#[derive(Clone, Copy, Debug, PartialEq, Eq, Structural)]
pub enum Action {
    /// Nothing beyond drawing the new state.
    Nothing,
    /// Send signal number `signal` to process `pid`, then reload the
    /// process snapshot with [`MonitorState::load_processes`].
    SendSignal { pid: u32, signal: i32 },
}

/// The interactive state of the monitor.
///
/// `processes` is the current snapshot without hidden processes; `rows` is
/// the process table last built from it; `popup_message` is the text of the
/// confirmation shown after a signal was sent.
pub struct MonitorState {
    pub processes: Vec<ProcessEntry>,
    pub active_view: Option<u8>,
    pub search_query: String,
    pub is_searching: bool,
    pub backspace_pressed_when_empty: bool,
    pub is_kill_prompt: bool,
    pub kill_option_index: usize,
    pub should_quit: bool,
    pub quit_confirmation: bool,
    pub table_scroll_offset: usize,
    pub selected_row_index: usize,
    pub is_flat_tree: bool,
    pub collapsed_pids: HashSet<u32>,
    pub show_usb_devices: bool,
    pub graph_tab_index: usize,
    pub rows: Vec<FlatRow>,
    pub popup_message: Option<String>,
}

/// Mathematical view of a [`MonitorState`].
pub struct MonitorView {
    pub processes: Seq<EntryView>,
    pub active_view: Option<u8>,
    pub search_query: Seq<char>,
    pub is_searching: bool,
    pub backspace_pressed_when_empty: bool,
    pub is_kill_prompt: bool,
    pub kill_option_index: nat,
    pub should_quit: bool,
    pub quit_confirmation: bool,
    pub table_scroll_offset: nat,
    pub selected_row_index: nat,
    pub is_flat_tree: bool,
    pub collapsed: Set<u32>,
    pub show_usb_devices: bool,
    pub graph_tab_index: nat,
    pub rows: Seq<RowView>,
    pub popup_message: Option<Seq<char>>,
}

impl View for MonitorState {
    type V = MonitorView;

    open spec fn view(&self) -> MonitorView {
        MonitorView {
            processes: entry_views(self.processes@),
            active_view: self.active_view,
            search_query: self.search_query@,
            is_searching: self.is_searching,
            backspace_pressed_when_empty: self.backspace_pressed_when_empty,
            is_kill_prompt: self.is_kill_prompt,
            kill_option_index: self.kill_option_index as nat,
            should_quit: self.should_quit,
            quit_confirmation: self.quit_confirmation,
            table_scroll_offset: self.table_scroll_offset as nat,
            selected_row_index: self.selected_row_index as nat,
            is_flat_tree: self.is_flat_tree,
            collapsed: self.collapsed_pids@,
            show_usb_devices: self.show_usb_devices,
            graph_tab_index: self.graph_tab_index as nat,
            rows: row_views(self.rows@),
            popup_message: opt_text(self.popup_message),
        }
    }
}

/// Invariant of the state: the signal menu index names a menu entry, and
/// while the table has rows the selection is one of them.
pub open spec fn well_formed(v: MonitorView) -> bool {
    &&& v.kill_option_index < SIGNAL_COUNT
    &&& v.rows.len() > 0 ==> v.selected_row_index < v.rows.len()
}

/// The state with the process table rebuilt from the snapshot and the
/// current view settings, the selection moved to the last row if it fell
/// past the end.
pub open spec fn with_rows_rebuilt(v: MonitorView) -> MonitorView {
    let rows = table_rows(v.processes, v.is_searching, v.search_query, v.is_flat_tree, v.collapsed);
    MonitorView {
        rows,
        selected_row_index: if v.selected_row_index >= rows.len() && rows.len() > 0 {
            (rows.len() - 1) as nat
        } else {
            v.selected_row_index
        },
        ..v
    }
}

/// The state of a fresh monitor on a snapshot of visible processes.
pub open spec fn initial_view(processes: Seq<EntryView>) -> MonitorView {
    MonitorView {
        processes,
        active_view: None,
        search_query: Seq::empty(),
        is_searching: false,
        backspace_pressed_when_empty: false,
        is_kill_prompt: false,
        kill_option_index: 0,
        should_quit: false,
        quit_confirmation: false,
        table_scroll_offset: 0,
        selected_row_index: 0,
        is_flat_tree: false,
        collapsed: Set::empty(),
        show_usb_devices: false,
        graph_tab_index: 0,
        rows: Seq::empty(),
        popup_message: None,
    }
}

/// Opening view `n` closes it if it is the one shown.
pub open spec fn toggled_view(current: Option<u8>, n: u8) -> Option<u8> {
    if current == Some(n) { None } else { Some(n) }
}

/// Text of the confirmation shown after a signal was sent to the process of `row`.
pub open spec fn signal_notice(label: Seq<char>, row: RowView) -> Seq<char> {
    "Successfully sent "@ + label + "\nto PID: "@ + row.pid_str + "\nName: "@ + trimmed(row.display_command)
        + "\nUser: "@ + row.ruser
}

/// A key while the exit confirmation is shown: `y`/`Y` quits, `n`/`N` or
/// Esc cancels, anything else is ignored.
pub open spec fn confirm_step(v: MonitorView, key: KeyPress) -> MonitorView {
    if key.code == KeyCode::Char('y') || key.code == KeyCode::Char('Y') {
        MonitorView { should_quit: true, ..v }
    } else if key.code == KeyCode::Char('n') || key.code == KeyCode::Char('N') || key.code == KeyCode::Esc {
        MonitorView { quit_confirmation: false, ..v }
    } else {
        v
    }
}

/// A key while the signal menu is open: Esc closes it, Up and Down move
/// through the entries with wrap-around, Enter sends the chosen signal to the
/// selected process and closes the menu.
pub open spec fn signal_menu_step(v: MonitorView, key: KeyPress) -> (MonitorView, Action) {
    if key.code == KeyCode::Esc {
        (MonitorView { is_kill_prompt: false, ..v }, Action::Nothing)
    } else if key.code == KeyCode::Up {
        (MonitorView {
            kill_option_index: if v.kill_option_index > 0 { (v.kill_option_index - 1) as nat } else { (SIGNAL_COUNT - 1) as nat },
            ..v
        }, Action::Nothing)
    } else if key.code == KeyCode::Down {
        (MonitorView { kill_option_index: ((v.kill_option_index + 1) % (SIGNAL_COUNT as nat)) as nat, ..v }, Action::Nothing)
    } else if key.code == KeyCode::Enter {
        if v.rows.len() > 0 {
            let row = v.rows[v.selected_row_index as int];
            (MonitorView {
                popup_message: Some(signal_notice(signal_label(v.kill_option_index as int), row)),
                is_kill_prompt: false,
                ..v
            }, Action::SendSignal { pid: row.pid, signal: signal_code(v.kill_option_index as int) })
        } else {
            (MonitorView { is_kill_prompt: false, ..v }, Action::Nothing)
        }
    } else {
        (v, Action::Nothing)
    }
}

/// Space on the process table: collapse or expand the selected row's
/// children, in tree mode outside a search.
pub open spec fn space_step(v: MonitorView) -> MonitorView {
    if v.active_view is None && !v.is_flat_tree && !v.is_searching && v.rows.len() > 0 {
        let row = v.rows[v.selected_row_index as int];
        if row.has_children {
            let collapsed = if v.collapsed.contains(row.pid) {
                v.collapsed.remove(row.pid)
            } else {
                v.collapsed.insert(row.pid)
            };
            with_rows_rebuilt(MonitorView { collapsed, ..v })
        } else {
            v
        }
    } else {
        v
    }
}

/// Tab: on the process table switch between tree and flat layout; in the
/// mounts view switch between mounts and USB devices; in the graphs view go
/// to the next of four tabs.
pub open spec fn tab_step(v: MonitorView) -> MonitorView {
    if v.active_view is None {
        with_rows_rebuilt(MonitorView { is_flat_tree: !v.is_flat_tree, ..v })
    } else if v.active_view == Some(8u8) {
        MonitorView { show_usb_devices: !v.show_usb_devices, ..v }
    } else if v.active_view == Some(7u8) {
        MonitorView { graph_tab_index: ((v.graph_tab_index + 1) % 4) as nat, ..v }
    } else {
        v
    }
}

/// Moves of the selection and of the column scroll on the process table.
pub open spec fn navigation_step(v: MonitorView, code: KeyCode) -> MonitorView {
    if v.active_view is Some {
        v
    } else if code == KeyCode::Down {
        if v.rows.len() > 0 && v.selected_row_index + 1 < v.rows.len() {
            MonitorView { selected_row_index: v.selected_row_index + 1, ..v }
        } else {
            v
        }
    } else if code == KeyCode::Up {
        MonitorView { selected_row_index: if v.selected_row_index >= 1 { (v.selected_row_index - 1) as nat } else { 0 }, ..v }
    } else if code == KeyCode::Left {
        MonitorView { table_scroll_offset: if v.table_scroll_offset >= 1 { (v.table_scroll_offset - 1) as nat } else { 0 }, ..v }
    } else if code == KeyCode::Right {
        if v.table_scroll_offset < 10 {
            MonitorView { table_scroll_offset: v.table_scroll_offset + 1, ..v }
        } else {
            v
        }
    } else if code == KeyCode::PageDown {
        if v.rows.len() > 0 {
            MonitorView {
                selected_row_index: if v.selected_row_index + 15 <= v.rows.len() - 1 {
                    v.selected_row_index + 15
                } else {
                    (v.rows.len() - 1) as nat
                },
                ..v
            }
        } else {
            v
        }
    } else {
        MonitorView { selected_row_index: if v.selected_row_index >= 15 { (v.selected_row_index - 15) as nat } else { 0 }, ..v }
    }
}

/// Backspace while searching: removes the last query character; on an empty
/// query a first Backspace arms and a second one ends the search.
pub open spec fn backspace_step(v: MonitorView) -> MonitorView {
    if v.search_query.len() == 0 {
        if v.backspace_pressed_when_empty {
            with_rows_rebuilt(MonitorView { is_searching: false, backspace_pressed_when_empty: false, ..v })
        } else {
            MonitorView { backspace_pressed_when_empty: true, ..v }
        }
    } else {
        with_rows_rebuilt(MonitorView {
            search_query: v.search_query.drop_last(),
            backspace_pressed_when_empty: false,
            ..v
        })
    }
}

/// The keys that open or close one of the views F5 to F9.
pub open spec fn is_view_key(code: KeyCode) -> bool {
    code is F && 5 <= code->F_0 <= 9
}

/// A key on the main screen (no confirmation, no signal menu).
pub open spec fn browse_step(v: MonitorView, key: KeyPress) -> MonitorView {
    let code = key.code;
    if (code == KeyCode::Char('q') || code == KeyCode::Char('c')) && key.control {
        if v.quit_confirmation {
            MonitorView { should_quit: true, ..v }
        } else {
            MonitorView { quit_confirmation: true, ..v }
        }
    } else if code == KeyCode::Char('h') && key.control {
        MonitorView { active_view: toggled_view(v.active_view, 1), is_searching: false, ..v }
    } else if code == KeyCode::Char('k') && key.control {
        if v.active_view is None && v.rows.len() > 0 {
            MonitorView { is_kill_prompt: true, kill_option_index: 0, ..v }
        } else {
            v
        }
    } else if code == KeyCode::Esc {
        if v.is_searching {
            with_rows_rebuilt(MonitorView {
                is_searching: false,
                search_query: Seq::empty(),
                backspace_pressed_when_empty: false,
                ..v
            })
        } else {
            with_rows_rebuilt(MonitorView { active_view: None, table_scroll_offset: 0, ..v })
        }
    } else if code == KeyCode::Char(' ') {
        space_step(v)
    } else if code == KeyCode::F(1) {
        MonitorView { active_view: toggled_view(v.active_view, 1), ..v }
    } else if code == KeyCode::F(3) {
        MonitorView { active_view: None, is_searching: true, backspace_pressed_when_empty: false, ..v }
    } else if is_view_key(code) {
        MonitorView { active_view: toggled_view(v.active_view, code->F_0), ..v }
    } else if code == KeyCode::Tab {
        tab_step(v)
    } else if code == KeyCode::Down || code == KeyCode::Up || code == KeyCode::Left || code == KeyCode::Right
        || code == KeyCode::PageDown || code == KeyCode::PageUp {
        navigation_step(v, code)
    } else if code is Char && v.is_searching {
        with_rows_rebuilt(MonitorView {
            search_query: v.search_query.push(code->Char_0),
            backspace_pressed_when_empty: false,
            ..v
        })
    } else if code == KeyCode::Backspace && v.is_searching {
        backspace_step(v)
    } else {
        v
    }
}

/// The new state and the action for a key press.
pub open spec fn key_step(v: MonitorView, key: KeyPress) -> (MonitorView, Action) {
    if v.quit_confirmation {
        (confirm_step(v, key), Action::Nothing)
    } else if v.is_kill_prompt {
        signal_menu_step(v, key)
    } else {
        (browse_step(v, key), Action::Nothing)
    }
}

/// The new state for a mouse event: scrolling moves the selection on the
/// process table while no view and no signal menu is open.
pub open spec fn mouse_step(v: MonitorView, kind: MouseKind) -> MonitorView {
    if v.active_view is None && !v.is_kill_prompt {
        if kind == MouseKind::ScrollDown {
            if v.rows.len() > 0 && v.selected_row_index + 1 < v.rows.len() {
                MonitorView { selected_row_index: v.selected_row_index + 1, ..v }
            } else {
                v
            }
        } else if kind == MouseKind::ScrollUp {
            MonitorView { selected_row_index: if v.selected_row_index >= 1 { (v.selected_row_index - 1) as nat } else { 0 }, ..v }
        } else {
            v
        }
    } else {
        v
    }
}

/// No key quits the monitor unless the exit confirmation is showing: on the
/// main screen Ctrl+Q or Ctrl+C only asks for confirmation.
pub proof fn lemma_quit_needs_confirmation(v: MonitorView, key: KeyPress)
    requires
        !v.quit_confirmation,
        !v.should_quit,
    ensures
        !key_step(v, key).0.should_quit,
{
}

/// Ctrl+Q or Ctrl+C: the request to quit.
pub open spec fn is_quit_request(key: KeyPress) -> bool {
    (key.code == KeyCode::Char('q') || key.code == KeyCode::Char('c')) && key.control
}

/// `y` or `Y`: the answer that confirms the exit.
pub open spec fn is_yes(key: KeyPress) -> bool {
    key.code == KeyCode::Char('y') || key.code == KeyCode::Char('Y')
}

/// `n`, `N` or Esc: the answers that cancel the exit.
pub open spec fn is_cancel(key: KeyPress) -> bool {
    key.code == KeyCode::Char('n') || key.code == KeyCode::Char('N') || key.code == KeyCode::Esc
}

/// The state after the key presses `keys`, one after the other.
pub open spec fn run_keys(v: MonitorView, keys: Seq<KeyPress>) -> MonitorView
    decreases keys.len(),
{
    if keys.len() == 0 {
        v
    } else {
        key_step(run_keys(v, keys.drop_last()), keys.last()).0
    }
}

/// No key strictly between positions `i` and `j` of `keys` cancels.
pub open spec fn no_cancel_between(keys: Seq<KeyPress>, i: int, j: int) -> bool {
    forall|m: int| i < m < j ==> !is_cancel(#[trigger] keys[m])
}

/// Some quit request in `keys` has not been cancelled since.
pub open spec fn quit_pending(keys: Seq<KeyPress>) -> bool {
    exists|i: int| 0 <= i < keys.len() && #[trigger] is_quit_request(keys[i]) && no_cancel_between(keys, i, keys.len() as int)
}

/// Some quit request in `keys` is followed by a `y`/`Y` with no `n`, `N`
/// or Esc between them.
pub open spec fn confirmed_quit_in(keys: Seq<KeyPress>) -> bool {
    exists|i: int, j: int|
        0 <= i < j < keys.len() && #[trigger] is_quit_request(keys[i]) && #[trigger] is_yes(keys[j])
            && no_cancel_between(keys, i, j)
}

/// The monitor only quits after a confirmed request: starting from a state
/// that neither quits nor asks, if it quits after a run of key presses then
/// the run holds Ctrl+Q or Ctrl+C, later `y` or `Y`, and no `n`, `N` or Esc
/// between them. While it asks for confirmation, a request is pending.
pub proof fn lemma_quit_only_after_confirmation(v: MonitorView, keys: Seq<KeyPress>)
    requires
        !v.should_quit,
        !v.quit_confirmation,
    ensures
        run_keys(v, keys).should_quit ==> confirmed_quit_in(keys),
        run_keys(v, keys).quit_confirmation ==> quit_pending(keys),
    decreases keys.len(),
{
    if keys.len() > 0 {
        let p = keys.drop_last();
        let k = keys.last();
        let n = p.len() as int;
        lemma_quit_only_after_confirmation(v, p);
        let s = run_keys(v, p);
        let t = run_keys(v, keys);
        assert(t == key_step(s, k).0);
        if t.should_quit {
            if s.should_quit {
                let (i, j) = choose|i: int, j: int|
                    0 <= i < j < p.len() && #[trigger] is_quit_request(p[i]) && #[trigger] is_yes(p[j])
                        && no_cancel_between(p, i, j);
                assert(keys[i] == p[i] && keys[j] == p[j]);
                assert forall|m: int| i < m < j implies !is_cancel(#[trigger] keys[m]) by {
                    assert(keys[m] == p[m]);
                }
                assert(is_quit_request(keys[i]) && is_yes(keys[j]));
            } else {
                assert(s.quit_confirmation && is_yes(k));
                let i = choose|i: int| 0 <= i < p.len() && #[trigger] is_quit_request(p[i]) && no_cancel_between(p, i, n);
                assert(keys[i] == p[i]);
                assert(keys[n] == k);
                assert forall|m: int| i < m < n implies !is_cancel(#[trigger] keys[m]) by {
                    assert(keys[m] == p[m]);
                }
                assert(is_quit_request(keys[i]) && is_yes(keys[n]));
            }
        }
        if t.quit_confirmation {
            if s.quit_confirmation {
                assert(!is_cancel(k));
                let i = choose|i: int| 0 <= i < p.len() && #[trigger] is_quit_request(p[i]) && no_cancel_between(p, i, n);
                assert(keys[i] == p[i]);
                assert forall|m: int| i < m < keys.len() implies !is_cancel(#[trigger] keys[m]) by {
                    if m < n {
                        assert(keys[m] == p[m]);
                    }
                }
                assert(is_quit_request(keys[i]));
            } else {
                assert(is_quit_request(k));
                assert(keys[n] == k);
                assert(is_quit_request(keys[n]));
            }
        }
    }
}

/// While the exit confirmation is shown, a key other than `y`, `Y`, `n`,
/// `N` and Esc changes nothing; `n`, `N` and Esc only withdraw the question.
pub proof fn lemma_confirmation_ignores_other_keys(v: MonitorView, key: KeyPress)
    requires
        v.quit_confirmation,
    ensures
        !is_yes(key) && !is_cancel(key) ==> key_step(v, key) == (v, Action::Nothing),
        is_cancel(key) ==> key_step(v, key) == (MonitorView { quit_confirmation: false, ..v }, Action::Nothing),
{
}

/// On the process table, the movement keys keep the selection on a row:
/// Down and Up move one row, PageDown moves 15 rows down but not past the
/// last row, PageUp 15 rows up but not above the first, and none of them
/// changes the rows; PageDown then PageUp returns to the row where it
/// started when 15 more rows follow it.
pub proof fn lemma_table_navigation(v: MonitorView, key: KeyPress)
    requires
        !v.quit_confirmation,
        !v.is_kill_prompt,
        v.active_view is None,
        v.rows.len() > 0,
        v.selected_row_index < v.rows.len(),
    ensures
        key.code == KeyCode::Down || key.code == KeyCode::Up || key.code == KeyCode::PageDown || key.code == KeyCode::PageUp
            ==> key_step(v, key).0.rows == v.rows,
        key.code == KeyCode::PageDown ==> key_step(v, key).0.selected_row_index
            == (if v.selected_row_index + 15 < v.rows.len() { v.selected_row_index + 15int } else { v.rows.len() - 1 }),
        key.code == KeyCode::PageUp ==> key_step(v, key).0.selected_row_index
            == (if v.selected_row_index >= 15 { v.selected_row_index - 15 } else { 0 }),
        key.code == KeyCode::Down ==> key_step(v, key).0.selected_row_index
            == (if v.selected_row_index + 1 < v.rows.len() { v.selected_row_index + 1int } else { v.selected_row_index as int }),
        key.code == KeyCode::Up ==> key_step(v, key).0.selected_row_index
            == (if v.selected_row_index >= 1 { v.selected_row_index - 1 } else { 0 }),
        key.code == KeyCode::Down || key.code == KeyCode::Up || key.code == KeyCode::PageDown || key.code == KeyCode::PageUp
            ==> key_step(v, key).0.selected_row_index < v.rows.len(),
        key.code == KeyCode::PageDown && v.selected_row_index + 15 < v.rows.len() ==>
            key_step(key_step(v, key).0, KeyPress { code: KeyCode::PageUp, control: key.control }).0.selected_row_index
                == v.selected_row_index,
        key.code == KeyCode::Left ==> key_step(v, key).0.table_scroll_offset
            == (if v.table_scroll_offset >= 1 { v.table_scroll_offset - 1 } else { 0 })
            && key_step(v, key).0.selected_row_index == v.selected_row_index,
        key.code == KeyCode::Right ==> key_step(v, key).0.table_scroll_offset
            == (if v.table_scroll_offset < 10 { v.table_scroll_offset + 1int } else { v.table_scroll_offset as int })
            && key_step(v, key).0.selected_row_index == v.selected_row_index,
        mouse_step(v, MouseKind::ScrollDown).selected_row_index
            == key_step(v, KeyPress { code: KeyCode::Down, control: false }).0.selected_row_index,
        mouse_step(v, MouseKind::ScrollUp).selected_row_index
            == key_step(v, KeyPress { code: KeyCode::Up, control: false }).0.selected_row_index,
{
    if key.code == KeyCode::PageDown && v.selected_row_index + 15 < v.rows.len() {
        let v1 = key_step(v, key).0;
        assert(v1.selected_row_index == v.selected_row_index + 15);
        assert(v1.rows == v.rows);
    }
}

/// In the signal menu, Down moves to the next of the six entries and from
/// the last back to the first, Up the other way round; Enter sends the
/// chosen entry's signal, whose number its label shows, to the process of
/// the selected row, and closes the menu.
pub proof fn lemma_signal_menu_keys(v: MonitorView, key: KeyPress)
    requires
        well_formed(v),
        !v.quit_confirmation,
        v.is_kill_prompt,
    ensures
        key.code == KeyCode::Down ==> key_step(v, key).0.kill_option_index
            == (if v.kill_option_index == 5 { 0 } else { v.kill_option_index + 1 }),
        key.code == KeyCode::Up ==> key_step(v, key).0.kill_option_index
            == (if v.kill_option_index == 0 { 5 } else { v.kill_option_index - 1 }),
        key.code == KeyCode::Enter && v.rows.len() > 0 ==> {
            let a = key_step(v, key).1;
            &&& a is SendSignal
            &&& a->pid == v.rows[v.selected_row_index as int].pid
            &&& label_shows_number(signal_label(v.kill_option_index as int), a->signal as int)
            &&& !key_step(v, key).0.is_kill_prompt
        },
        key.code == KeyCode::Enter && v.rows.len() == 0 ==> key_step(v, key).1 == Action::Nothing,
{
    lemma_entry_sends_the_number_in_its_label(v.kill_option_index as int);
}

/// F3 starts a search on the process table; while searching, a typed
/// character other than Space (which toggles a tree node) and the Control
/// shortcuts is appended to the query and the table is rebuilt for the new
/// query.
pub proof fn lemma_search_typing(v: MonitorView, key: KeyPress, c: char)
    requires
        !v.quit_confirmation,
        !v.is_kill_prompt,
    ensures
        key.code == KeyCode::F(3) ==> key_step(v, key).0.is_searching && key_step(v, key).0.active_view is None
            && key_step(v, key).0.search_query == v.search_query,
        v.is_searching && key.code == KeyCode::Char(c) && c != ' '
            && !(key.control && (c == 'q' || c == 'c' || c == 'h' || c == 'k')) ==> {
            let w = key_step(v, key).0;
            &&& w.search_query == v.search_query.push(c)
            &&& w.is_searching
            &&& w.rows == table_rows(v.processes, true, v.search_query.push(c), v.is_flat_tree, v.collapsed)
        },
{
}

/// Ctrl+H (and F1) on the main screen opens the help screen, or closes it
/// when it is the one shown, and ends a search (Ctrl+H); pressing the key
/// twice from the process table or from the help screen gives back the
/// screen that was shown.
pub proof fn lemma_help_key_toggles(v: MonitorView, key: KeyPress)
    requires
        !v.quit_confirmation,
        !v.is_kill_prompt,
        (key.code == KeyCode::Char('h') && key.control) || key.code == KeyCode::F(1),
    ensures
        key_step(v, key).0.active_view == (if v.active_view == Some(1u8) { None::<u8> } else { Some(1u8) }),
        key.code == KeyCode::Char('h') ==> !key_step(v, key).0.is_searching,
        v.active_view is None || v.active_view == Some(1u8) ==>
            key_step(key_step(v, key).0, key).0.active_view == v.active_view,
{
}

/// F5 to F9 on the main screen open their view, or close it when it is the
/// one shown; pressing the same key twice from the process table or from
/// that view gives back the screen that was shown.
pub proof fn lemma_view_keys_toggle(v: MonitorView, key: KeyPress, n: u8)
    requires
        !v.quit_confirmation,
        !v.is_kill_prompt,
        5 <= n <= 9,
        key.code == KeyCode::F(n),
    ensures
        key_step(v, key).0.active_view == (if v.active_view == Some(n) { None::<u8> } else { Some(n) }),
        v.active_view is None || v.active_view == Some(n) ==>
            key_step(key_step(v, key).0, key).0.active_view == v.active_view,
{
}

/// On the main screen, Ctrl+Q followed by `y` quits.
pub proof fn lemma_confirmed_quit(v: MonitorView)
    requires
        !v.quit_confirmation,
        !v.is_kill_prompt,
    ensures
        key_step(key_step(v, KeyPress { code: KeyCode::Char('q'), control: true }).0,
            KeyPress { code: KeyCode::Char('y'), control: false }).0.should_quit,
{
}

/// Esc during a search ends it, clears the query and shows the table for
/// the unfiltered layout again.
pub proof fn lemma_escape_ends_search(v: MonitorView, key: KeyPress)
    requires
        !v.quit_confirmation,
        !v.is_kill_prompt,
        v.is_searching,
        key.code == KeyCode::Esc,
    ensures
        !key_step(v, key).0.is_searching,
        key_step(v, key).0.search_query.len() == 0,
        key_step(v, key).0.rows == table_rows(v.processes, false, Seq::empty(), v.is_flat_tree, v.collapsed),
{
}

/// A search started with F3 ends after two Backspaces on the empty query;
/// the first one only arms.
pub proof fn lemma_double_backspace_leaves_search(v: MonitorView, key: KeyPress)
    requires
        !v.quit_confirmation,
        !v.is_kill_prompt,
        v.is_searching,
        v.search_query.len() == 0,
        !v.backspace_pressed_when_empty,
        key.code == KeyCode::Backspace,
    ensures
        key_step(v, key).0.is_searching,
        !key_step(key_step(v, key).0, key).0.is_searching,
{
    let v1 = key_step(v, key).0;
    assert(v1 == MonitorView { backspace_pressed_when_empty: true, ..v });
}

/// Tab twice on the process table restores the layout and rebuilds the
/// table for it.
pub proof fn lemma_tab_twice_restores_layout(v: MonitorView, key: KeyPress)
    requires
        !v.quit_confirmation,
        !v.is_kill_prompt,
        v.active_view is None,
        key.code == KeyCode::Tab,
    ensures
        key_step(key_step(v, key).0, key).0.is_flat_tree == v.is_flat_tree,
        key_step(key_step(v, key).0, key).0.rows == table_rows(v.processes, v.is_searching, v.search_query, v.is_flat_tree, v.collapsed),
{
    let v1 = key_step(v, key).0;
    assert(v1 == tab_step(v));
    assert(v1.active_view is None);
}

/// In the signal menu, Up followed by Down (and Down followed by Up) leaves
/// the chosen entry where it was.
pub proof fn lemma_signal_menu_up_down(v: MonitorView, up: KeyPress, down: KeyPress)
    requires
        well_formed(v),
        !v.quit_confirmation,
        v.is_kill_prompt,
        up.code == KeyCode::Up,
        down.code == KeyCode::Down,
    ensures
        key_step(key_step(v, up).0, down).0.kill_option_index == v.kill_option_index,
        key_step(key_step(v, down).0, up).0.kill_option_index == v.kill_option_index,
        key_step(key_step(v, up).0, down).0.is_kill_prompt,
{
}

/// On an up-to-date tree view with distinct process ids, Space twice on a
/// row restores the state: the first collapses (or expands) the row, which
/// stays selected, and the second undoes it.
pub proof fn lemma_space_twice_restores(v: MonitorView, key: KeyPress)
    requires
        well_formed(v),
        !v.quit_confirmation,
        !v.is_kill_prompt,
        v.active_view is None,
        !v.is_flat_tree,
        !v.is_searching,
        key.code == KeyCode::Char(' '),
        distinct_pids(v.processes),
        v.rows == table_rows(v.processes, v.is_searching, v.search_query, v.is_flat_tree, v.collapsed),
    ensures
        key_step(key_step(v, key).0, key).0 == v,
{
    let v1 = key_step(v, key).0;
    assert(v1 == space_step(v));
    if v.rows.len() > 0 && v.rows[v.selected_row_index as int].has_children {
        let s = v.selected_row_index as int;
        let p = v.rows[s].pid;
        let c1 = v.collapsed;
        let c2 = if c1.contains(p) { c1.remove(p) } else { c1.insert(p) };
        assert(v.rows == tree_rows(v.processes, c1));
        lemma_tree_rows_distinct(v.processes, c1);
        assert forall|t: int| 0 <= t < s implies (#[trigger] tree_rows(v.processes, c1)[t]).pid != p by {
            assert(v.rows[t].pid != v.rows[s].pid);
        }
        lemma_level_collapse_first(v.processes, None, 0, c1, c2, p, v.processes.len(), 0, s);
        let rows2 = tree_rows(v.processes, c2);
        assert(v1.rows == rows2);
        assert(v1.selected_row_index == v.selected_row_index);
        assert(v1.collapsed == c2);
        let v2 = key_step(v1, key).0;
        assert(v2 == space_step(v1));
        assert(v1.rows[s].pid == p && v1.rows[s].has_children);
        let c3 = if c2.contains(p) { c2.remove(p) } else { c2.insert(p) };
        assert(c3 =~= c1);
        assert(v2.collapsed == c1);
        assert(v2.rows == v.rows);
        assert(v2 == v);
    }
}

/// The confirmation text for sending menu entry `index` to the process of `row`.
pub fn signal_notice_text(index: usize, row: &FlatRow) -> (r: String)
    requires
        index < SIGNAL_COUNT,
    ensures
        r@ == signal_notice(signal_label(index as int), row@),
{
    let mut s = String::from_str("Successfully sent ");
    s.append(signal_name(index));
    s.append("\nto PID: ");
    s.append(row.pid_str.as_str());
    s.append("\nName: ");
    let name = trim_text(row.display_command.as_str());
    s.append(name.as_str());
    s.append("\nUser: ");
    s.append(row.ruser.as_str());
    s
}

impl MonitorState {
    /// A monitor on the given snapshot: hidden processes left out, process
    /// table in tree layout, no view, search or menu open.
    pub fn new(all: &Vec<ProcessEntry>) -> (r: MonitorState)
        ensures
            well_formed(r@),
            r@ == with_rows_rebuilt(initial_view(visible_entries(entry_views(all@)))),
    {
        let mut r = MonitorState {
            processes: visible_processes(all),
            active_view: None,
            search_query: String::new(),
            is_searching: false,
            backspace_pressed_when_empty: false,
            is_kill_prompt: false,
            kill_option_index: 0,
            should_quit: false,
            quit_confirmation: false,
            table_scroll_offset: 0,
            selected_row_index: 0,
            is_flat_tree: false,
            collapsed_pids: HashSet::new(),
            show_usb_devices: false,
            graph_tab_index: 0,
            rows: Vec::new(),
            popup_message: None,
        };
        assert(row_views(r.rows@) =~= Seq::<RowView>::empty());
        assert(r@ == initial_view(visible_entries(entry_views(all@))));
        r.rebuild_rows();
        r
    }

    /// Rebuilds the process table from the snapshot and the view settings.
    pub fn rebuild_rows(&mut self)
        ensures
            final(self)@ == with_rows_rebuilt(old(self)@),
            well_formed(old(self)@) ==> well_formed(final(self)@),
    {
        let rows = build_rows(&self.processes, self.is_searching, &self.search_query, self.is_flat_tree, &self.collapsed_pids);
        self.rows = rows;
        if self.selected_row_index >= self.rows.len() && self.rows.len() > 0 {
            self.selected_row_index = self.rows.len() - 1;
        }
    }

    /// Replaces the snapshot (hidden processes left out) and rebuilds the
    /// process table.
    pub fn load_processes(&mut self, all: &Vec<ProcessEntry>)
        requires
            well_formed(old(self)@),
        ensures
            well_formed(final(self)@),
            final(self)@ == with_rows_rebuilt((MonitorView { processes: visible_entries(entry_views(all@)), ..old(self)@ })),
    {
        self.processes = visible_processes(all);
        self.rebuild_rows();
    }

    /// Removes the confirmation text.
    pub fn dismiss_popup(&mut self)
        requires
            well_formed(old(self)@),
        ensures
            well_formed(final(self)@),
            final(self)@ == (MonitorView { popup_message: None, ..old(self)@ }),
    {
        self.popup_message = None;
    }

    fn confirm_key(&mut self, key: KeyPress)
        ensures
            final(self)@ == confirm_step(old(self)@, key),
    {
        if key.code == KeyCode::Char('y') || key.code == KeyCode::Char('Y') {
            self.should_quit = true;
        } else if key.code == KeyCode::Char('n') || key.code == KeyCode::Char('N') || key.code == KeyCode::Esc {
            self.quit_confirmation = false;
        }
    }

    fn signal_menu_key(&mut self, key: KeyPress) -> (a: Action)
        requires
            well_formed(old(self)@),
        ensures
            (final(self)@, a) == signal_menu_step(old(self)@, key),
    {
        if key.code == KeyCode::Esc {
            self.is_kill_prompt = false;
        } else if key.code == KeyCode::Up {
            if self.kill_option_index > 0 {
                self.kill_option_index = self.kill_option_index - 1;
            } else {
                self.kill_option_index = SIGNAL_COUNT - 1;
            }
        } else if key.code == KeyCode::Down {
            self.kill_option_index = (self.kill_option_index + 1) % SIGNAL_COUNT;
        } else if key.code == KeyCode::Enter {
            if self.rows.len() > 0 {
                let row = &self.rows[self.selected_row_index];
                let pid = row.pid;
                let signal = signal_number(self.kill_option_index);
                let notice = signal_notice_text(self.kill_option_index, row);
                self.popup_message = Some(notice);
                self.is_kill_prompt = false;
                return Action::SendSignal { pid, signal };
            }
            self.is_kill_prompt = false;
        }
        Action::Nothing
    }

    fn space_key(&mut self)
        requires
            well_formed(old(self)@),
        ensures
            final(self)@ == space_step(old(self)@),
    {
        if self.active_view.is_none() && !self.is_flat_tree && !self.is_searching && self.rows.len() > 0 {
            let pid = self.rows[self.selected_row_index].pid;
            if self.rows[self.selected_row_index].has_children {
                if self.collapsed_pids.contains(&pid) {
                    self.collapsed_pids.remove(&pid);
                } else {
                    self.collapsed_pids.insert(pid);
                }
                self.rebuild_rows();
            }
        }
    }

    fn tab_key(&mut self)
        requires
            well_formed(old(self)@),
        ensures
            final(self)@ == tab_step(old(self)@),
    {
        if self.active_view.is_none() {
            self.is_flat_tree = !self.is_flat_tree;
            self.rebuild_rows();
        } else if self.active_view == Some(8u8) {
            self.show_usb_devices = !self.show_usb_devices;
        } else if self.active_view == Some(7u8) {
            let next = self.graph_tab_index % 4 + 1;
            assert(next % 4 == (self.graph_tab_index + 1) % 4);
            self.graph_tab_index = next % 4;
        }
    }

    fn navigation_key(&mut self, code: KeyCode)
        requires
            well_formed(old(self)@),
        ensures
            final(self)@ == navigation_step(old(self)@, code),
    {
        if self.active_view.is_some() {
            return;
        }
        if code == KeyCode::Down {
            if self.rows.len() > 0 && self.selected_row_index + 1 < self.rows.len() {
                self.selected_row_index = self.selected_row_index + 1;
            }
        } else if code == KeyCode::Up {
            self.selected_row_index = self.selected_row_index.saturating_sub(1);
        } else if code == KeyCode::Left {
            self.table_scroll_offset = self.table_scroll_offset.saturating_sub(1);
        } else if code == KeyCode::Right {
            if self.table_scroll_offset < 10 {
                self.table_scroll_offset = self.table_scroll_offset + 1;
            }
        } else if code == KeyCode::PageDown {
            if self.rows.len() > 0 {
                let last = self.rows.len() - 1;
                if last - self.selected_row_index >= 15 {
                    self.selected_row_index = self.selected_row_index + 15;
                } else {
                    self.selected_row_index = last;
                }
            }
        } else {
            self.selected_row_index = self.selected_row_index.saturating_sub(15);
        }
    }

    fn backspace_key(&mut self)
        ensures
            final(self)@ == backspace_step(old(self)@),
    {
        if self.search_query.as_str().unicode_len() == 0 {
            if self.backspace_pressed_when_empty {
                self.is_searching = false;
                self.backspace_pressed_when_empty = false;
                self.rebuild_rows();
            } else {
                self.backspace_pressed_when_empty = true;
            }
        } else {
            pop_char(&mut self.search_query);
            self.backspace_pressed_when_empty = false;
            self.rebuild_rows();
        }
    }

    fn browse_key(&mut self, key: KeyPress)
        requires
            well_formed(old(self)@),
        ensures
            final(self)@ == browse_step(old(self)@, key),
    {
        let code = key.code;
        if (code == KeyCode::Char('q') || code == KeyCode::Char('c')) && key.control {
            if self.quit_confirmation {
                self.should_quit = true;
            } else {
                self.quit_confirmation = true;
            }
        } else if code == KeyCode::Char('h') && key.control {
            self.active_view = if self.active_view == Some(1u8) { None } else { Some(1u8) };
            self.is_searching = false;
        } else if code == KeyCode::Char('k') && key.control {
            if self.active_view.is_none() && self.rows.len() > 0 {
                self.is_kill_prompt = true;
                self.kill_option_index = 0;
            }
        } else if code == KeyCode::Esc {
            if self.is_searching {
                self.is_searching = false;
                self.search_query = String::new();
                self.backspace_pressed_when_empty = false;
                self.rebuild_rows();
            } else {
                self.active_view = None;
                self.table_scroll_offset = 0;
                self.rebuild_rows();
            }
        } else if code == KeyCode::Char(' ') {
            self.space_key();
        } else if code == KeyCode::F(1) {
            self.active_view = if self.active_view == Some(1u8) { None } else { Some(1u8) };
        } else if code == KeyCode::F(3) {
            self.active_view = None;
            self.is_searching = true;
            self.backspace_pressed_when_empty = false;
        } else if let KeyCode::F(n) = code {
            if 5 <= n && n <= 9 {
                self.active_view = if self.active_view == Some(n) { None } else { Some(n) };
            }
        } else if code == KeyCode::Tab {
            self.tab_key();
        } else if code == KeyCode::Down || code == KeyCode::Up || code == KeyCode::Left || code == KeyCode::Right
            || code == KeyCode::PageDown || code == KeyCode::PageUp {
            self.navigation_key(code);
        } else if let KeyCode::Char(c) = code {
            if self.is_searching {
                push_char(&mut self.search_query, c);
                self.backspace_pressed_when_empty = false;
                self.rebuild_rows();
            }
        } else if code == KeyCode::Backspace && self.is_searching {
            self.backspace_key();
        }
    }

    /// Applies a key press; the result says what the caller has to do.
    pub fn handle_key(&mut self, key: KeyPress) -> (a: Action)
        requires
            well_formed(old(self)@),
        ensures
            well_formed(final(self)@),
            (final(self)@, a) == key_step(old(self)@, key),
    {
        if self.quit_confirmation {
            self.confirm_key(key);
            Action::Nothing
        } else if self.is_kill_prompt {
            self.signal_menu_key(key)
        } else {
            self.browse_key(key);
            Action::Nothing
        }
    }

    /// Applies a mouse event.
    pub fn handle_mouse(&mut self, kind: MouseKind)
        requires
            well_formed(old(self)@),
        ensures
            well_formed(final(self)@),
            final(self)@ == mouse_step(old(self)@, kind),
    {
        if self.active_view.is_none() && !self.is_kill_prompt {
            if kind == MouseKind::ScrollDown {
                if self.rows.len() > 0 && self.selected_row_index + 1 < self.rows.len() {
                    self.selected_row_index = self.selected_row_index + 1;
                }
            } else if kind == MouseKind::ScrollUp {
                self.selected_row_index = self.selected_row_index.saturating_sub(1);
            }
        }
    }
}

} // verus!
