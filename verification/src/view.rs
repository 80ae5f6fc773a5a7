//! What the screen shows, computed from the state: the table columns and
//! scroll window, titles, the signal menu, the footer and the system summary.

use vstd::prelude::*;
use crate::text::{decimal, trimmed, trim_text, push_decimal};
use crate::rows::RowView;
use crate::monitor::{MonitorState, MonitorView};
use crate::signals::{SIGNAL_COUNT, signal_label, signal_name};
use vstd::string::StringExecFns;

verus! {

/// Number of columns of the process table.
pub const COLUMN_COUNT: usize = 12;

/// Header of column `i` of the process table.
pub open spec fn column_title(i: int) -> Seq<char> {
    if i == 0 { "STARTED"@ }
    else if i == 1 { "PID"@ }
    else if i == 2 { "%MEM"@ }
    else if i == 3 { "ELAPSED"@ }
    else if i == 4 { "NI"@ }
    else if i == 5 { "%CPU"@ }
    else if i == 6 { "PGRP"@ }
    else if i == 7 { "TT"@ }
    else if i == 8 { "RUSER"@ }
    else if i == 9 { "EUSER"@ }
    else if i == 10 { "FUSER"@ }
    else { "COMMAND"@ }
}

fn column_name(i: usize) -> (r: &'static str)
    ensures
        r@ == column_title(i as int),
{
    if i == 0 { "STARTED" }
    else if i == 1 { "PID" }
    else if i == 2 { "%MEM" }
    else if i == 3 { "ELAPSED" }
    else if i == 4 { "NI" }
    else if i == 5 { "%CPU" }
    else if i == 6 { "PGRP" }
    else if i == 7 { "TT" }
    else if i == 8 { "RUSER" }
    else if i == 9 { "EUSER" }
    else if i == 10 { "FUSER" }
    else { "COMMAND" }
}

/// How many leading columns are scrolled out of view: the scroll, but the
/// last column always stays.
pub fn column_offset(scroll: usize) -> (r: usize)
    ensures
        r == (if scroll < COLUMN_COUNT - 1 { scroll } else { (COLUMN_COUNT - 1) as usize }),
{
    if scroll < COLUMN_COUNT - 1 { scroll } else { COLUMN_COUNT - 1 }
}

/// The headers of the columns from `offset` on.
pub fn column_headers(offset: usize) -> (r: Vec<&'static str>)
    requires
        offset < COLUMN_COUNT,
    ensures
        r@.len() == COLUMN_COUNT - offset,
        forall|k: int| 0 <= k < r@.len() ==> (#[trigger] r@[k])@ == column_title(offset + k),
{
    let mut r: Vec<&'static str> = Vec::new();
    let mut i = offset;
    while i < COLUMN_COUNT
        invariant
            offset <= i <= COLUMN_COUNT,
            r@.len() == i - offset,
            forall|k: int| 0 <= k < r@.len() ==> (#[trigger] r@[k])@ == column_title(offset + k),
        decreases COLUMN_COUNT - i,
    {
        r.push(column_name(i));
        i = i + 1;
    }
    r
}

/// Number of table rows that fit in an area of the given height (borders and
/// header take four lines).
pub open spec fn visible_rows(area_height: u16) -> nat {
    if area_height >= 4 { (area_height - 4) as nat } else { 0 }
}

/// The first row to draw and how many rows to draw: the window scrolls just
/// far enough to keep the selected row visible, and at least ten rows are
/// drawn.
pub fn table_window(selected: usize, area_height: u16) -> (r: (usize, usize))
    ensures
        r.0 == (if selected >= visible_rows(area_height) && visible_rows(area_height) > 0 {
            selected - visible_rows(area_height) + 1
        } else {
            0
        }),
        r.1 == (if visible_rows(area_height) >= 10 { visible_rows(area_height) } else { 10 }),
{
    let visible = area_height.saturating_sub(4) as usize;
    let start = if selected >= visible && visible > 0 { selected - visible + 1 } else { 0 };
    let count = if visible >= 10 { visible } else { 10 };
    (start, count)
}

/// Name of the current table layout.
pub open spec fn view_label(v: MonitorView) -> Seq<char> {
    if v.is_searching {
        "Search Results [Query: "@ + v.search_query + "]"@
    } else if v.is_flat_tree {
        "Flat Tree View"@
    } else {
        "Process Tree View"@
    }
}

/// Title of the process table.
pub open spec fn table_title(v: MonitorView) -> Seq<char> {
    " ⚙ sysng: "@ + view_label(v) + " [Space: Toggle | Ctrl+K: Signals | Ctrl+H: Help] "@
}

/// Title of the process table.
pub fn table_title_text(state: &MonitorState) -> (r: String)
    ensures
        r@ == table_title(state@),
{
    let mut s = String::from_str(" ⚙ sysng: ");
    if state.is_searching {
        s.append("Search Results [Query: ");
        s.append(state.search_query.as_str());
        s.append("]");
    } else if state.is_flat_tree {
        s.append("Flat Tree View");
    } else {
        s.append("Process Tree View");
    }
    s.append(" [Space: Toggle | Ctrl+K: Signals | Ctrl+H: Help] ");
    assert(s@ =~= table_title(state@));
    s
}

/// The menu lines for entries `0..n`, the chosen one marked with a pointer.
pub open spec fn menu_lines(chosen: int, n: nat) -> Seq<char>
    decreases n,
{
    if n == 0 {
        Seq::empty()
    } else {
        let i = n - 1;
        menu_lines(chosen, (n - 1) as nat) + (if i == chosen { "👉 "@ } else { "   "@ }) + signal_label(i) + "\n"@
    }
}

/// The signal menu for the process of `row` with entry `chosen` marked.
pub open spec fn signal_menu(row: RowView, chosen: int) -> Seq<char> {
    "Send Signal to Process (PID: "@ + row.pid_str + ", Name: "@ + trimmed(row.display_command) + ")\n\n"@
        + menu_lines(chosen, SIGNAL_COUNT as nat) + "\n[Up/Down] Select | [Enter] Send Signal | [Esc] Cancel"@
}

/// The signal menu while it is open and the table has rows.
pub fn signal_menu_text(state: &MonitorState) -> (r: Option<String>)
    requires
        state.rows@.len() > 0 ==> state.selected_row_index < state.rows@.len(),
    ensures
        (state.is_kill_prompt && state.rows@.len() > 0) == r is Some,
        r matches Some(t) ==> t@ == signal_menu(state@.rows[state.selected_row_index as int], state.kill_option_index as int),
{
    if !(state.is_kill_prompt && state.rows.len() > 0) {
        return None;
    }
    let row = &state.rows[state.selected_row_index];
    let ghost rv = state@.rows[state.selected_row_index as int];
    assert(rv == row@);
    let mut s = String::from_str("Send Signal to Process (PID: ");
    s.append(row.pid_str.as_str());
    s.append(", Name: ");
    let name = trim_text(row.display_command.as_str());
    s.append(name.as_str());
    s.append(")\n\n");
    let ghost head = s@;
    let mut i: usize = 0;
    while i < SIGNAL_COUNT
        invariant
            i <= SIGNAL_COUNT,
            s@ == head + menu_lines(state.kill_option_index as int, i as nat),
        decreases SIGNAL_COUNT - i,
    {
        if i == state.kill_option_index {
            s.append("👉 ");
        } else {
            s.append("   ");
        }
        s.append(signal_name(i));
        s.append("\n");
        i = i + 1;
        assert(s@ =~= head + menu_lines(state.kill_option_index as int, i as nat));
    }
    s.append("\n[Up/Down] Select | [Enter] Send Signal | [Esc] Cancel");
    assert(s@ =~= signal_menu(rv, state.kill_option_index as int));
    Some(s)
}

/// Footer hint line for the state.
pub open spec fn footer(v: MonitorView) -> Seq<char> {
    if v.quit_confirmation {
        "Confirm exit? Press [Y] to quit, [N] or [ESC] to cancel"@
    } else if v.is_kill_prompt {
        " [UP/DOWN] Choose Signal | [ENTER] Send Signal | [ESC] Cancel "@
    } else if v.active_view is None {
        " [UP/DOWN] Select | [SPACE] Toggle | [Ctrl+K] Signals | [Ctrl+H] Help | [F3] Search | [TAB] Tree/Flat "@
    } else if v.active_view == Some(7u8) {
        " [TAB] Switch Graph Metric | [ESC] Back "@
    } else if v.active_view == Some(8u8) {
        " [TAB] Toggle USB/Mounts | [ESC] Back "@
    } else {
        " [Ctrl+H] Help | [F3] Search | [F5] Stats | [F6] Top | [F7] Graphs | [F8] Mounts | [F9] Sockets | [ESC] Back "@
    }
}

/// Footer hint line for the state.
pub fn footer_text(state: &MonitorState) -> (r: &'static str)
    ensures
        r@ == footer(state@),
{
    if state.quit_confirmation {
        "Confirm exit? Press [Y] to quit, [N] or [ESC] to cancel"
    } else if state.is_kill_prompt {
        " [UP/DOWN] Choose Signal | [ENTER] Send Signal | [ESC] Cancel "
    } else if state.active_view.is_none() {
        " [UP/DOWN] Select | [SPACE] Toggle | [Ctrl+K] Signals | [Ctrl+H] Help | [F3] Search | [TAB] Tree/Flat "
    } else if state.active_view == Some(7u8) {
        " [TAB] Switch Graph Metric | [ESC] Back "
    } else if state.active_view == Some(8u8) {
        " [TAB] Toggle USB/Mounts | [ESC] Back "
    } else {
        " [Ctrl+H] Help | [F3] Search | [F5] Stats | [F6] Top | [F7] Graphs | [F8] Mounts | [F9] Sockets | [ESC] Back "
    }
}

/// The help screen: one line per key.
pub open spec fn help() -> Seq<char> {
    " 📖 sysng Help & Documentation (Ctrl+H / F1)\n\n\
   [Esc]            Back to Process View / Clear Search\n\
   [Space]          Collapse/Expand selected tree node\n\
   [Tab]            Toggle Tree / Flat view or switch sub-tabs\n\
   [F3]             Instant Search Filter (Double Backspace on empty exits search)\n\
   [Ctrl+K]         Open Extended Signal Menu for selected process\n\
   [Ctrl+H]         Open/Close this Help screen\n\
   [F5]             System Diagnostics & Information\n\
   [F6]             Top CPU & Memory Resource Consumers\n\
   [F7]             45-Second Resource & Network Graphs\n\
   [F8]             Storage Mounts & USB Devices\n\
   [F9]             Active Network Sockets Inspector\n\
   [Ctrl+Q/C]       Safe Exit Confirmation"@
}

/// The help screen.
pub fn help_text() -> (r: &'static str)
    ensures
        r@ == help(),
{
    " 📖 sysng Help & Documentation (Ctrl+H / F1)\n\n\
   [Esc]            Back to Process View / Clear Search\n\
   [Space]          Collapse/Expand selected tree node\n\
   [Tab]            Toggle Tree / Flat view or switch sub-tabs\n\
   [F3]             Instant Search Filter (Double Backspace on empty exits search)\n\
   [Ctrl+K]         Open Extended Signal Menu for selected process\n\
   [Ctrl+H]         Open/Close this Help screen\n\
   [F5]             System Diagnostics & Information\n\
   [F6]             Top CPU & Memory Resource Consumers\n\
   [F7]             45-Second Resource & Network Graphs\n\
   [F8]             Storage Mounts & USB Devices\n\
   [F9]             Active Network Sockets Inspector\n\
   [Ctrl+Q/C]       Safe Exit Confirmation"
}

/// Bytes in a mebibyte.
pub const MIB: u64 = 1048576;

/// The system summary: OS and host names (or `Unknown OS` / `Unknown Host`)
/// and used / total memory in whole mebibytes.
pub open spec fn system_summary(os: Option<Seq<char>>, host: Option<Seq<char>>, used: u64, total: u64) -> Seq<char> {
    " 💻 System Information\n\n   • OS: "@ + (match os { Some(t) => t, None => "Unknown OS"@ })
        + "\n   • Hostname: "@ + (match host { Some(t) => t, None => "Unknown Host"@ })
        + "\n   • Memory: "@ + decimal((used / MIB) as nat) + " MB / "@ + decimal((total / MIB) as nat) + " MB"@
}

/// The system summary text.
pub fn system_summary_text(os: &Option<String>, host: &Option<String>, used: u64, total: u64) -> (r: String)
    ensures
        r@ == system_summary(crate::process::opt_text(*os), crate::process::opt_text(*host), used, total),
{
    let mut s = String::from_str(" 💻 System Information\n\n   • OS: ");
    match os {
        Some(t) => s.append(t.as_str()),
        None => s.append("Unknown OS"),
    }
    s.append("\n   • Hostname: ");
    match host {
        Some(t) => s.append(t.as_str()),
        None => s.append("Unknown Host"),
    }
    s.append("\n   • Memory: ");
    push_decimal(&mut s, used / MIB);
    s.append(" MB / ");
    push_decimal(&mut s, total / MIB);
    s.append(" MB");
    assert(s@ =~= system_summary(crate::process::opt_text(*os), crate::process::opt_text(*host), used, total));
    s
}

} // verus!
