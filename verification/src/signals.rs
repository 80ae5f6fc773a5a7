//! The signals offered in the signal menu, in menu order.

use vstd::prelude::*;
use crate::text::decimal;

verus! {

/// Number of entries in the signal menu.
pub const SIGNAL_COUNT: usize = 6;

/// Menu label of entry `i`.
pub open spec fn signal_label(i: int) -> Seq<char> {
    if i == 0 { "SIGTERM (15 - Graceful termination)"@ }
    else if i == 1 { "SIGKILL (9  - Force kill)"@ }
    else if i == 2 { "SIGINT  (2  - Interrupt / Ctrl+C)"@ }
    else if i == 3 { "SIGHUP  (1  - Hangup / Reload config)"@ }
    else if i == 4 { "SIGSTOP (19 - Pause / Stop process)"@ }
    else { "SIGCONT (18 - Resume process)"@ }
}

/// Signal number of entry `i`.
pub open spec fn signal_code(i: int) -> i32 {
    if i == 0 { 15 }
    else if i == 1 { 9 }
    else if i == 2 { 2 }
    else if i == 3 { 1 }
    else if i == 4 { 19 }
    else { 18 }
}

/// Menu label of entry `i`.
pub fn signal_name(i: usize) -> (r: &'static str)
    requires
        i < SIGNAL_COUNT,
    ensures
        r@ == signal_label(i as int),
{
    if i == 0 { "SIGTERM (15 - Graceful termination)" }
    else if i == 1 { "SIGKILL (9  - Force kill)" }
    else if i == 2 { "SIGINT  (2  - Interrupt / Ctrl+C)" }
    else if i == 3 { "SIGHUP  (1  - Hangup / Reload config)" }
    else if i == 4 { "SIGSTOP (19 - Pause / Stop process)" }
    else { "SIGCONT (18 - Resume process)" }
}

/// Signal number of entry `i`.
pub fn signal_number(i: usize) -> (r: i32)
    requires
        i < SIGNAL_COUNT,
    ensures
        r == signal_code(i as int),
{
    if i == 0 { 15 }
    else if i == 1 { 9 }
    else if i == 2 { 2 }
    else if i == 3 { 1 }
    else if i == 4 { 19 }
    else { 18 }
}

/// `label` shows the signal number `code`: an opening parenthesis at
/// position 8, then the decimal digits of `code`, then a space.
pub open spec fn label_shows_number(label: Seq<char>, code: int) -> bool {
    let d = decimal(code as nat);
    &&& code >= 0
    &&& label.len() > 9 + d.len()
    &&& label[8] == '('
    &&& label.subrange(9, 9 + d.len() as int) == d
    &&& label[9 + d.len() as int] == ' '
}

/// Every menu entry sends the signal whose number its label shows, so the
/// menu never sends a signal other than the one the user picked.
pub proof fn lemma_entry_sends_the_number_in_its_label(i: int)
    requires
        0 <= i < SIGNAL_COUNT,
    ensures
        label_shows_number(signal_label(i), signal_code(i) as int),
{
    reveal_with_fuel(decimal, 3);
    assert(decimal(1) =~= seq!['1']);
    assert(decimal(2) =~= seq!['2']);
    assert(decimal(9) =~= seq!['9']);
    assert(decimal(15) =~= seq!['1', '5']);
    assert(decimal(18) =~= seq!['1', '8']);
    assert(decimal(19) =~= seq!['1', '9']);
    if i == 0 {
        reveal_strlit("SIGTERM (15 - Graceful termination)");
        assert(signal_label(i).subrange(9, 11) =~= seq!['1', '5']);
    } else if i == 1 {
        reveal_strlit("SIGKILL (9  - Force kill)");
        assert(signal_label(i).subrange(9, 10) =~= seq!['9']);
    } else if i == 2 {
        reveal_strlit("SIGINT  (2  - Interrupt / Ctrl+C)");
        assert(signal_label(i).subrange(9, 10) =~= seq!['2']);
    } else if i == 3 {
        reveal_strlit("SIGHUP  (1  - Hangup / Reload config)");
        assert(signal_label(i).subrange(9, 10) =~= seq!['1']);
    } else if i == 4 {
        reveal_strlit("SIGSTOP (19 - Pause / Stop process)");
        assert(signal_label(i).subrange(9, 11) =~= seq!['1', '9']);
    } else {
        reveal_strlit("SIGCONT (18 - Resume process)");
        assert(signal_label(i).subrange(9, 11) =~= seq!['1', '8']);
    }
}

} // verus!
