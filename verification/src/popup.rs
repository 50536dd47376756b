//! What the terminal UI's popups compute before they draw: which form fields
//! fit on screen, how a secret is shown, and what the update buttons say.

use vstd::prelude::*;
use core::ops::Range;

verus! {

/// `capacity` held between 1 and `count` (at least 1), as `usize::clamp`.
pub open spec fn slots(count: nat, capacity: nat) -> nat {
    let hi: nat = if count > 0 { count } else { 1 };
    if capacity < 1 {
        1
    } else if capacity > hi {
        hi
    } else {
        capacity
    }
}

/// `a - b`, or 0 below it, as `usize::saturating_sub`.
pub open spec fn minus(a: nat, b: nat) -> nat {
    if a >= b {
        (a - b) as nat
    } else {
        0
    }
}

/// Where the window of form fields starts: late enough to hold the focused
/// field in its last slot, and no later than leaves the last slots filled.
pub open spec fn window_start(count: nat, focused: nat, capacity: nat) -> nat {
    let cap = slots(count, capacity);
    let a = minus(focused, (cap - 1) as nat);
    let b = minus(count, cap);
    if a <= b {
        a
    } else {
        b
    }
}

/// The run of `count` form fields that fits in `capacity` slots and holds the
/// `focused` one. Scrolls only once the focus passes the last slot.
pub fn field_window(count: usize, focused: usize, capacity: usize) -> (r: Range<usize>)
    ensures
        r.start == window_start(count as nat, focused as nat, capacity as nat),
        r.end == r.start + if slots(count as nat, capacity as nat) <= count {
            slots(count as nat, capacity as nat)
        } else {
            count as nat
        },
        // The window holds the focus, fills its slots, and stays in the form.
        focused < count ==> r.start <= focused < r.end,
        count > 0 ==> r.end - r.start == slots(count as nat, capacity as nat),
        r.end <= count,
{
    let hi = if count > 0 { count } else { 1 };
    let cap = if capacity < 1 {
        1
    } else if capacity > hi {
        hi
    } else {
        capacity
    };
    let a = if focused >= cap - 1 { focused - (cap - 1) } else { 0 };
    let b = if count >= cap { count - cap } else { 0 };
    let start = if a <= b { a } else { b };
    let len = if cap <= count { cap } else { count };
    start..start + len
}

/// The stars standing for `n` typed characters.
pub open spec fn stars(n: nat) -> Seq<char>
    decreases n,
{
    if n == 0 {
        Seq::empty()
    } else {
        stars((n - 1) as nat).push('*')
    }
}

/// How a secret field shows: a star per character typed, then the cursor.
pub fn masked(value: &str) -> (s: String)
    ensures
        s@ == "  "@ + stars(value@.len()) + "| "@,
{
    let n = value.unicode_len();
    let mut s = String::from_str("  ");
    let mut i: usize = 0;
    while i < n
        invariant
            i <= n,
            s@ == "  "@ + stars(i as nat),
        decreases n - i,
    {
        s.push('*');
        i = i + 1;
        assert(s@ =~= "  "@ + stars(i as nat));
    }
    s.append("| ");
    s
}

/// A button of the update popup.
#[derive(Debug, Clone, Copy, PartialEq, Eq, Structural)]
pub enum UpdateButton {
    /// Update now, where this install can update itself; else remind later.
    Primary,
    Skip,
    Disable,
}

/// What an update-popup button says.
pub fn update_button_label(button: UpdateButton, can_self_update: bool) -> (l: &'static str)
    ensures
        l@ == match button {
            UpdateButton::Primary => if can_self_update {
                "Update now"@
            } else {
                "Remind me later"@
            },
            UpdateButton::Skip => "Skip this version"@,
            UpdateButton::Disable => "Don't check again"@,
        },
{
    match button {
        UpdateButton::Primary => if can_self_update {
            "Update now"
        } else {
            "Remind me later"
        },
        UpdateButton::Skip => "Skip this version",
        UpdateButton::Disable => "Don't check again",
    }
}

} // verus!
