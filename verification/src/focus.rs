//! Keyboard focus inside overlays: the dialog's Tab trap, the context
//! menu's roving focus, and the grid/list switch's arrow keys. Each works
//! on positions in the list of focusable elements the page found.

use vstd::prelude::*;

use crate::text::same_text;

verus! {

/// Where Tab or Shift+Tab sends focus inside a dialog.
#[derive(Debug, Clone, Copy, PartialEq, Eq)]
pub enum TrapFocus {
    /// Nothing focusable inside: hold focus on the dialog itself.
    Container,
    /// Wrap to this element.
    Element(usize),
    /// Leave it to the browser: the next element is inside anyway.
    Native,
}

/// The dialog's Tab trap over `len` focusable elements, focus at `idx` (if
/// on one of them): Shift+Tab from the first (or from outside) wraps to the
/// last, Tab from the last (or from outside) wraps to the first.
pub open spec fn trap_spec(len: usize, idx: Option<usize>, shift: bool) -> TrapFocus {
    if len == 0 {
        TrapFocus::Container
    } else if shift && (idx == Some(0usize) || idx is None) {
        TrapFocus::Element((len - 1) as usize)
    } else if !shift && idx is None {
        TrapFocus::Element(0)
    } else if !shift && idx == Some((len - 1) as usize) {
        TrapFocus::Element(0)
    } else {
        TrapFocus::Native
    }
}

/// Decides where Tab goes inside a dialog.
pub fn trap_target(len: usize, idx: Option<usize>, shift: bool) -> (t: TrapFocus)
    ensures
        t == trap_spec(len, idx, shift),
{
    if len == 0 {
        return TrapFocus::Container;
    }
    match (shift, idx) {
        (true, Some(0)) | (true, None) => TrapFocus::Element(len - 1),
        (false, None) => TrapFocus::Element(0),
        (false, Some(i)) => if i == len - 1 {
            TrapFocus::Element(0)
        } else {
            TrapFocus::Native
        },
        _ => TrapFocus::Native,
    }
}

/// A roving-focus move in a menu.
#[derive(Debug, Clone, Copy, PartialEq, Eq)]
pub enum MenuStep {
    Next,
    Prev,
    First,
    Last,
}

/// The menu's keys: ↓ ↑ Home End.
pub fn menu_step(key: &str) -> (s: Option<MenuStep>)
    ensures
        s == if key@ == "ArrowDown"@ {
            Some(MenuStep::Next)
        } else if key@ == "ArrowUp"@ {
            Some(MenuStep::Prev)
        } else if key@ == "Home"@ {
            Some(MenuStep::First)
        } else if key@ == "End"@ {
            Some(MenuStep::Last)
        } else {
            None
        },
{
    if same_text(key, "ArrowDown") {
        Some(MenuStep::Next)
    } else if same_text(key, "ArrowUp") {
        Some(MenuStep::Prev)
    } else if same_text(key, "Home") {
        Some(MenuStep::First)
    } else if same_text(key, "End") {
        Some(MenuStep::Last)
    } else {
        None
    }
}

/// The item a step lands on among `len`, focus at `current` (if on one):
/// the ends for Home and End; with no item focused, the near end; else the
/// next or previous one, wrapping around.
pub open spec fn menu_spec(len: nat, current: Option<usize>, step: MenuStep) -> Option<int> {
    if len == 0 {
        None
    } else {
        Some(
            match (step, current) {
                (MenuStep::First, _) => 0,
                (MenuStep::Last, _) => len - 1,
                (MenuStep::Next, None) => 0,
                (MenuStep::Prev, None) => len - 1,
                (MenuStep::Next, Some(i)) => (i + 1) % (len as int),
                (MenuStep::Prev, Some(i)) => (i + len - 1) % (len as int),
            },
        )
    }
}

/// Where a menu step moves focus.
pub fn menu_target(len: usize, current: Option<usize>, step: MenuStep) -> (t: Option<usize>)
    requires
        match current {
            Some(i) => i < len,
            None => true,
        },
    ensures
        match t {
            Some(k) => menu_spec(len as nat, current, step) == Some(k as int),
            None => menu_spec(len as nat, current, step) is None,
        },
{
    if len == 0 {
        return None;
    }
    let next = match (step, current) {
        (MenuStep::First, _) => 0,
        (MenuStep::Last, _) => len - 1,
        (MenuStep::Next, None) => 0,
        (MenuStep::Prev, None) => len - 1,
        (MenuStep::Next, Some(i)) => if i + 1 == len {
            0
        } else {
            i + 1
        },
        (MenuStep::Prev, Some(i)) => if i == 0 {
            len - 1
        } else {
            i - 1
        },
    };
    proof {
        match (step, current) {
            (MenuStep::Next, Some(i)) => {
                if i + 1 == len {
                    assert((i + 1) % (len as int) == 0) by (nonlinear_arith)
                        requires
                            i + 1 == len,
                            len > 0,
                    ;
                } else {
                    assert((i + 1) % (len as int) == i + 1) by (nonlinear_arith)
                        requires
                            i + 1 < len,
                    ;
                }
            },
            (MenuStep::Prev, Some(i)) => {
                if i == 0 {
                    assert((i + len - 1) % (len as int) == len - 1) by (nonlinear_arith)
                        requires
                            i == 0,
                            len > 0,
                    ;
                } else {
                    assert((i + len - 1) % (len as int) == i - 1) by (nonlinear_arith)
                        requires
                            0 < i < len,
                    ;
                }
            },
            _ => {},
        }
    }
    Some(next)
}

/// The grid/list switch's arrows: → and ↓ pick the list, ← and ↑ the grid.
pub fn switch_key(key: &str) -> (list: Option<bool>)
    ensures
        list == if key@ == "ArrowRight"@ || key@ == "ArrowDown"@ {
            Some(true)
        } else if key@ == "ArrowLeft"@ || key@ == "ArrowUp"@ {
            Some(false)
        } else {
            None
        },
{
    if same_text(key, "ArrowRight") || same_text(key, "ArrowDown") {
        Some(true)
    } else if same_text(key, "ArrowLeft") || same_text(key, "ArrowUp") {
        Some(false)
    } else {
        None
    }
}

/// A switch button's `tabindex`: the pressed one is the group's tab stop.
pub fn switch_tabindex(list_view: bool, is_list_button: bool) -> (t: i32)
    ensures
        t == if list_view == is_list_button {
            0i32
        } else {
            -1i32
        },
{
    if list_view == is_list_button {
        0
    } else {
        -1
    }
}

// --------------------------------------------------------------- the laws --

/// A menu step always lands on an item, and ↑ undoes ↓ (and ↓ undoes ↑):
/// the roving focus is a cycle.
pub proof fn law_menu_steps_cycle(len: usize, i: usize)
    requires
        i < len,
    ensures
        match menu_spec(len as nat, Some(i), MenuStep::Next) {
            Some(k) => 0 <= k < len && menu_spec(len as nat, Some(k as usize), MenuStep::Prev)
                == Some(i as int),
            None => false,
        },
        match menu_spec(len as nat, Some(i), MenuStep::Prev) {
            Some(k) => 0 <= k < len && menu_spec(len as nat, Some(k as usize), MenuStep::Next)
                == Some(i as int),
            None => false,
        },
{
    let n = len as int;
    if i + 1 == n {
        assert((i + 1) % n == 0) by (nonlinear_arith)
            requires
                i + 1 == n,
                n > 0,
        ;
        assert((0 + n - 1) % n == n - 1) by (nonlinear_arith)
            requires
                n > 0,
        ;
    } else {
        assert((i + 1) % n == i + 1) by (nonlinear_arith)
            requires
                i + 1 < n,
        ;
        assert((i + 1 + n - 1) % n == i) by (nonlinear_arith)
            requires
                0 <= i,
                i + 1 < n,
        ;
    }
    if i == 0 {
        assert((i + n - 1) % n == n - 1) by (nonlinear_arith)
            requires
                i == 0,
                n > 0,
        ;
        assert((n - 1 + 1) % n == 0) by (nonlinear_arith)
            requires
                n > 0,
        ;
    } else {
        assert((i + n - 1) % n == i - 1) by (nonlinear_arith)
            requires
                0 < i < n,
        ;
        assert((i - 1 + 1) % n == i) by (nonlinear_arith)
            requires
                0 < i < n,
        ;
    }
}

/// The Tab trap keeps focus inside: from the last element Tab wraps to the
/// first, and from the first Shift+Tab wraps to the last.
pub proof fn law_tab_wraps_inside(len: usize)
    requires
        len > 0,
    ensures
        trap_spec(len, Some((len - 1) as usize), false) == TrapFocus::Element(0),
        trap_spec(len, Some(0usize), true) == TrapFocus::Element((len - 1) as usize),
{
}

} // verus!
