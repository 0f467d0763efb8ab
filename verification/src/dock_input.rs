//! What a dock does with pointer input: a click focuses or closes the
//! window under the pointer, a scroll moves the focus along the dock's
//! windows.
use vstd::prelude::*;

use crate::dock::DockWindowData;
use crate::handlers::{DockHandler, NiriAction};

verus! {

/// Linux input code of the left mouse button.
pub const BTN_LEFT: u32 = 272;

/// Linux input code of the middle mouse button.
pub const BTN_MIDDLE: u32 = 274;

/// The request for a press of `button` on the button of window
/// `window_id`: the left button focuses it, the middle one closes it, any
/// other does nothing.
pub fn click_action(handler: &DockHandler, button: u32, window_id: u64) -> (r: Option<NiriAction>)
    ensures
        r == if button == BTN_LEFT {
            Some(NiriAction::FocusWindow { id: window_id })
        } else if button == BTN_MIDDLE {
            Some(NiriAction::CloseWindow { id: Some(window_id) })
        } else {
            None
        },
{
    if button == BTN_LEFT {
        Some(handler.focus_window(window_id))
    } else if button == BTN_MIDDLE {
        Some(handler.close_window(window_id))
    } else {
        None
    }
}

/// The scroll steps of a wheel event with vertical steps `v` and
/// horizontal steps `h`: the vertical ones, or the horizontal ones when
/// there are none; `None` when neither moved by a step.
pub fn discrete_scroll_delta(v: i32, h: i32) -> (r: Option<i32>)
    ensures
        r == if v != 0 {
            Some(v)
        } else if h != 0 {
            Some(h)
        } else {
            None
        },
{
    if v != 0 {
        Some(v)
    } else if h != 0 {
        Some(h)
    } else {
        None
    }
}

/// Position of the first window of `ws` with id `id`, -1 when none has it.
pub open spec fn position_of_id(ws: Seq<DockWindowData>, id: u64) -> int
    decreases ws.len(),
{
    if ws.len() == 0 {
        -1
    } else if ws[0].id == id {
        0
    } else if position_of_id(ws.drop_first(), id) < 0 {
        -1
    } else {
        position_of_id(ws.drop_first(), id) + 1
    }
}

/// Position of the first focused window of `ws`, -1 when none is focused.
pub open spec fn position_focused(ws: Seq<DockWindowData>) -> int
    decreases ws.len(),
{
    if ws.len() == 0 {
        -1
    } else if ws[0].is_focused {
        0
    } else if position_focused(ws.drop_first()) < 0 {
        -1
    } else {
        position_focused(ws.drop_first()) + 1
    }
}

/// Where a scroll starts from: the window last scrolled to, if the dock
/// still lists it, else the focused window, else the first one.
pub open spec fn scroll_origin(ws: Seq<DockWindowData>, target: Option<u64>) -> int {
    let focused = if position_focused(ws) >= 0 { position_focused(ws) } else { 0 };
    match target {
        Some(t) => if position_of_id(ws, t) >= 0 { position_of_id(ws, t) } else { focused },
        None => focused,
    }
}

/// The window a scroll of `delta` steps moves the focus to: `delta`
/// positions after the origin, going round the dock's windows; none when
/// the dock lists no window.
pub open spec fn scroll_target(ws: Seq<DockWindowData>, target: Option<u64>, delta: int) -> Option<u64> {
    if ws.len() == 0 {
        None
    } else {
        Some(ws[(scroll_origin(ws, target) + delta) % (ws.len() as int)].id)
    }
}

proof fn lemma_position_of_id(ws: Seq<DockWindowData>, id: u64)
    ensures
        -1 <= position_of_id(ws, id) < ws.len(),
        position_of_id(ws, id) >= 0 ==> ws[position_of_id(ws, id)].id == id,
        position_of_id(ws, id) < 0 ==> forall|j: int| 0 <= j < ws.len() ==> ws[j].id != id,
        forall|j: int| 0 <= j < position_of_id(ws, id) ==> ws[j].id != id,
    decreases ws.len(),
{
    if ws.len() > 0 {
        let t = ws.drop_first();
        lemma_position_of_id(t, id);
        assert forall|j: int| 0 < j < ws.len() implies ws[j] == t[j - 1] by {}
    }
}

proof fn lemma_position_focused(ws: Seq<DockWindowData>)
    ensures
        -1 <= position_focused(ws) < ws.len(),
        position_focused(ws) >= 0 ==> ws[position_focused(ws)].is_focused,
        position_focused(ws) < 0 ==> forall|j: int| 0 <= j < ws.len() ==> !ws[j].is_focused,
        forall|j: int| 0 <= j < position_focused(ws) ==> !ws[j].is_focused,
    decreases ws.len(),
{
    if ws.len() > 0 {
        let t = ws.drop_first();
        lemma_position_focused(t);
        assert forall|j: int| 0 < j < ws.len() implies ws[j] == t[j - 1] by {}
    }
}

/// Position of the first window of `windows` with id `id`, if any.
fn find_window(windows: &Vec<DockWindowData>, id: u64) -> (r: Option<usize>)
    ensures
        r == if position_of_id(windows@, id) >= 0 { Some(position_of_id(windows@, id) as usize) } else { None },
{
    proof {
        lemma_position_of_id(windows@, id);
    }
    let mut i: usize = 0;
    while i < windows.len()
        invariant
            i <= windows@.len(),
            forall|j: int| 0 <= j < i ==> (#[trigger] windows@[j]).id != id,
        decreases windows@.len() - i,
    {
        if windows[i].id == id {
            proof {
                lemma_position_of_id(windows@, id);
                let q = position_of_id(windows@, id);
                if q < 0 || q > i {
                    assert(windows@[i as int].id != id);
                } else if q < i {
                    assert(windows@[q].id != id);
                }
            }
            return Some(i);
        }
        i = i + 1;
    }
    None
}

/// Position of the first focused window of `windows`, if any.
fn find_focused(windows: &Vec<DockWindowData>) -> (r: Option<usize>)
    ensures
        r == if position_focused(windows@) >= 0 { Some(position_focused(windows@) as usize) } else { None },
{
    proof {
        lemma_position_focused(windows@);
    }
    let mut i: usize = 0;
    while i < windows.len()
        invariant
            i <= windows@.len(),
            forall|j: int| 0 <= j < i ==> !(#[trigger] windows@[j]).is_focused,
        decreases windows@.len() - i,
    {
        if windows[i].is_focused {
            proof {
                lemma_position_focused(windows@);
                let q = position_focused(windows@);
                if q < 0 || q > i {
                    assert(!windows@[i as int].is_focused);
                } else if q < i {
                    assert(!windows@[q].is_focused);
                }
            }
            return Some(i);
        }
        i = i + 1;
    }
    None
}

/// The window a scroll of `delta` steps over the dock's `windows` focuses,
/// with `target` the window the previous scroll went to: counted from that
/// window while the dock still lists it, else from the focused window,
/// else from the first, going round.
pub fn scroll_focus_target(windows: &Vec<DockWindowData>, target: Option<u64>, delta: i32) -> (r: Option<u64>)
    requires
        windows@.len() <= i32::MAX,
    ensures
        r == scroll_target(windows@, target, delta as int),
{
    if windows.len() == 0 {
        return None;
    }
    proof {
        lemma_position_of_id(windows@, 0);
        lemma_position_focused(windows@);
    }
    let focused = match find_focused(windows) {
        Some(p) => p,
        None => 0,
    };
    let origin = match target {
        Some(t) => match find_window(windows, t) {
            Some(p) => p,
            None => focused,
        },
        None => focused,
    };
    proof {
        if let Some(t) = target {
            lemma_position_of_id(windows@, t);
        }
    }
    assert(origin as int == scroll_origin(windows@, target));
    let n = windows.len() as i64;
    let x = origin as i64 + delta as i64;
    let idx: i64 = if x >= 0 {
        let r = ((x as u64) % (n as u64)) as i64;
        r
    } else {
        let y = (-(x + 1)) as u64;
        let s = (y % (n as u64)) as i64;
        proof {
            let q = y as int / n as int;
            vstd::arithmetic::div_mod::lemma_fundamental_div_mod(y as int, n as int);
            assert(x == -(q + 1) * n + (n - 1 - s)) by (nonlinear_arith)
                requires
                    y == q * n + s,
                    x == -(y as int) - 1;
            vstd::arithmetic::div_mod::lemma_fundamental_div_mod_converse(x as int, n as int, -(q + 1), n - 1 - s);
        }
        n - 1 - s
    };
    assert(idx == (origin as int + delta as int) % (n as int));
    Some(windows[idx as usize].id)
}

} // verus!
