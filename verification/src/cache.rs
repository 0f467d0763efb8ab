//! The cache of the compositor's windows and workspaces, kept current by the
//! event stream.
use vstd::prelude::*;

use crate::idvec::{IdVec, Keyed, keys_unique, seq_map, lemma_seq_map_values};
use crate::model::{Duplicate, Event, WindowInfo, WorkspaceInfo, clone_opt_str, opt_str_eq, ostr};

verus! {

/// The map that inserting the elements of `s` in order into an empty map gives:
/// later elements replace earlier ones with the same key.
pub open spec fn list_map<T: Keyed>(s: Seq<T>) -> Map<u64, T>
    decreases s.len(),
{
    if s.len() == 0 {
        Map::empty()
    } else {
        list_map(s.drop_last()).insert(s.last().key(), s.last())
    }
}

/// Workspace `w` after workspace `id` was activated on the output `out`,
/// becoming focused as well when `focused` holds.
pub open spec fn activated(w: WorkspaceInfo, out: Option<Seq<char>>, id: u64, focused: bool) -> WorkspaceInfo {
    if ostr(w.output) == out {
        WorkspaceInfo { is_active: w.id == id, is_focused: w.id == id && focused, ..w }
    } else {
        w
    }
}

/// The workspaces after workspace `id` was activated: every workspace of its
/// output is active exactly when it is `id`, and focused exactly when it is
/// `id` and `focused` holds. Nothing changes when `id` is unknown.
pub open spec fn activate(m: Map<u64, WorkspaceInfo>, id: u64, focused: bool) -> Map<u64, WorkspaceInfo> {
    if m.contains_key(id) {
        Map::new(|k: u64| m.contains_key(k), |k: u64| activated(m[k], ostr(m[id].output), id, focused))
    } else {
        m
    }
}

/// Window `w` with its focus set to `f`.
pub open spec fn with_focus(w: WindowInfo, f: bool) -> WindowInfo {
    WindowInfo { is_focused: f, ..w }
}

/// Every window, unfocused.
pub open spec fn unfocus_all(m: Map<u64, WindowInfo>) -> Map<u64, WindowInfo> {
    Map::new(|k: u64| m.contains_key(k), |k: u64| with_focus(m[k], false))
}

/// Every window, focused exactly when it is `id`.
pub open spec fn focus_only(m: Map<u64, WindowInfo>, id: u64) -> Map<u64, WindowInfo> {
    Map::new(|k: u64| m.contains_key(k), |k: u64| with_focus(m[k], m[k].id == id))
}

/// Window `id` with its urgency set to `u`, if it exists.
pub open spec fn set_urgent(m: Map<u64, WindowInfo>, id: u64, u: bool) -> Map<u64, WindowInfo> {
    if m.contains_key(id) {
        m.insert(id, WindowInfo { is_urgent: u, ..m[id] })
    } else {
        m
    }
}

/// Window `id` with its layout position set to `pos`, if it exists.
pub open spec fn set_layout(m: Map<u64, WindowInfo>, id: u64, pos: Option<(usize, usize)>) -> Map<u64, WindowInfo> {
    if m.contains_key(id) {
        m.insert(id, WindowInfo { pos_in_scrolling_layout: pos, ..m[id] })
    } else {
        m
    }
}

/// The layout changes applied in order.
pub open spec fn set_layouts(m: Map<u64, WindowInfo>, c: Seq<(u64, Option<(usize, usize)>)>) -> Map<u64, WindowInfo>
    decreases c.len(),
{
    if c.len() == 0 {
        m
    } else {
        set_layout(set_layouts(m, c.drop_last()), c.last().0, c.last().1)
    }
}

/// The windows after event `e`; window events change them only while
/// windows are followed (`needs_windows`).
pub open spec fn windows_after(m: Map<u64, WindowInfo>, e: Event, needs_windows: bool) -> Map<u64, WindowInfo> {
    if !needs_windows {
        m
    } else {
        match e {
            Event::WindowsChanged { windows } => list_map(windows@),
            Event::WindowOpenedOrChanged { window } => if window.is_focused {
                unfocus_all(m).insert(window.id, window)
            } else {
                m.insert(window.id, window)
            },
            Event::WindowClosed { id } => m.remove(id),
            Event::WindowFocusChanged { id } => match id {
                Some(f) => focus_only(m, f),
                None => m,
            },
            Event::WindowUrgencyChanged { id, is_urgent } => set_urgent(m, id, is_urgent),
            Event::WindowLayoutsChanged { changes } => set_layouts(m, changes@),
            _ => m,
        }
    }
}

/// The workspaces after event `e`.
pub open spec fn workspaces_after(m: Map<u64, WorkspaceInfo>, e: Event) -> Map<u64, WorkspaceInfo> {
    match e {
        Event::WorkspacesChanged { workspaces } => list_map(workspaces@),
        Event::WorkspaceActivated { id, focused } => activate(m, id, focused),
        _ => m,
    }
}

/// Whether event `e` brings windows whose icons must be loaded.
pub open spec fn event_loads_icons(e: Event, needs_windows: bool) -> bool {
    needs_windows && (e is WindowsChanged || e is WindowOpenedOrChanged)
}

/// The compositor's windows and workspaces, each under its id.
#[derive(Debug)]
pub struct DataCache {
    pub windows: IdVec<WindowInfo>,
    pub workspaces: IdVec<WorkspaceInfo>,
}

impl DataCache {
    /// An empty cache.
    pub fn new() -> (r: Self)
        ensures
            r.windows.view() == Map::<u64, WindowInfo>::empty(),
            r.workspaces.view() == Map::<u64, WorkspaceInfo>::empty(),
    {
        DataCache { windows: IdVec::new(), workspaces: IdVec::new() }
    }

    /// Applies event `e`. Window events are applied only when
    /// `needs_windows` holds. Returns whether windows arrived whose icons
    /// must be loaded.
    pub fn apply_event(&mut self, e: &Event, needs_windows: bool) -> (load_icons: bool)
        ensures
            final(self).windows.view() == windows_after(old(self).windows.view(), *e, needs_windows),
            final(self).workspaces.view() == workspaces_after(old(self).workspaces.view(), *e),
            load_icons == event_loads_icons(*e, needs_windows),
    {
        match e {
            Event::WorkspacesChanged { workspaces } => {
                replace_all_workspaces(&mut self.workspaces, workspaces);
                false
            },
            Event::WorkspaceActivated { id, focused } => {
                activate_workspace(&mut self.workspaces, *id, *focused);
                false
            },
            Event::WindowsChanged { windows } => {
                if needs_windows {
                    replace_all_windows(&mut self.windows, windows);
                    true
                } else {
                    false
                }
            },
            Event::WindowOpenedOrChanged { window } => {
                if needs_windows {
                    if window.is_focused {
                        set_all_focus(&mut self.windows, None);
                    }
                    self.windows.insert(window.duplicate());
                    true
                } else {
                    false
                }
            },
            Event::WindowClosed { id } => {
                if needs_windows {
                    self.windows.remove(*id);
                }
                false
            },
            Event::WindowFocusChanged { id } => {
                if needs_windows {
                    if let Some(f) = id {
                        set_all_focus(&mut self.windows, Some(*f));
                    }
                }
                false
            },
            Event::WindowUrgencyChanged { id, is_urgent } => {
                if needs_windows {
                    if let Some(i) = self.windows.find(*id) {
                        let mut w = self.windows.at(i).duplicate();
                        w.is_urgent = *is_urgent;
                        let ghost before = self.windows.view();
                        self.windows.insert(w);
                        proof {
                            assert(self.windows.view() =~= set_urgent(before, *id, *is_urgent));
                        }
                    }
                }
                false
            },
            Event::WindowLayoutsChanged { changes } => {
                if needs_windows {
                    apply_layouts(&mut self.windows, changes);
                }
                false
            },
        }
    }
}

/// Replaces every workspace by the ones of `list`.
fn replace_all_workspaces(ws: &mut IdVec<WorkspaceInfo>, list: &Vec<WorkspaceInfo>)
    ensures
        final(ws).view() == list_map(list@),
{
    ws.clear();
    let mut i: usize = 0;
    while i < list.len()
        invariant
            i <= list@.len(),
            ws.view() == list_map(list@.take(i as int)),
        decreases list@.len() - i,
    {
        ws.insert(list[i].duplicate());
        assert(list@.take(i + 1).drop_last() =~= list@.take(i as int));
        i = i + 1;
    }
    assert(list@.take(list@.len() as int) =~= list@);
}

/// Replaces every window by the ones of `list`.
fn replace_all_windows(wins: &mut IdVec<WindowInfo>, list: &Vec<WindowInfo>)
    ensures
        final(wins).view() == list_map(list@),
{
    wins.clear();
    let mut i: usize = 0;
    while i < list.len()
        invariant
            i <= list@.len(),
            wins.view() == list_map(list@.take(i as int)),
        decreases list@.len() - i,
    {
        wins.insert(list[i].duplicate());
        assert(list@.take(i + 1).drop_last() =~= list@.take(i as int));
        i = i + 1;
    }
    assert(list@.take(list@.len() as int) =~= list@);
}

/// Activates workspace `id` on its output.
fn activate_workspace(ws: &mut IdVec<WorkspaceInfo>, id: u64, focused: bool)
    ensures
        final(ws).view() == activate(old(ws).view(), id, focused),
{
    let output = match ws.get(id) {
        Some(w) => clone_opt_str(&w.output),
        None => { return; },
    };
    let n = ws.len();
    let ghost before = ws.items();
    let ghost f = |w: WorkspaceInfo| activated(w, ostr(output), id, focused);
    let mut i: usize = 0;
    while i < n
        invariant
            n == before.len(),
            i <= ws.items().len(),
            ws.items().len() == before.len(),
            keys_unique(before),
            forall|j: int| 0 <= j < i ==> #[trigger] ws.items()[j] == f(before[j]),
            forall|j: int| i <= j < before.len() ==> #[trigger] ws.items()[j] == before[j],
            f == (|w: WorkspaceInfo| activated(w, ostr(output), id, focused)),
        decreases before.len() - i,
    {
        let w = ws.at(i);
        if opt_str_eq(&w.output, &output) {
            let mut nw = w.duplicate();
            nw.is_active = nw.id == id;
            nw.is_focused = nw.id == id && focused;
            ws.set(i, nw);
        }
        i = i + 1;
    }
    proof {
        lemma_seq_map_values(before, ws.items(), f);
        assert(ws.view() =~= activate(seq_map(before), id, focused));
    }
}

/// Sets the focus of every window: off for `None`, on exactly for window
/// `id` for `Some(id)`.
fn set_all_focus(wins: &mut IdVec<WindowInfo>, target: Option<u64>)
    ensures
        target is None ==> final(wins).view() == unfocus_all(old(wins).view()),
        target matches Some(t) ==> final(wins).view() == focus_only(old(wins).view(), t),
{
    let n = wins.len();
    let ghost before = wins.items();
    let ghost f = |w: WindowInfo| with_focus(w, target == Some(w.id));
    let mut i: usize = 0;
    while i < n
        invariant
            n == before.len(),
            i <= wins.items().len(),
            wins.items().len() == before.len(),
            keys_unique(before),
            forall|j: int| 0 <= j < i ==> #[trigger] wins.items()[j] == f(before[j]),
            forall|j: int| i <= j < before.len() ==> #[trigger] wins.items()[j] == before[j],
            f == (|w: WindowInfo| with_focus(w, target == Some(w.id))),
        decreases before.len() - i,
    {
        let mut nw = wins.at(i).duplicate();
        nw.is_focused = match target {
            Some(t) => nw.id == t,
            None => false,
        };
        wins.set(i, nw);
        i = i + 1;
    }
    proof {
        lemma_seq_map_values(before, wins.items(), f);
        assert(wins.view() =~= unfocus_all(seq_map(before)) || target is Some);
        if let Some(t) = target {
            assert(wins.view() =~= focus_only(seq_map(before), t));
        }
    }
}

/// Applies the layout changes in order.
fn apply_layouts(wins: &mut IdVec<WindowInfo>, changes: &Vec<(u64, Option<(usize, usize)>)>)
    ensures
        final(wins).view() == set_layouts(old(wins).view(), changes@),
{
    let ghost start = wins.view();
    let mut i: usize = 0;
    while i < changes.len()
        invariant
            i <= changes@.len(),
            wins.view() == set_layouts(start, changes@.take(i as int)),
        decreases changes@.len() - i,
    {
        let (id, pos) = changes[i];
        let ghost before = wins.view();
        if let Some(j) = wins.find(id) {
            let mut w = wins.at(j).duplicate();
            w.pos_in_scrolling_layout = pos;
            wins.insert(w);
            assert(wins.view() =~= set_layout(before, id, pos));
        }
        assert(changes@.take(i + 1).drop_last() =~= changes@.take(i as int));
        i = i + 1;
    }
    assert(changes@.take(changes@.len() as int) =~= changes@);
}

} // verus!
