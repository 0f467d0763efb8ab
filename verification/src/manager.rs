//! The hub that owns the compositor cache and the registered dock and
//! workspace widgets, and tells each widget what to show.
use vstd::prelude::*;

use crate::cache::{DataCache, list_map, windows_after, workspaces_after, event_loads_icons};
use crate::config::NiriConf;
use crate::dock::{
    DockCB, DockData, DockRegistry, DockView, DockWindowData, DockWorkspaceData, ID, dock_dirty,
    message_views, payload_views, same_dock_cb, without_id,
};
use crate::icon_cache::IconCache;
use crate::icons::{IconKey, IconKeyView};
use crate::idvec::{IdVec, Keyed, keys_unique, lemma_seq_map_at, has_key};
use crate::model::{
    Duplicate, Event, WindowInfo, WorkspaceInfo, clone_opt_str, ostr, str_or_empty,
};
use crate::order::{pick, selection, sort_selected};
use crate::workspace::{
    WorkspaceCB, WorkspaceCtx, WorkspaceData, collect_workspaces, find_id, get_workspace_by_index,
    get_workspace_data, on_output, output_workspace_indices,
    indicator_message, output_workspaces, same_workspace_cb, shown, workspace_data_of,
    workspace_data_sound,
};
use std::sync::{Arc, RwLock};

verus! {

/// Window `w` is on a known workspace of the output named `out`.
pub open spec fn window_on_output(wsm: Map<u64, WorkspaceInfo>, out: Seq<char>) -> spec_fn(WindowInfo) -> bool {
    |w: WindowInfo|
        match w.workspace_id {
            Some(id) => wsm.contains_key(id) && str_or_empty(wsm[id].output) == out,
            None => false,
        }
}

/// The windows of output `out`, ordered by workspace id, then by position
/// in the scrolling layout, then by window id.
pub open spec fn output_windows(winm: Map<u64, WindowInfo>, wsm: Map<u64, WorkspaceInfo>, out: Seq<char>) -> Seq<WindowInfo> {
    selection(winm, window_on_output(wsm, out))
}

/// A window as the dock shows it.
pub open spec fn to_dock_window(w: WindowInfo) -> DockWindowData {
    DockWindowData {
        id: w.id,
        workspace_id: w.workspace_id,
        app_id: w.app_id,
        title: w.title,
        is_focused: w.is_focused,
        is_floating: w.is_floating,
        is_urgent: w.is_urgent,
    }
}

/// A workspace as the dock shows it.
pub open spec fn to_dock_workspace(w: WorkspaceInfo) -> DockWorkspaceData {
    DockWorkspaceData {
        id: w.id,
        idx: w.idx as u64,
        name: w.name,
        output: w.output,
        is_active: w.is_active,
        is_focused: w.is_focused,
    }
}

/// The dock payload made of the workspaces `wps` and the windows `wins`.
pub open spec fn dock_view_of(wps: Seq<WorkspaceInfo>, wins: Seq<WindowInfo>) -> DockView {
    (wins.map_values(|w: WindowInfo| to_dock_window(w)), list_map(wps.map_values(|w: WorkspaceInfo| to_dock_workspace(w))))
}

/// The dock payload of output `out`.
pub open spec fn dock_view_for(winm: Map<u64, WindowInfo>, wsm: Map<u64, WorkspaceInfo>, out: Seq<char>) -> DockView {
    dock_view_of(output_workspaces(wsm, out), output_windows(winm, wsm, out))
}

/// The id of the focused workspace with the smallest id.
pub open spec fn first_focused_id(m: Map<u64, WorkspaceInfo>) -> u64 {
    choose|k: u64| m.contains_key(k) && m[k].is_focused && forall|j: u64| m.contains_key(j) && #[trigger] m[j].is_focused ==> k <= j
}

/// The output of the focused workspace with the smallest id, if any
/// workspace is focused and it has an output.
pub open spec fn focused_output(m: Map<u64, WorkspaceInfo>) -> Option<Seq<char>> {
    if exists|k: u64| m.contains_key(k) && #[trigger] m[k].is_focused {
        ostr(m[first_focused_id(m)].output)
    } else {
        None
    }
}

/// The data a workspace indicator is to be sent, if any: none for an
/// indicator shown only on the focused output while its output is not
/// the focused one.
pub open spec fn ws_entry_data(m: Map<u64, WorkspaceInfo>, e: WorkspaceCB<NiriConf>) -> Option<WorkspaceData> {
    if e.focused_only && focused_output(m) != Some(e.output@) {
        None
    } else {
        Some(workspace_data_of(output_workspaces(m, e.output@), e.data.preserve_empty))
    }
}

/// Every indicator's data is sound, so that notifying does not stop on a
/// violated assertion.
pub open spec fn workspace_data_ok(m: Map<u64, WorkspaceInfo>, entries: Seq<(ID, WorkspaceCB<NiriConf>)>) -> bool {
    forall|i: int| 0 <= i < entries.len() ==> (#[trigger] ws_entry_data(m, entries[i].1) matches Some(d) ==> workspace_data_sound(d))
}

/// `post` is the indicators `pre` after each was offered its data, and
/// `msgs[i]` the message to send to indicator `i`: its data, unless it had
/// been sent the same data last; data to send becomes the last one.
pub open spec fn ws_notified(m: Map<u64, WorkspaceInfo>, pre: Seq<(ID, WorkspaceCB<NiriConf>)>, post: Seq<(ID, WorkspaceCB<NiriConf>)>, msgs: Seq<Option<WorkspaceData>>) -> bool {
    &&& post.len() == pre.len()
    &&& msgs.len() == pre.len()
    &&& forall|i: int| 0 <= i < pre.len() ==> {
        let e0 = #[trigger] pre[i];
        let e1 = post[i];
        let d = ws_entry_data(m, e0.1);
        &&& e1.0 == e0.0
        &&& same_workspace_cb(e1.1, e0.1)
        &&& msgs[i] == indicator_message(e0.1.last_data, d)
        &&& e1.1.last_data == if (d matches Some(x) && e0.1.last_data != Some(x)) { d } else { e0.1.last_data }
    }
}

/// `post` is the docks `pre` after each was offered its output's payload,
/// and `msgs[i]` the message to send to dock `i`: that payload, unless
/// `force` is off and it had been sent the same payload last; a payload to
/// send becomes the last one.
pub open spec fn docks_notified(
    winm: Map<u64, WindowInfo>,
    wsm: Map<u64, WorkspaceInfo>,
    pre: Seq<(ID, DockCB)>,
    post: Seq<(ID, DockCB)>,
    force: bool,
    msgs: Seq<Option<DockView>>,
) -> bool {
    &&& post.len() == pre.len()
    &&& msgs.len() == pre.len()
    &&& forall|i: int| 0 <= i < pre.len() ==> {
        let e0 = #[trigger] pre[i];
        let e1 = post[i];
        let v = dock_view_for(winm, wsm, e0.1.output@);
        &&& e1.0 == e0.0
        &&& same_dock_cb(e1.1, e0.1)
        &&& msgs[i] == if dock_dirty(e0.1.last_data, v, force) { Some(v) } else { None }
        &&& if dock_dirty(e0.1.last_data, v, force) {
            e1.1.last_data matches Some(l) && l.view() == v
        } else {
            e1.1.last_data == e0.1.last_data
        }
    }
}

/// The icon a dock shows for window `w`.
pub open spec fn icon_key_for(w: WindowInfo, cb: DockCB) -> IconKeyView {
    IconKeyView { app_id: str_or_empty(w.app_id), size: cb.icon_size, theme: ostr(cb.icon_theme), fallback: ostr(cb.icon_fallback) }
}

/// Dock `cb` shows window `w`: the window is on a known workspace of the dock's output.
pub open spec fn dock_shows(wsm: Map<u64, WorkspaceInfo>, w: WindowInfo, cb: DockCB) -> bool {
    window_on_output(wsm, cb.output@)(w)
}

/// `keys` are the icons of the windows that the docks `entries` show:
/// each key belongs to a shown window, and each shown window's key is there.
pub open spec fn icon_keys_of(
    winm: Map<u64, WindowInfo>,
    wsm: Map<u64, WorkspaceInfo>,
    entries: Seq<(ID, DockCB)>,
    keys: Seq<IconKey>,
) -> bool {
    &&& forall|j: int| #![trigger keys[j]] 0 <= j < keys.len() ==> exists|k: u64, i: int|
        #![trigger winm[k], entries[i]]
        winm.contains_key(k) && 0 <= i < entries.len() && dock_shows(wsm, winm[k], entries[i].1)
            && keys[j].view() == icon_key_for(winm[k], entries[i].1)
    &&& forall|k: u64, i: int|
        #![trigger winm[k], entries[i]]
        winm.contains_key(k) && 0 <= i < entries.len() && dock_shows(wsm, winm[k], entries[i].1) ==> exists|j: int|
            #![trigger keys[j]]
            0 <= j < keys.len() && keys[j].view() == icon_key_for(winm[k], entries[i].1)
}

/// Each of `keys` belongs to a window that one of the docks shows.
pub open spec fn keys_sound(winm: Map<u64, WindowInfo>, wsm: Map<u64, WorkspaceInfo>, entries: Seq<(ID, DockCB)>, keys: Seq<IconKey>) -> bool {
    forall|a: int| #![trigger keys[a]] 0 <= a < keys.len() ==> exists|k: u64, e: int|
        #![trigger winm[k], entries[e]]
        winm.contains_key(k) && 0 <= e < entries.len() && dock_shows(wsm, winm[k], entries[e].1)
            && keys[a].view() == icon_key_for(winm[k], entries[e].1)
}

/// `keys` hold the icon of every window among the first `i` of `items`, and
/// of window `i` for the first `j` docks, that a dock shows.
pub open spec fn keys_cover(items: Seq<WindowInfo>, wsm: Map<u64, WorkspaceInfo>, entries: Seq<(ID, DockCB)>, keys: Seq<IconKey>, i: int, j: int) -> bool {
    forall|p: int, e: int|
        #![trigger items[p], entries[e]]
        (0 <= p < i && 0 <= e < entries.len() || p == i && 0 <= e < j) && dock_shows(wsm, items[p], entries[e].1) ==> exists|a: int|
            #![trigger keys[a]]
            0 <= a < keys.len() && keys[a].view() == icon_key_for(items[p], entries[e].1)
}

/// Whether window `w` is on a known workspace of output `out`.
fn window_is_on_output(cache: &DataCache, w: &WindowInfo, out: &String) -> (b: bool)
    ensures
        b == window_on_output(cache.workspaces.view(), out@)(*w),
{
    match w.workspace_id {
        Some(id) => match cache.workspaces.get(id) {
            Some(ws) => crate::workspace::is_on_output(ws, out),
            None => false,
        },
        None => false,
    }
}

/// Positions in the cache of the windows of output `out`, in display order.
fn output_window_indices(cache: &DataCache, out: &String) -> (idx: Vec<usize>)
    ensures
        forall|a: int| 0 <= a < idx@.len() ==> #[trigger] idx@[a] < cache.windows.items().len(),
        pick(cache.windows.items(), idx@) == output_windows(cache.windows.view(), cache.workspaces.view(), out@),
{
    let n = cache.windows.len();
    let mut mask: Vec<bool> = Vec::new();
    let mut i: usize = 0;
    while i < n
        invariant
            n == cache.windows.items().len(),
            i <= n,
            mask@.len() == i,
            forall|j: int| 0 <= j < i ==> #[trigger] mask@[j] == window_on_output(cache.workspaces.view(), out@)(cache.windows.items()[j]),
        decreases n - i,
    {
        mask.push(window_is_on_output(cache, cache.windows.at(i), out));
        i = i + 1;
    }
    sort_selected(&cache.windows, &mask, Ghost(window_on_output(cache.workspaces.view(), out@)))
}

/// Copies of the windows at positions `idx` of `ws`.
fn collect_windows(ws: &IdVec<WindowInfo>, idx: &Vec<usize>) -> (r: Vec<WindowInfo>)
    requires
        forall|a: int| 0 <= a < idx@.len() ==> #[trigger] idx@[a] < ws.items().len(),
    ensures
        r@ == pick(ws.items(), idx@),
{
    let mut r: Vec<WindowInfo> = Vec::new();
    let mut a: usize = 0;
    while a < idx.len()
        invariant
            a <= idx@.len(),
            forall|b: int| 0 <= b < idx@.len() ==> #[trigger] idx@[b] < ws.items().len(),
            r@ == pick(ws.items(), idx@).take(a as int),
        decreases idx@.len() - a,
    {
        r.push(ws.at(idx[a]).duplicate());
        a = a + 1;
        assert(r@ =~= pick(ws.items(), idx@).take(a as int));
    }
    assert(r@ =~= pick(ws.items(), idx@));
    r
}

/// The dock payload made of the ordered workspaces `wps_for_output` and
/// the ordered windows `wins_for_output` of one output.
pub fn build_dock_data(wps_for_output: &Vec<WorkspaceInfo>, wins_for_output: &Vec<WindowInfo>) -> (r: DockData)
    ensures
        r.view() == dock_view_of(wps_for_output@, wins_for_output@),
{
    let ghost target = dock_view_of(wps_for_output@, wins_for_output@);
    let mut workspaces: IdVec<DockWorkspaceData> = IdVec::new();
    let mut i: usize = 0;
    let ghost wl = wps_for_output@.map_values(|w: WorkspaceInfo| to_dock_workspace(w));
    while i < wps_for_output.len()
        invariant
            i <= wps_for_output@.len(),
            wl == wps_for_output@.map_values(|w: WorkspaceInfo| to_dock_workspace(w)),
            workspaces.view() == list_map(wl.take(i as int)),
        decreases wps_for_output@.len() - i,
    {
        let w = &wps_for_output[i];
        let d = DockWorkspaceData {
            id: w.id,
            idx: w.idx as u64,
            name: clone_opt_str(&w.name),
            output: clone_opt_str(&w.output),
            is_active: w.is_active,
            is_focused: w.is_focused,
        };
        assert(d == wl[i as int]);
        workspaces.insert(d);
        assert(wl.take(i + 1).drop_last() =~= wl.take(i as int));
        i = i + 1;
    }
    assert(wl.take(wl.len() as int) =~= wl);
    let mut windows: Vec<DockWindowData> = Vec::new();
    let mut j: usize = 0;
    while j < wins_for_output.len()
        invariant
            j <= wins_for_output@.len(),
            windows@ == wins_for_output@.map_values(|w: WindowInfo| to_dock_window(w)).take(j as int),
        decreases wins_for_output@.len() - j,
    {
        let w = &wins_for_output[j];
        windows.push(
            DockWindowData {
                id: w.id,
                workspace_id: w.workspace_id,
                app_id: clone_opt_str(&w.app_id),
                title: clone_opt_str(&w.title),
                is_focused: w.is_focused,
                is_floating: w.is_floating,
                is_urgent: w.is_urgent,
            },
        );
        j = j + 1;
        assert(windows@ =~= wins_for_output@.map_values(|w: WindowInfo| to_dock_window(w)).take(j as int));
    }
    assert(windows@ =~= wins_for_output@.map_values(|w: WindowInfo| to_dock_window(w)));
    DockData { windows, workspaces }
}

/// The dock payload of output `out`.
pub fn dock_data_for_output(cache: &DataCache, out: &String) -> (r: DockData)
    ensures
        r.view() == dock_view_for(cache.windows.view(), cache.workspaces.view(), out@),
{
    let wi = output_workspace_indices(&cache.workspaces, out);
    let wps = collect_workspaces(&cache.workspaces, &wi);
    let ni = output_window_indices(cache, out);
    let wins = collect_windows(&cache.windows, &ni);
    build_dock_data(&wps, &wins)
}

/// The output of the focused workspace with the smallest id, if any.
pub fn get_focused_output(cache: &DataCache) -> (r: Option<String>)
    ensures
        ostr(r) == focused_output(cache.workspaces.view()),
{
    let n = cache.workspaces.len();
    let ghost items = cache.workspaces.items();
    let ghost m = cache.workspaces.view();
    let mut best: Option<usize> = None;
    let mut i: usize = 0;
    while i < n
        invariant
            n == items.len(),
            items == cache.workspaces.items(),
            m == cache.workspaces.view(),
            keys_unique(items),
            i <= n,
            best matches Some(b) ==> b < i && items[b as int].is_focused,
            best matches Some(b) ==> forall|j: int| 0 <= j < i && #[trigger] items[j].is_focused ==> items[b as int].id <= items[j].id,
            best is None ==> forall|j: int| 0 <= j < i ==> !(#[trigger] items[j]).is_focused,
        decreases n - i,
    {
        let w = cache.workspaces.at(i);
        if w.is_focused {
            match best {
                Some(b) => {
                    if w.id < cache.workspaces.at(b).id {
                        best = Some(i);
                    }
                },
                None => {
                    best = Some(i);
                },
            }
        }
        i = i + 1;
    }
    match best {
        Some(b) => {
            let w = cache.workspaces.at(b);
            proof {
                lemma_seq_map_at(items, b as int);
                let k = w.id;
                assert(m.contains_key(k) && m[k].is_focused);
                assert forall|j: u64| m.contains_key(j) && #[trigger] m[j].is_focused implies k <= j by {
                    assert(has_key(items, j));
                    let a = choose|a: int| 0 <= a < items.len() && #[trigger] items[a].key() == j;
                    lemma_seq_map_at(items, a);
                }
                let f = first_focused_id(m);
                assert(m.contains_key(f) && m[f].is_focused && forall|j: u64| m.contains_key(j) && #[trigger] m[j].is_focused ==> f <= j);
                assert(f == k);
            }
            clone_opt_str(&w.output)
        },
        None => {
            proof {
                assert forall|k: u64| m.contains_key(k) implies !(#[trigger] m[k]).is_focused by {
                    assert(has_key(items, k));
                    let a = choose|a: int| 0 <= a < items.len() && #[trigger] items[a].key() == k;
                    lemma_seq_map_at(items, a);
                }
            }
            None
        },
    }
}

} // verus!

verus! {

/// The data indicator `e` is to be sent, given the focused output `focused`.
fn ws_entry_message(cache: &DataCache, e: &WorkspaceCB<NiriConf>, focused: &Option<String>) -> (r: Option<WorkspaceData>)
    requires
        ostr(*focused) == focused_output(cache.workspaces.view()),
    ensures
        r == ws_entry_data(cache.workspaces.view(), *e),
{
    let show = if e.focused_only {
        match focused {
            Some(f) => f.eq(&e.output),
            None => false,
        }
    } else {
        true
    };
    if show {
        Some(get_workspace_data(cache, &e.output, e.data.preserve_empty))
    } else {
        None
    }
}

/// The outcome of registering a dock widget.
pub struct DockRegistration {
    /// The id under which the widget is registered.
    pub id: ID,
    /// Windows were not followed before: the compositor's window list must
    /// now be fetched.
    pub fetch_windows: bool,
    /// The icons to load for the widgets.
    pub icon_keys: Vec<IconKey>,
    /// The messages the widgets are to be sent.
    pub messages: Notification,
}

/// The messages to send to the widgets, in registration order: `None` for
/// a widget that is not to be sent anything.
pub struct Notification {
    /// One per workspace indicator.
    pub workspaces: Vec<Option<WorkspaceData>>,
    /// One per dock while windows are followed; none otherwise.
    pub docks: Vec<Option<DockData>>,
    /// The payload of the last registered dock (the empty payload when
    /// there is none), while windows are followed.
    pub last_dock: Option<DockData>,
}

/// `n` holds no message.
pub open spec fn no_messages(n: Notification) -> bool {
    n.workspaces@.len() == 0 && n.docks@.len() == 0 && n.last_dock is None
}

/// The single owner of the compositor cache and of the registered widgets.
pub struct NiriManager {
    pub cache: DataCache,
    /// Windows are followed: at least one dock widget is registered.
    pub needs_windows: bool,
    pub dock_registry: DockRegistry,
    pub workspace_registry: WorkspaceCtx<NiriConf>,
    /// The icon cache that every dock reads.
    pub icon_cache: Arc<RwLock<IconCache>>,
}

/// `post` is `pre` after its widgets were notified, with `n` the messages
/// to send: each indicator its data, and, while windows are followed,
/// each dock its output's payload, skipping a widget last sent the same
/// values unless `force`d; the cache stays.
pub open spec fn widgets_notified(pre: NiriManager, post: NiriManager, n: Notification) -> bool {
    &&& post.cache == pre.cache
    &&& post.needs_windows == pre.needs_windows
    &&& post.icon_cache == pre.icon_cache
    &&& post.workspace_registry.next_id() == pre.workspace_registry.next_id()
    &&& ws_notified(pre.cache.workspaces.view(), pre.workspace_registry.entries(), post.workspace_registry.entries(), n.workspaces@)
    &&& post.dock_registry.next_id() == pre.dock_registry.next_id()
    &&& !pre.needs_windows ==> n.docks@.len() == 0 && n.last_dock is None
        && post.dock_registry.entries() == pre.dock_registry.entries()
    &&& pre.needs_windows ==> docks_notified(
        pre.cache.windows.view(),
        pre.cache.workspaces.view(),
        pre.dock_registry.entries(),
        post.dock_registry.entries(),
        false,
        message_views(n.docks@),
    )
    &&& pre.needs_windows ==> (n.last_dock matches Some(d) && ({
        let entries = pre.dock_registry.entries();
        if entries.len() == 0 {
            d.view() == DockData::empty_view()
        } else {
            d.view() == dock_view_for(pre.cache.windows.view(), pre.cache.workspaces.view(), entries.last().1.output@)
        }
    }))
}

/// `post` is `pre` after dock widget `cb` was registered with outcome `r`:
/// it has the next id, windows are followed, and when the cache holds data
/// every widget was notified and the icons of the shown windows are listed.
pub open spec fn dock_registered(pre: NiriManager, post: NiriManager, cb: DockCB, r: DockRegistration) -> bool {
    &&& r.id == pre.dock_registry.next_id()
    &&& r.fetch_windows == !pre.needs_windows
    &&& post.needs_windows
    &&& post.cache == pre.cache
    &&& post.icon_cache == pre.icon_cache
    &&& post.dock_registry.next_id() == r.id + 1
    &&& post.workspace_registry.next_id() == pre.workspace_registry.next_id()
    &&& pre.has_data() ==> {
        &&& ws_notified(pre.cache.workspaces.view(), pre.workspace_registry.entries(), post.workspace_registry.entries(), r.messages.workspaces@)
        &&& docks_notified(
            pre.cache.windows.view(),
            pre.cache.workspaces.view(),
            pre.dock_registry.entries().push((r.id, cb)),
            post.dock_registry.entries(),
            false,
            message_views(r.messages.docks@),
        )
        &&& r.messages.last_dock matches Some(d) && d.view() == dock_view_for(pre.cache.windows.view(), pre.cache.workspaces.view(), cb.output@)
        &&& icon_keys_of(post.cache.windows.view(), post.cache.workspaces.view(), post.dock_registry.entries(), r.icon_keys@)
    }
    &&& !pre.has_data() ==> {
        &&& post.workspace_registry.entries() == pre.workspace_registry.entries()
        &&& post.dock_registry.entries() == pre.dock_registry.entries().push((r.id, cb))
        &&& r.icon_keys@.len() == 0
        &&& no_messages(r.messages)
    }
}

/// `post` is `pre` after dock widget `id` was unregistered: when no dock
/// is left, windows are no longer followed and the cached windows dropped.
pub open spec fn dock_unregistered(pre: NiriManager, post: NiriManager, id: ID) -> bool {
    &&& post.dock_registry.entries() == without_id(pre.dock_registry.entries(), id)
    &&& post.dock_registry.next_id() == pre.dock_registry.next_id()
    &&& post.workspace_registry == pre.workspace_registry
    &&& post.icon_cache == pre.icon_cache
    &&& post.cache.workspaces == pre.cache.workspaces
    &&& post.dock_registry.entries().len() == 0 ==> !post.needs_windows
        && post.cache.windows.view() == Map::<u64, WindowInfo>::empty()
    &&& post.dock_registry.entries().len() > 0 ==> post.needs_windows == pre.needs_windows
        && post.cache.windows == pre.cache.windows
}

/// `post` is `pre` after workspace indicator `cb` was registered under id
/// `r.0`; `r.1` is the data it is to be sent first, when the cache holds
/// workspaces.
pub open spec fn workspace_registered(pre: NiriManager, post: NiriManager, cb: WorkspaceCB<NiriConf>, r: (ID, Option<WorkspaceData>)) -> bool {
    &&& r.0 == pre.workspace_registry.next_id()
    &&& post.workspace_registry.next_id() == r.0 + 1
    &&& post.workspace_registry.entries() == pre.workspace_registry.entries().push((r.0, cb))
    &&& post.cache == pre.cache
    &&& post.needs_windows == pre.needs_windows
    &&& post.dock_registry == pre.dock_registry
    &&& post.icon_cache == pre.icon_cache
    &&& r.1 == if exists|k: u64| #[trigger] pre.cache.workspaces.view().contains_key(k) {
        Some(workspace_data_of(output_workspaces(pre.cache.workspaces.view(), cb.output@), cb.data.preserve_empty))
    } else {
        None
    }
}

/// `post` is `pre` after workspace indicator `id` was unregistered.
pub open spec fn workspace_unregistered(pre: NiriManager, post: NiriManager, id: ID) -> bool {
    &&& post.workspace_registry.entries() == without_id(pre.workspace_registry.entries(), id)
    &&& post.workspace_registry.next_id() == pre.workspace_registry.next_id()
    &&& post.cache == pre.cache
    &&& post.needs_windows == pre.needs_windows
    &&& post.dock_registry == pre.dock_registry
    &&& post.icon_cache == pre.icon_cache
}

/// The id of the workspace that indicator `cb_id` of `m` lists at position
/// `index`, if the indicator is registered and lists that many.
pub open spec fn workspace_target_of(m: NiriManager, cb_id: ID, index: usize) -> Option<u64> {
    match find_id(m.workspace_registry.entries(), cb_id) {
        None => None,
        Some(e) => {
            let v = shown(output_workspaces(m.cache.workspaces.view(), e.output@), e.data.preserve_empty);
            if index < v.len() {
                Some(v[index as int].id)
            } else {
                None
            }
        },
    }
}

/// `post` is `pre` after compositor event `e`: the event applied to the
/// cache (window events only while windows are followed), every widget
/// notified, and `keys` the icons to load when windows arrived.
pub open spec fn event_processed(pre: NiriManager, post: NiriManager, e: Event, keys: Seq<IconKey>, n: Notification) -> bool {
    &&& post.cache.windows.view() == windows_after(pre.cache.windows.view(), e, pre.needs_windows)
    &&& post.cache.workspaces.view() == workspaces_after(pre.cache.workspaces.view(), e)
    &&& post.needs_windows == pre.needs_windows
    &&& post.icon_cache == pre.icon_cache
    &&& post.workspace_registry.next_id() == pre.workspace_registry.next_id()
    &&& ws_notified(post.cache.workspaces.view(), pre.workspace_registry.entries(), post.workspace_registry.entries(), n.workspaces@)
    &&& post.dock_registry.next_id() == pre.dock_registry.next_id()
    &&& !pre.needs_windows ==> post.dock_registry.entries() == pre.dock_registry.entries()
        && n.docks@.len() == 0 && n.last_dock is None
    &&& pre.needs_windows ==> docks_notified(
        post.cache.windows.view(),
        post.cache.workspaces.view(),
        pre.dock_registry.entries(),
        post.dock_registry.entries(),
        false,
        message_views(n.docks@),
    )
    &&& pre.needs_windows ==> (n.last_dock matches Some(d) && ({
        let entries = pre.dock_registry.entries();
        if entries.len() == 0 {
            d.view() == DockData::empty_view()
        } else {
            d.view() == dock_view_for(post.cache.windows.view(), post.cache.workspaces.view(), entries.last().1.output@)
        }
    }))
    &&& event_loads_icons(e, pre.needs_windows) ==> icon_keys_of(
        post.cache.windows.view(),
        post.cache.workspaces.view(),
        post.dock_registry.entries(),
        keys,
    )
    &&& !event_loads_icons(e, pre.needs_windows) ==> keys.len() == 0
}

/// Another handle on the value behind `a`, by `Arc::clone`, which makes a
/// new pointer to the same allocation.
#[verifier::external_body]
fn share<T>(a: &Arc<T>) -> (r: Arc<T>)
    ensures
        r == *a,
{
    Arc::clone(a)
}

impl NiriManager {
    /// An empty cache, no widget, windows not followed; the docks will
    /// read `icon_cache`.
    pub fn new(icon_cache: Arc<RwLock<IconCache>>) -> (r: Self)
        ensures
            r.icon_cache == icon_cache,
            r.cache.windows.view() == Map::<u64, WindowInfo>::empty(),
            r.cache.workspaces.view() == Map::<u64, WorkspaceInfo>::empty(),
            !r.needs_windows,
            r.dock_registry.entries().len() == 0,
            r.dock_registry.next_id() == 0,
            r.workspace_registry.entries().len() == 0,
            r.workspace_registry.next_id() == 0,
    {
        NiriManager {
            cache: DataCache::new(),
            needs_windows: false,
            dock_registry: DockRegistry::new(),
            workspace_registry: WorkspaceCtx::new(),
            icon_cache,
        }
    }

    /// The data of each workspace indicator, in registration order.
    fn workspace_messages(&self) -> (r: Vec<Option<WorkspaceData>>)
        ensures
            r@.len() == self.workspace_registry.entries().len(),
            forall|i: int| 0 <= i < r@.len() ==> #[trigger] r@[i] == ws_entry_data(self.cache.workspaces.view(), self.workspace_registry.entries()[i].1),
    {
        let focused = get_focused_output(&self.cache);
        let n = self.workspace_registry.len();
        let mut r: Vec<Option<WorkspaceData>> = Vec::new();
        let mut i: usize = 0;
        while i < n
            invariant
                n == self.workspace_registry.entries().len(),
                ostr(focused) == focused_output(self.cache.workspaces.view()),
                i <= n,
                r@.len() == i,
                forall|j: int| 0 <= j < i ==> #[trigger] r@[j] == ws_entry_data(self.cache.workspaces.view(), self.workspace_registry.entries()[j].1),
            decreases n - i,
        {
            let e = self.workspace_registry.entry(i);
            r.push(ws_entry_message(&self.cache, e, &focused));
            i = i + 1;
        }
        r
    }

    /// The payload of each dock widget with the flag `force`, in registration order.
    fn dock_messages(&self, force: bool) -> (r: Vec<(DockData, bool)>)
        ensures
            r@.len() == self.dock_registry.entries().len(),
            forall|i: int| 0 <= i < r@.len() ==> (#[trigger] r@[i]).1 == force && r@[i].0.view() == dock_view_for(
                self.cache.windows.view(),
                self.cache.workspaces.view(),
                self.dock_registry.entries()[i].1.output@,
            ),
    {
        let n = self.dock_registry.len();
        let mut r: Vec<(DockData, bool)> = Vec::new();
        let mut i: usize = 0;
        while i < n
            invariant
                n == self.dock_registry.entries().len(),
                i <= n,
                r@.len() == i,
                forall|j: int| 0 <= j < i ==> (#[trigger] r@[j]).1 == force && r@[j].0.view() == dock_view_for(
                    self.cache.windows.view(),
                    self.cache.workspaces.view(),
                    self.dock_registry.entries()[j].1.output@,
                ),
            decreases n - i,
        {
            let e = self.dock_registry.entry(i);
            r.push((dock_data_for_output(&self.cache, &e.output), force));
            i = i + 1;
        }
        r
    }

    /// The icon cache that the docks read, shared.
    pub fn icon_cache(&self) -> (r: Arc<RwLock<IconCache>>)
        ensures
            r == self.icon_cache,
    {
        share(&self.icon_cache)
    }

    /// Decides what every widget is to be sent of the cache: each
    /// workspace indicator its data, and, while windows are followed, each
    /// dock its output's payload; a widget last sent the same values gets
    /// nothing. Returns these messages, with the payload of the last
    /// registered dock while windows are followed.
    pub fn notify(&mut self) -> (r: Notification)
        requires
            workspace_data_ok(old(self).cache.workspaces.view(), old(self).workspace_registry.entries()),
        ensures
            widgets_notified(*old(self), *final(self), r),
    {
        let ws_data = self.workspace_messages();
        let ghost entries0 = self.workspace_registry.entries();
        proof {
            assert forall|i: int| 0 <= i < ws_data@.len() implies (#[trigger] ws_data@[i] matches Some(d) ==> workspace_data_sound(d)) by {
                let x = ws_entry_data(self.cache.workspaces.view(), self.workspace_registry.entries()[i].1);
            }
        }
        let ws_msgs = self.workspace_registry.call(ws_data);
        proof {
            assert forall|i: int| 0 <= i < entries0.len() implies ws_msgs@[i] == indicator_message(entries0[i].1.last_data, ws_entry_data(self.cache.workspaces.view(), entries0[i].1)) by {
                let e0 = entries0[i];
            }
        }
        if !self.needs_windows {
            return Notification { workspaces: ws_msgs, docks: Vec::new(), last_dock: None };
        }
        let data = self.dock_messages(false);
        let last = if data.len() == 0 {
            DockData::default()
        } else {
            data[data.len() - 1].0.duplicate()
        };
        proof {
            if data@.len() == 0 {
                assert(last.view() =~= DockData::empty_view());
            }
        }
        let ghost docks0 = self.dock_registry.entries();
        let dock_msgs = self.dock_registry.call(data);
        proof {
            assert forall|i: int| 0 <= i < docks0.len() implies #[trigger] payload_views(data@)[i] == (dock_view_for(self.cache.windows.view(), self.cache.workspaces.view(), docks0[i].1.output@), false) by {
                assert(data@[i].1 == false);
            }
        }
        Notification { workspaces: ws_msgs, docks: dock_msgs, last_dock: Some(last) }
    }

    /// Decides what every dock is to be sent: its output's payload,
    /// whatever it was sent before. Returns the messages, one per dock.
    pub fn resend_dock_data(&mut self) -> (msgs: Vec<Option<DockData>>)
        ensures
            final(self).cache == old(self).cache,
            final(self).needs_windows == old(self).needs_windows,
            final(self).icon_cache == old(self).icon_cache,
            final(self).workspace_registry == old(self).workspace_registry,
            final(self).dock_registry.next_id() == old(self).dock_registry.next_id(),
            docks_notified(
                old(self).cache.windows.view(),
                old(self).cache.workspaces.view(),
                old(self).dock_registry.entries(),
                final(self).dock_registry.entries(),
                true,
                message_views(msgs@),
            ),
    {
        let data = self.dock_messages(true);
        let ghost docks0 = self.dock_registry.entries();
        let msgs = self.dock_registry.call(data);
        proof {
            assert forall|i: int| 0 <= i < docks0.len() implies #[trigger] payload_views(data@)[i] == (dock_view_for(self.cache.windows.view(), self.cache.workspaces.view(), docks0[i].1.output@), true) by {
                assert(data@[i].1 == true);
            }
        }
        msgs
    }

    /// The icons of the windows that the registered docks show: for each
    /// window on a known workspace and each dock of that workspace's output,
    /// the window's application id (empty when it has none) with the dock's
    /// icon size, theme and fallback.
    pub fn load_icons(&self) -> (keys: Vec<IconKey>)
        ensures
            icon_keys_of(self.cache.windows.view(), self.cache.workspaces.view(), self.dock_registry.entries(), keys@),
    {
        let ghost winm = self.cache.windows.view();
        let ghost wsm = self.cache.workspaces.view();
        let ghost items = self.cache.windows.items();
        let ghost entries = self.dock_registry.entries();
        let n = self.cache.windows.len();
        let m = self.dock_registry.len();
        let mut keys: Vec<IconKey> = Vec::new();
        let mut i: usize = 0;
        while i < n
            invariant
                n == items.len(),
                m == entries.len(),
                items == self.cache.windows.items(),
                winm == self.cache.windows.view(),
                wsm == self.cache.workspaces.view(),
                entries == self.dock_registry.entries(),
                keys_unique(items),
                i <= n,
                keys_sound(winm, wsm, entries, keys@),
                keys_cover(items, wsm, entries, keys@, i as int, 0),
            decreases n - i,
        {
            let w = self.cache.windows.at(i);
            proof {
                lemma_seq_map_at(items, i as int);
            }
            let ws = match w.workspace_id {
                Some(id) => self.cache.workspaces.get(id),
                None => None,
            };
            let mut j: usize = 0;
            while j < m
                invariant
                    n == items.len(),
                    m == entries.len(),
                    items == self.cache.windows.items(),
                    winm == self.cache.windows.view(),
                    wsm == self.cache.workspaces.view(),
                    entries == self.dock_registry.entries(),
                    i < n,
                    *w == items[i as int],
                    winm.contains_key(w.id) && winm[w.id] == *w,
                    ws matches Some(x) ==> w.workspace_id matches Some(id) && wsm.contains_key(id) && wsm[id] == *x,
                    ws is None ==> (w.workspace_id matches Some(id) ==> !wsm.contains_key(id)),
                    j <= m,
                    keys_sound(winm, wsm, entries, keys@),
                    keys_cover(items, wsm, entries, keys@, i as int, j as int),
                decreases m - j,
            {
                let cb = self.dock_registry.entry(j);
                if let Some(x) = ws {
                    if crate::workspace::is_on_output(x, &cb.output) {
                        let app_id = match &w.app_id {
                            Some(a) => a.clone(),
                            None => String::new(),
                        };
                        let key = IconKey {
                            app_id,
                            theme: clone_opt_str(&cb.icon_theme),
                            size: cb.icon_size,
                            fallback: clone_opt_str(&cb.icon_fallback),
                        };
                        let ghost old_keys = keys@;
                        keys.push(key);
                        proof {
                            let k = w.id;
                            let e = j as int;
                            assert(dock_shows(wsm, winm[k], entries[e].1));
                            assert(keys@[old_keys.len() as int].view() == icon_key_for(winm[k], entries[e].1));
                            assert forall|a: int| #![trigger keys@[a]] 0 <= a < keys@.len() implies exists|k2: u64, e2: int|
                                #![trigger winm[k2], entries[e2]]
                                winm.contains_key(k2) && 0 <= e2 < entries.len() && dock_shows(wsm, winm[k2], entries[e2].1)
                                    && keys@[a].view() == icon_key_for(winm[k2], entries[e2].1) by {
                                if a < old_keys.len() {
                                    assert(keys@[a] == old_keys[a]);
                                } else {
                                    assert(winm.contains_key(k) && dock_shows(wsm, winm[k], entries[e].1));
                                }
                            }
                            assert forall|p: int, e2: int|
                                #![trigger items[p], entries[e2]]
                                (0 <= p < i && 0 <= e2 < entries.len() || p == i && 0 <= e2 < j + 1) && dock_shows(wsm, items[p], entries[e2].1) implies exists|a: int|
                                    #![trigger keys@[a]]
                                    0 <= a < keys@.len() && keys@[a].view() == icon_key_for(items[p], entries[e2].1) by {
                                if p == i && e2 == j {
                                    assert(keys@[old_keys.len() as int].view() == icon_key_for(items[p], entries[e2].1));
                                } else {
                                    let a = choose|a: int| #![trigger old_keys[a]] 0 <= a < old_keys.len() && old_keys[a].view() == icon_key_for(items[p], entries[e2].1);
                                    assert(keys@[a] == old_keys[a]);
                                }
                            }
                            assert(keys_cover(items, wsm, entries, keys@, i as int, j + 1));
                        }
                    }
                }
                proof {
                    if !(ws matches Some(x) && on_output(cb.output@)(*x)) {
                        assert forall|p: int, e2: int|
                            #![trigger items[p], entries[e2]]
                            (0 <= p < i && 0 <= e2 < entries.len() || p == i && 0 <= e2 < j + 1) && dock_shows(wsm, items[p], entries[e2].1) implies exists|a: int|
                                #![trigger keys@[a]]
                                0 <= a < keys@.len() && keys@[a].view() == icon_key_for(items[p], entries[e2].1) by {
                            if p == i && e2 == j {
                                assert(false);
                            }
                        }
                    }
                }
                j = j + 1;
            }
            proof {
                assert forall|p: int, e2: int|
                    #![trigger items[p], entries[e2]]
                    0 <= p < i + 1 && 0 <= e2 < entries.len() && 0 <= e2 < entries.len() && dock_shows(wsm, items[p], entries[e2].1) implies exists|a: int|
                        #![trigger keys@[a]]
                        0 <= a < keys@.len() && keys@[a].view() == icon_key_for(items[p], entries[e2].1) by {
                    assert(0 <= p < i && 0 <= e2 < entries.len() || p == i && 0 <= e2 < m);
                }
                assert(keys_cover(items, wsm, entries, keys@, i + 1, 0));
            }
            i = i + 1;
        }
        proof {
            assert(keys_cover(items, wsm, entries, keys@, n as int, 0));
            assert forall|k: u64, e: int|
                #![trigger winm[k], entries[e]]
                winm.contains_key(k) && 0 <= e < entries.len() && dock_shows(wsm, winm[k], entries[e].1) implies exists|a: int|
                    #![trigger keys@[a]]
                    0 <= a < keys@.len() && keys@[a].view() == icon_key_for(winm[k], entries[e].1) by {
                assert(has_key(items, k));
                let p = choose|p: int| 0 <= p < items.len() && #[trigger] items[p].key() == k;
                lemma_seq_map_at(items, p);
                assert(items[p] == winm[k]);
                assert(dock_shows(wsm, items[p], entries[e].1));
            }
        }
        keys
    }

    /// Whether the cache holds any workspace or window.
    pub open spec fn has_data(self) -> bool {
        exists|k: u64| self.cache.workspaces.view().contains_key(k) || self.cache.windows.view().contains_key(k)
    }

    /// Registers dock widget `cb` and starts following windows. When the
    /// cache already holds data, every widget is notified and the icons of
    /// the shown windows are returned for loading.
    pub fn register_dock_callback(&mut self, cb: DockCB) -> (r: DockRegistration)
        requires
            old(self).dock_registry.next_id() < u32::MAX,
            workspace_data_ok(old(self).cache.workspaces.view(), old(self).workspace_registry.entries()),
        ensures
            dock_registered(*old(self), *final(self), cb, r),
    {
        let fetch_windows = !self.needs_windows;
        self.needs_windows = true;
        let ghost cb0 = cb;
        let id = self.dock_registry.add_cb(cb);
        let has_data = !self.cache.workspaces.is_empty() || !self.cache.windows.is_empty();
        if has_data {
            let messages = self.notify();
            let icon_keys = self.load_icons();
            DockRegistration { id, fetch_windows, icon_keys, messages }
        } else {
            let messages = Notification { workspaces: Vec::new(), docks: Vec::new(), last_dock: None };
            DockRegistration { id, fetch_windows, icon_keys: Vec::new(), messages }
        }
    }

    /// Unregisters dock widget `id`. When no dock is left, windows are no
    /// longer followed and the cached windows are dropped.
    pub fn unregister_dock_callback(&mut self, id: ID)
        ensures
            dock_unregistered(*old(self), *final(self), id),
    {
        self.dock_registry.remove_cb(id);
        if self.dock_registry.is_empty() {
            self.needs_windows = false;
            self.cache.windows.clear();
        }
    }

    /// Registers workspace indicator `cb`. When the cache holds workspaces,
    /// the indicator is to be sent the data of its output first; that data is
    /// returned with the id.
    pub fn register_workspace_callback(&mut self, cb: WorkspaceCB<NiriConf>) -> (r: (ID, Option<WorkspaceData>))
        requires
            old(self).workspace_registry.next_id() < u32::MAX,
        ensures
            workspace_registered(*old(self), *final(self), cb, r),
    {
        let initial = if !self.cache.workspaces.is_empty() {
            let data = get_workspace_data(&self.cache, &cb.output, cb.data.preserve_empty);
            Some(data)
        } else {
            None
        };
        let id = self.workspace_registry.add_cb(cb);
        (id, initial)
    }

    /// Unregisters workspace indicator `id`.
    pub fn unregister_workspace_callback(&mut self, id: ID)
        ensures
            workspace_unregistered(*old(self), *final(self), id),
    {
        self.workspace_registry.remove_cb(id);
    }

    /// Applies event `e` to the cache (window events only while windows are
    /// followed), notifies every widget, and returns the icons to load when
    /// windows arrived.
    pub fn process_event(&mut self, e: &Event) -> (r: (Vec<IconKey>, Notification))
        requires
            workspace_data_ok(workspaces_after(old(self).cache.workspaces.view(), *e), old(self).workspace_registry.entries()),
        ensures
            event_processed(*old(self), *final(self), *e, r.0@, r.1),
    {
        let load = self.cache.apply_event(e, self.needs_windows);
        let n = self.notify();
        if load {
            (self.load_icons(), n)
        } else {
            (Vec::new(), n)
        }
    }

    /// Whether the data of every workspace indicator is sound, so that
    /// notifying is possible.
    pub fn workspace_data_is_sound(&self) -> (r: bool)
        ensures
            r == workspace_data_ok(self.cache.workspaces.view(), self.workspace_registry.entries()),
    {
        let msgs = self.workspace_messages();
        let mut i: usize = 0;
        while i < msgs.len()
            invariant
                i <= msgs@.len(),
                msgs@.len() == self.workspace_registry.entries().len(),
                forall|j: int| 0 <= j < msgs@.len() ==> #[trigger] msgs@[j] == ws_entry_data(self.cache.workspaces.view(), self.workspace_registry.entries()[j].1),
                forall|j: int| 0 <= j < i ==> (#[trigger] msgs@[j] matches Some(d) ==> workspace_data_sound(d)),
            decreases msgs@.len() - i,
        {
            match msgs[i] {
                Some(d) => {
                    if !(d.active >= -1 && (d.focus < 0 || d.focus == d.active)) {
                        proof {
                            assert(msgs@[i as int] == ws_entry_data(self.cache.workspaces.view(), self.workspace_registry.entries()[i as int].1));
                        }
                        return false;
                    }
                },
                None => {},
            }
            i = i + 1;
        }
        proof {
            assert forall|j: int| 0 <= j < self.workspace_registry.entries().len() implies (#[trigger] ws_entry_data(self.cache.workspaces.view(), self.workspace_registry.entries()[j].1) matches Some(d) ==> workspace_data_sound(d)) by {
                assert(msgs@[j] == ws_entry_data(self.cache.workspaces.view(), self.workspace_registry.entries()[j].1));
            }
        }
        true
    }

    /// Applies event `e` like `process_event` when the indicators' data is
    /// sound afterwards; otherwise applies it to the cache only, notifies
    /// nobody and returns `None`.
    pub fn process_event_checked(&mut self, e: &Event) -> (r: Option<(Vec<IconKey>, Notification)>)
        ensures
            r is None <==> !workspace_data_ok(workspaces_after(old(self).cache.workspaces.view(), *e), old(self).workspace_registry.entries()),
            r matches Some(x) ==> event_processed(*old(self), *final(self), *e, x.0@, x.1),
            r is None ==> {
                &&& final(self).cache.windows.view() == windows_after(old(self).cache.windows.view(), *e, old(self).needs_windows)
                &&& final(self).cache.workspaces.view() == workspaces_after(old(self).cache.workspaces.view(), *e)
                &&& final(self).needs_windows == old(self).needs_windows
                &&& final(self).workspace_registry == old(self).workspace_registry
                &&& final(self).dock_registry == old(self).dock_registry
                &&& final(self).icon_cache == old(self).icon_cache
            },
    {
        let load = self.cache.apply_event(e, self.needs_windows);
        if !self.workspace_data_is_sound() {
            return None;
        }
        let n = self.notify();
        if load {
            Some((self.load_icons(), n))
        } else {
            Some((Vec::new(), n))
        }
    }

    /// The id of the workspace that indicator `cb_id` lists at position
    /// `index`, if the indicator is registered and lists that many.
    pub fn workspace_target(&self, cb_id: ID, index: usize) -> (r: Option<u64>)
        ensures
            r == workspace_target_of(*self, cb_id, index),
    {
        match self.workspace_registry.get(cb_id) {
            Some(e) => match get_workspace_by_index(&self.cache, &e.output, e.data.preserve_empty, index) {
                Some(w) => Some(w.id),
                None => None,
            },
            None => None,
        }
    }
}

} // verus!
