//! Properties that hold across the operations of the library.
use vstd::prelude::*;

use crate::cache::{activate, focus_only, unfocus_all, windows_after, workspaces_after};
use crate::manager::{workspace_data_ok, ws_entry_data};
use crate::model::{Event, WindowInfo, WorkspaceInfo, ostr, str_or_empty};
use crate::workspace::{first_active, first_focused, non_empty, output_workspaces, shown, workspace_data_of, workspace_data_sound};
use crate::order::{SortKey, ordered_selection, strictly_sorted};
use crate::dock::{DockCB, DockView, ID, docks_called, ids_ordered, same_dock_view, without_id};
use crate::icons::{count_below, ordered_sizes, standard_sizes, swizzled};
use crate::lookup::{names_spec, push_new};
use crate::workspace::{WorkspaceCB, WorkspaceData, indicators_called};
use crate::idvec::Keyed;
use crate::cache::DataCache;
use crate::manager::{dock_view_for, first_focused_id, focused_output, output_windows, window_on_output};
use crate::dock::{DockData, dock_dirty};
use crate::workspace::is_kept;
use crate::handlers::{DockHandler, dock_handler_of};
use crate::manager::{DockRegistration, NiriManager, dock_registered};
use crate::icon_cache::{IconStatusView, after_fallback_fetch_spec, after_icon_fetch_spec};
use crate::icons::IconKeyView;
use crate::workspace::on_output;

verus! {

/// On every output at most one workspace is active, and a focused
/// workspace is active: the state the compositor reports.
pub open spec fn workspaces_consistent(m: Map<u64, WorkspaceInfo>) -> bool {
    &&& forall|k: u64| #[trigger] m.contains_key(k) && m[k].is_focused ==> m[k].is_active
    &&& forall|k1: u64, k2: u64|
        #[trigger] m.contains_key(k1) && #[trigger] m.contains_key(k2) && k1 != k2 && m[k1].is_active && m[k2].is_active
            ==> str_or_empty(m[k1].output) != str_or_empty(m[k2].output)
}

/// No workspace names an output with the empty name.
pub open spec fn no_empty_output_name(m: Map<u64, WorkspaceInfo>) -> bool {
    forall|k: u64| #[trigger] m.contains_key(k) ==> (m[k].output matches Some(s) ==> s@.len() > 0)
}

/// At most one window is focused.
pub open spec fn at_most_one_focused(m: Map<u64, WindowInfo>) -> bool {
    forall|k1: u64, k2: u64|
        #[trigger] m.contains_key(k1) && #[trigger] m.contains_key(k2) && m[k1].is_focused && m[k2].is_focused ==> k1 == k2
}

/// After a focus change to window `f`, no window but `f` is focused.
pub proof fn law_focus_change_single(m: Map<u64, WindowInfo>, f: u64)
    requires
        forall|k: u64| #[trigger] m.contains_key(k) ==> m[k].id == k,
    ensures
        forall|k: u64| #[trigger] focus_only(m, f).contains_key(k) ==> (focus_only(m, f)[k].is_focused <==> k == f),
        at_most_one_focused(focus_only(m, f)),
{
}

/// After a focused window opens or changes, it is the only focused window.
pub proof fn law_opened_focused_window_is_only_focus(m: Map<u64, WindowInfo>, w: WindowInfo, needs_windows: bool)
    requires
        needs_windows,
        w.is_focused,
    ensures
        ({
            let after = windows_after(m, Event::WindowOpenedOrChanged { window: w }, needs_windows);
            &&& after.contains_key(w.id) && after[w.id] == w
            &&& forall|k: u64| #[trigger] after.contains_key(k) && after[k].is_focused ==> k == w.id
        }),
{
    let after = unfocus_all(m).insert(w.id, w);
    assert forall|k: u64| #[trigger] after.contains_key(k) && after[k].is_focused implies k == w.id by {
        if k != w.id {
            assert(after[k] == unfocus_all(m)[k]);
        }
    }
}

/// While windows are not followed, no event changes the windows.
pub proof fn law_windows_untouched_when_not_followed(m: Map<u64, WindowInfo>, e: Event)
    ensures
        windows_after(m, e, false) == m,
{
}

/// Window events never change the workspaces.
pub proof fn law_window_events_keep_workspaces(m: Map<u64, WorkspaceInfo>, e: Event)
    requires
        !(e is WorkspacesChanged || e is WorkspaceActivated),
    ensures
        workspaces_after(m, e) == m,
{
}

/// Activating a known workspace makes it the one active workspace of its
/// output, focused exactly when the event says so, and leaves the
/// workspaces of other outputs unchanged.
pub proof fn law_activation(m: Map<u64, WorkspaceInfo>, id: u64, focused: bool)
    requires
        m.contains_key(id),
        forall|k: u64| #[trigger] m.contains_key(k) ==> m[k].id == k,
    ensures
        ({
            let a = activate(m, id, focused);
            &&& a.dom() == m.dom()
            &&& a[id].is_active && a[id].is_focused == focused
            &&& forall|k: u64| #[trigger] a.contains_key(k) && k != id && ostr(m[k].output) == ostr(m[id].output) ==> !a[k].is_active && !a[k].is_focused
            &&& forall|k: u64| #[trigger] a.contains_key(k) && ostr(m[k].output) != ostr(m[id].output) ==> a[k] == m[k]
        }),
{
    let a = activate(m, id, focused);
    assert(a.dom() =~= m.dom());
}

/// Activation keeps the workspaces consistent, when no output has the
/// empty name.
pub proof fn law_activation_keeps_consistency(m: Map<u64, WorkspaceInfo>, id: u64, focused: bool)
    requires
        workspaces_consistent(m),
        no_empty_output_name(m),
        forall|k: u64| #[trigger] m.contains_key(k) ==> m[k].id == k,
    ensures
        workspaces_consistent(activate(m, id, focused)),
        no_empty_output_name(activate(m, id, focused)),
{
    let a = activate(m, id, focused);
    if m.contains_key(id) {
        let out = ostr(m[id].output);
        assert forall|k: u64| #[trigger] a.contains_key(k) implies a[k].output == m[k].output && a[k].id == m[k].id by {
        }
        assert forall|k1: u64, k2: u64|
            #[trigger] a.contains_key(k1) && #[trigger] a.contains_key(k2) && k1 != k2 && a[k1].is_active && a[k2].is_active
                implies str_or_empty(a[k1].output) != str_or_empty(a[k2].output) by {
            let o1 = ostr(m[k1].output);
            let o2 = ostr(m[k2].output);
            if o1 == out && o2 == out {
            } else if o1 == out {
                assert(k1 == id);
                if str_or_empty(m[k2].output) == str_or_empty(m[k1].output) {
                    assert(ostr(m[k2].output) == ostr(m[k1].output));
                }
            } else if o2 == out {
                assert(k2 == id);
                if str_or_empty(m[k2].output) == str_or_empty(m[k1].output) {
                    assert(ostr(m[k2].output) == ostr(m[k1].output));
                }
            } else {
                assert(a[k1] == m[k1] && a[k2] == m[k2]);
            }
        }
    }
}

proof fn lemma_first_focused_is_active(v: Seq<WorkspaceInfo>)
    requires
        forall|i: int| 0 <= i < v.len() ==> (#[trigger] v[i]).is_focused ==> v[i].is_active,
        forall|i: int, j: int| 0 <= i < v.len() && 0 <= j < v.len() && i != j && (#[trigger] v[i]).is_active ==> !(#[trigger] v[j]).is_active,
    ensures
        first_focused(v) < 0 || first_focused(v) == first_active(v),
        first_active(v) >= -1,
        first_focused(v) < v.len(),
        first_active(v) < v.len(),
    decreases v.len(),
{
    if v.len() > 0 {
        let t = v.drop_first();
        assert forall|i: int| 0 <= i < t.len() && (#[trigger] t[i]).is_focused implies t[i].is_active by {
            assert(t[i] == v[i + 1]);
        }
        assert forall|i: int, j: int| 0 <= i < t.len() && 0 <= j < t.len() && i != j && (#[trigger] t[i]).is_active implies !(#[trigger] t[j]).is_active by {
            assert(t[i] == v[i + 1] && t[j] == v[j + 1]);
        }
        lemma_first_focused_is_active(t);
        if !v[0].is_focused && v[0].is_active {
            if first_focused(t) >= 0 {
                let f = first_focused(t);
                lemma_first_is_focused(t);
                assert(t[f] == v[f + 1]);
            }
        }
    }
}

proof fn lemma_first_is_focused(v: Seq<WorkspaceInfo>)
    ensures
        first_focused(v) >= 0 ==> first_focused(v) < v.len() && v[first_focused(v)].is_focused,
        first_focused(v) >= -1,
    decreases v.len(),
{
    if v.len() > 0 {
        lemma_first_is_focused(v.drop_first());
    }
}

proof fn lemma_non_empty_sub(s: Seq<WorkspaceInfo>)
    ensures
        non_empty(s).len() <= s.len(),
        forall|i: int| 0 <= i < non_empty(s).len() ==> s.contains(#[trigger] non_empty(s)[i]),
        strictly_sorted(s) ==> strictly_sorted(non_empty(s)),
    decreases s.len(),
{
    if s.len() > 0 {
        let t = s.drop_last();
        lemma_non_empty_sub(t);
        let r = non_empty(s);
        let q = non_empty(t);
        assert forall|i: int| 0 <= i < r.len() implies s.contains(#[trigger] r[i]) by {
            if i < q.len() {
                assert(r[i] == q[i]);
                let a = choose|a: int| 0 <= a < t.len() && t[a] == q[i];
                assert(s[a] == r[i]);
            } else {
                assert(r[i] == s[s.len() - 1]);
            }
        }
        if strictly_sorted(s) {
            assert forall|i: int, j: int| 0 <= i < j < t.len() implies #[trigger] t[i].before(&#[trigger] t[j]) by {
                assert(t[i] == s[i] && t[j] == s[j]);
            }
            assert forall|i: int, j: int| 0 <= i < j < r.len() implies #[trigger] r[i].before(&#[trigger] r[j]) by {
                assert(r[i] == q[i]);
                if j < q.len() {
                    assert(r[j] == q[j]);
                } else {
                    assert(q.contains(q[i]));
                    let a = choose|a: int| 0 <= a < t.len() && t[a] == q[i];
                    assert(r[j] == s[s.len() - 1]);
                    assert(s[a].before(&s[s.len() - 1]));
                }
            }
        }
    }
}

/// What an indicator lists of `s` is taken from `s` and keeps its order.
proof fn lemma_shown_sub(s: Seq<WorkspaceInfo>, p: bool)
    ensures
        shown(s, p).len() <= s.len(),
        forall|i: int| 0 <= i < shown(s, p).len() ==> s.contains(#[trigger] shown(s, p)[i]),
        strictly_sorted(s) ==> strictly_sorted(shown(s, p)),
{
    if p {
        assert forall|i: int| 0 <= i < s.len() implies s.contains(#[trigger] s[i]) by {}
    } else {
        lemma_non_empty_sub(s);
    }
}

/// The data of one indicator is sound when the workspaces are consistent.
proof fn lemma_entry_sound(m: Map<u64, WorkspaceInfo>, out: Seq<char>, preserve_empty: bool)
    requires
        workspaces_consistent(m),
        m.dom().finite(),
        m.dom().len() <= i32::MAX,
        forall|k: u64| #[trigger] m.contains_key(k) ==> m[k].id == k,
    ensures
        workspace_data_sound(workspace_data_of(output_workspaces(m, out), preserve_empty)),
{
    let s = output_workspaces(m, out);
    let sel = on_output(out);
    let v = shown(s, preserve_empty);
    crate::order::lemma_selection_exists(m, sel);
    assert(ordered_selection(s, m, sel));
    crate::order::lemma_selection_len(s, m, sel);
    lemma_shown_sub(s, preserve_empty);
    assert forall|a: int| 0 <= a < v.len() && (#[trigger] v[a]).is_focused implies v[a].is_active by {
        assert(s.contains(v[a]));
        let x = choose|x: int| 0 <= x < s.len() && s[x] == v[a];
        assert(m.contains_key(s[x].key()) && m[s[x].key()] == s[x]);
    }
    assert forall|a: int, b: int| 0 <= a < v.len() && 0 <= b < v.len() && a != b && (#[trigger] v[a]).is_active implies !(#[trigger] v[b]).is_active by {
        if v[b].is_active {
            assert(s.contains(v[a]) && s.contains(v[b]));
            let x = choose|x: int| 0 <= x < s.len() && s[x] == v[a];
            let y = choose|y: int| 0 <= y < s.len() && s[y] == v[b];
            if a < b {
                assert(v[a].before(&v[b]));
            } else {
                assert(v[b].before(&v[a]));
            }
            if v[a].id == v[b].id {
                assert(m[s[x].key()] == s[x] && m[s[y].key()] == s[y]);
                WorkspaceInfo::before_irreflexive(v[a]);
            }
            assert(m.contains_key(s[x].key()) && m[s[x].key()] == s[x]);
            assert(m.contains_key(s[y].key()) && m[s[y].key()] == s[y]);
            assert(sel(s[x]) && sel(s[y]));
        }
    }
    lemma_first_focused_is_active(v);
}

/// With consistent workspaces, every workspace indicator's data is sound:
/// notifying never stops on the indicator assertions. The bound on the
/// number of workspaces keeps positions within `i32`.
pub proof fn law_consistent_workspaces_notify_safely(m: Map<u64, WorkspaceInfo>, entries: Seq<(u32, crate::workspace::WorkspaceCB<crate::config::NiriConf>)>)
    requires
        workspaces_consistent(m),
        m.dom().finite(),
        m.dom().len() <= i32::MAX,
        forall|k: u64| #[trigger] m.contains_key(k) ==> m[k].id == k,
    ensures
        workspace_data_ok(m, entries),
{
    assert forall|i: int| 0 <= i < entries.len() && (#[trigger] ws_entry_data(m, entries[i].1)) is Some implies workspace_data_sound(ws_entry_data(m, entries[i].1)->0) by {
        let e = entries[i].1;
        lemma_entry_sound(m, e.output@, e.data.preserve_empty);
    }
}

/// Swapping the red and blue bytes twice gives the pixels back.
pub proof fn law_swizzle_twice_restores(p: Seq<u8>)
    ensures
        swizzled(swizzled(p)) == p,
{
    let q = swizzled(p);
    let n = p.len() - p.len() % 4;
    assert forall|i: int| 0 <= i < p.len() implies #[trigger] swizzled(q)[i] == p[i] by {
        if i < n && i % 4 == 0 {
            assert((i + 2) % 4 == 2 && i + 2 < n) by (nonlinear_arith)
                requires i % 4 == 0, i < n, n % 4 == 0;
        } else if i < n && i % 4 == 2 {
            assert((i - 2) % 4 == 0 && i - 2 >= 0) by (nonlinear_arith)
                requires i % 4 == 2, 0 <= i;
        }
    }
    assert(swizzled(q) =~= p);
}

/// The payloads `data` offered again without forcing.
pub open spec fn unforced(data: Seq<(DockView, bool)>) -> Seq<(DockView, bool)> {
    data.map_values(|x: (DockView, bool)| (x.0, false))
}

/// A dock that was just offered a payload is not sent the same payload
/// again when it is offered without forcing: unchanged data causes no
/// redraw.
pub proof fn law_docks_not_resent_unchanged(
    e0: Seq<(ID, DockCB)>,
    e1: Seq<(ID, DockCB)>,
    e2: Seq<(ID, DockCB)>,
    data: Seq<(DockView, bool)>,
    m1: Seq<Option<DockView>>,
    m2: Seq<Option<DockView>>,
)
    requires
        docks_called(e0, e1, data, m1),
        docks_called(e1, e2, unforced(data), m2),
    ensures
        forall|i: int| 0 <= i < m2.len() ==> #[trigger] m2[i] is None,
{
    assert forall|i: int| 0 <= i < m2.len() implies #[trigger] m2[i] is None by {
        let a = e0[i];
        let b = e1[i];
        assert(unforced(data)[i] == (data[i].0, false));
        if m1[i] is Some {
            let l = b.1.last_data->0;
            lemma_same_dock_view_refl(l.view());
        } else {
            let l = a.1.last_data->0;
        }
    }
}

/// A payload is the same as itself.
pub proof fn lemma_same_dock_view_refl(v: DockView)
    ensures
        same_dock_view(v, v),
{
}

/// An indicator that was just offered its data is not sent the same data
/// again: unchanged workspaces cause no redraw.
pub proof fn law_indicators_not_resent_unchanged<T>(
    e0: Seq<(ID, WorkspaceCB<T>)>,
    e1: Seq<(ID, WorkspaceCB<T>)>,
    e2: Seq<(ID, WorkspaceCB<T>)>,
    data: Seq<Option<WorkspaceData>>,
    m1: Seq<Option<WorkspaceData>>,
    m2: Seq<Option<WorkspaceData>>,
)
    requires
        indicators_called(e0, e1, data, m1),
        indicators_called(e1, e2, data, m2),
    ensures
        forall|i: int| 0 <= i < m2.len() ==> #[trigger] m2[i] is None,
{
    assert forall|i: int| 0 <= i < m2.len() implies #[trigger] m2[i] is None by {
        let a = e0[i];
        let b = e1[i];
    }
}

/// Registering a widget under the next id and unregistering that id gives
/// the registered widgets back.
pub proof fn law_register_unregister_restores<T>(s: Seq<(ID, T)>, next: ID, cb: T)
    requires
        ids_ordered(s, next),
    ensures
        without_id(s.push((next, cb)), next) == s,
{
    assert(s.push((next, cb)).drop_last() =~= s);
    lemma_without_absent(s, next);
}

/// Removing an id that no entry has changes nothing.
proof fn lemma_without_absent<T>(s: Seq<(ID, T)>, id: ID)
    requires
        forall|i: int| 0 <= i < s.len() ==> (#[trigger] s[i]).0 != id,
    ensures
        without_id(s, id) == s,
    decreases s.len(),
{
    if s.len() > 0 {
        let t = s.drop_last();
        assert forall|i: int| 0 <= i < t.len() implies (#[trigger] t[i]).0 != id by {
            assert(t[i] == s[i]);
        }
        lemma_without_absent(t, id);
        assert(s.last() == s[s.len() - 1]);
        assert(t.push(s.last()) =~= s);
    }
}

/// The icon names to try list each name once, and list the application
/// id and both its variants, after the `.desktop` entry's name if there
/// is one.
pub proof fn law_icon_names_once(desktop: Option<Seq<char>>, app: Seq<char>, lower: Seq<char>, short: Seq<char>)
    ensures
        names_spec(desktop, app, lower, short).no_duplicates(),
        names_spec(desktop, app, lower, short).contains(app),
        names_spec(desktop, app, lower, short).contains(lower),
        names_spec(desktop, app, lower, short).contains(short),
        desktop matches Some(d) ==> names_spec(desktop, app, lower, short)[0] == d,
{
    let init = match desktop {
        Some(d) => seq![d],
        None => Seq::<Seq<char>>::empty(),
    };
    lemma_push_new(init, app);
    let a = push_new(init, app);
    lemma_push_new(a, lower);
    let b = push_new(a, lower);
    lemma_push_new(b, short);
    let c = push_new(b, short);
    assert(a.contains(app));
    if b.len() > a.len() {
        assert(b[a.len() as int] == lower);
    }
    assert(b.contains(lower));
    assert(c.contains(short));
    let k = choose|k: int| 0 <= k < a.len() && a[k] == app;
    assert(b[k] == app && c[k] == app);
    let k2 = choose|k: int| 0 <= k < b.len() && b[k] == lower;
    assert(c[k2] == lower);
    if desktop is Some {
        assert(init.len() == 1);
        assert(a[0] == init[0] && b[0] == a[0] && c[0] == b[0]);
    }
}

/// Appending a name not yet listed keeps a list without duplicates, and
/// keeps what was listed.
proof fn lemma_push_new(s: Seq<Seq<char>>, x: Seq<char>)
    requires
        s.no_duplicates(),
    ensures
        push_new(s, x).no_duplicates(),
        push_new(s, x).contains(x),
        s.len() <= push_new(s, x).len(),
        forall|i: int| 0 <= i < s.len() ==> push_new(s, x)[i] == s[i],
{
    if !s.contains(x) {
        let t = s.push(x);
        assert(t[s.len() as int] == x);
        assert forall|i: int, j: int| 0 <= i < t.len() && 0 <= j < t.len() && i != j implies t[i] != t[j] by {
            if i == s.len() {
                assert(t[j] == s[j]);
            } else if j == s.len() {
                assert(t[i] == s[i]);
            } else {
                assert(t[i] == s[i] && t[j] == s[j]);
            }
        }
    }
}

/// The standard icon sizes increase.
proof fn lemma_standard_sizes_increase()
    ensures
        forall|i: int, j: int| 0 <= i < j < 21 ==> standard_sizes()[i] < standard_sizes()[j],
{
    assert(standard_sizes().len() == 21);
    assert forall|i: int| 0 <= i < 20 implies #[trigger] standard_sizes()[i] < standard_sizes()[i + 1] by {
        assert(0 <= i < 20);
    }
    assert forall|i: int, j: int| 0 <= i < j < 21 implies standard_sizes()[i] < standard_sizes()[j] by {
        lemma_increase_from(i, j);
    }
}

proof fn lemma_increase_from(i: int, j: int)
    requires
        0 <= i < j < 21,
        forall|k: int| 0 <= k < 20 ==> #[trigger] standard_sizes()[k] < standard_sizes()[k + 1],
    ensures
        standard_sizes()[i] < standard_sizes()[j],
    decreases j - i,
{
    assert(standard_sizes()[j - 1] < standard_sizes()[j]);
    if i < j - 1 {
        lemma_increase_from(i, j - 1);
    }
}

/// The sizes tried for a target size `t` are the standard sizes, each
/// once: first the closest standard size not below `t`, when one is, and
/// the larger ones in increasing order, then the smaller ones from the
/// largest down.
pub proof fn law_ordered_sizes(t: u32)
    ensures
        ordered_sizes(t).len() == 21,
        ordered_sizes(t).to_multiset() == standard_sizes().to_multiset(),
        forall|i: int, j: int| 0 <= i < j < 21 && ordered_sizes(t)[i] >= t ==> ordered_sizes(t)[i] < ordered_sizes(t)[j] || ordered_sizes(t)[j] < t,
        forall|i: int, j: int| 0 <= i < j < 21 && ordered_sizes(t)[i] < t ==> ordered_sizes(t)[j] < ordered_sizes(t)[i],
        forall|i: int, j: int| 0 <= i < j < 21 && ordered_sizes(t)[i] < t ==> ordered_sizes(t)[j] < t,
        forall|i: int| 0 <= i < 21 && standard_sizes()[i] >= t ==> ordered_sizes(t)[0] >= t && ordered_sizes(t)[0] <= standard_sizes()[i],
{
    let s = standard_sizes();
    let p = count_below(s, t) as int;
    lemma_standard_sizes_increase();
    lemma_count_below_prefix(s, t);
    let o = ordered_sizes(t);
    let hi = s.subrange(p, 21);
    let lo = s.subrange(0, p).reverse();
    assert(o == hi + lo);
    assert forall|k: int| 0 <= k < 21 - p implies #[trigger] o[k] == s[p + k] && s[p + k] >= t by {}
    assert forall|k: int| 21 - p <= k < 21 implies #[trigger] o[k] == s[20 - k] && s[20 - k] < t by {}
    vstd::seq_lib::lemma_multiset_commutative(hi, lo);
    assert(s.subrange(0, p) + hi =~= s);
    vstd::seq_lib::lemma_multiset_commutative(s.subrange(0, p), hi);
    s.subrange(0, p).lemma_reverse_to_multiset();
    assert forall|i: int| 0 <= i < 21 && s[i] >= t implies o[0] >= t && o[0] <= s[i] by {
        assert(i >= p);
        assert(o[0] == s[p]);
    }
}

/// `count_below(s, t)` leading elements of `s` are below `t`; the next,
/// if any, is not.
proof fn lemma_count_below_prefix(s: Seq<u16>, t: u32)
    ensures
        count_below(s, t) <= s.len(),
        forall|j: int| 0 <= j < count_below(s, t) ==> s[j] < t,
        count_below(s, t) < s.len() ==> s[count_below(s, t) as int] >= t,
    decreases s.len(),
{
    if s.len() > 0 && s[0] < t {
        let r = s.drop_first();
        lemma_count_below_prefix(r, t);
        assert forall|j: int| 0 <= j < count_below(s, t) implies s[j] < t by {
            if j > 0 {
                assert(s[j] == r[j - 1]);
            }
        }
    }
}

/// Requesting an icon twice starts at most one load: after a request the
/// cache knows the icon, so a second request finds it and changes nothing.
pub proof fn law_icon_load_starts_once(m: Map<IconKeyView, IconStatusView>, k: IconKeyView)
    ensures
        ({
            let after = if !m.contains_key(k) { m.insert(k, IconStatusView::Loading) } else { m };
            after.contains_key(k)
        }),
{
}

/// Once the icon itself was looked for, the cache holds a state for it:
/// a final one when loading is over, loading (for the icon and its
/// fallback image) only while the fallback image is still to be looked for.
pub proof fn law_icon_fetch_records_icon(
    m: Map<IconKeyView, IconStatusView>,
    icon: IconKeyView,
    found: Option<(Seq<u8>, i32, i32)>,
    fallback_is_file: bool,
)
    ensures
        ({
            let (after, fb) = after_icon_fetch_spec(m, icon, found, fallback_is_file);
            &&& after.contains_key(icon)
            &&& fb is None ==> !(after[icon] is Loading)
            &&& fb matches Some(k) ==> after.contains_key(k) && after[k] is Loading && after[icon] is Loading
        }),
{
}

/// Once the fallback image was looked for, neither the icon nor the image
/// is left loading: both are ready, marked as a fallback, or both are not
/// found.
pub proof fn law_fallback_fetch_ends_loading(
    m: Map<IconKeyView, IconStatusView>,
    icon: IconKeyView,
    fb: IconKeyView,
    found: Option<(Seq<u8>, i32, i32)>,
)
    ensures
        ({
            let after = after_fallback_fetch_spec(m, icon, fb, found);
            &&& after.contains_key(icon) && after.contains_key(fb)
            &&& after[icon] == after[fb]
            &&& after[icon] matches IconStatusView::Ready { fallback, .. } ==> fallback
            &&& !(after[icon] is Loading)
            &&& (found is None) == (after[icon] is NotFound)
        }),
{
}

/// Two docks registered one after the other with the same manager read
/// one icon cache, the manager's: registering keeps the manager's cache.
pub proof fn law_docks_share_icon_cache(
    m0: NiriManager,
    m1: NiriManager,
    m2: NiriManager,
    cb1: DockCB,
    cb2: DockCB,
    r1: DockRegistration,
    r2: DockRegistration,
    h1: DockHandler,
    h2: DockHandler,
)
    requires
        dock_registered(m0, m1, cb1, r1),
        dock_handler_of(m1, h1, r1.id),
        dock_registered(m1, m2, cb2, r2),
        dock_handler_of(m2, h2, r2.id),
    ensures
        h1.icon_cache_spec() == h2.icon_cache_spec(),
        h2.icon_cache_spec() == m2.icon_cache,
        m2.icon_cache == m0.icon_cache,
{
}

/// The first focused position of `v` is a focused workspace, and there is
/// none when it is negative; likewise for the first active position.
proof fn lemma_first_positions(v: Seq<WorkspaceInfo>)
    ensures
        -1 <= first_focused(v) < v.len(),
        first_focused(v) >= 0 ==> v[first_focused(v)].is_focused,
        first_focused(v) < 0 ==> forall|i: int| 0 <= i < v.len() ==> !(#[trigger] v[i]).is_focused,
        -1 <= first_active(v) < v.len(),
        first_active(v) >= 0 ==> v[first_active(v)].is_active,
        first_active(v) < 0 ==> forall|i: int| 0 <= i < v.len() ==> !(#[trigger] v[i]).is_active,
    decreases v.len(),
{
    if v.len() > 0 {
        let t = v.drop_first();
        lemma_first_positions(t);
        assert forall|i: int| 0 < i < v.len() implies v[i] == t[i - 1] by {}
    }
}

/// What an indicator lists and the data it is sent agree: the count is
/// the number of listed workspaces, all on the indicator's output, the
/// focus position lists a focused workspace (none is focused when it is
/// negative), and the active position an active one. So looking a
/// workspace up by position finds one exactly below the count. The bound
/// on the number of workspaces keeps positions within `i32`.
pub proof fn law_index_agrees_with_data(m: Map<u64, WorkspaceInfo>, out: Seq<char>, preserve_empty: bool)
    requires
        m.dom().finite(),
        m.dom().len() <= i32::MAX,
        forall|k: u64| #[trigger] m.contains_key(k) ==> m[k].id == k,
    ensures
        ({
            let s = output_workspaces(m, out);
            let v = shown(s, preserve_empty);
            let d = workspace_data_of(s, preserve_empty);
            &&& d.workspace_count == v.len()
            &&& forall|i: int| 0 <= i < v.len() ==> str_or_empty((#[trigger] v[i]).output) == out
            &&& d.focus >= 0 ==> d.focus < v.len() && v[d.focus as int].is_focused
            &&& d.focus < 0 ==> d.focus == -1 && forall|i: int| 0 <= i < v.len() ==> !(#[trigger] v[i]).is_focused
            &&& d.active >= 0 ==> d.active < v.len() && v[d.active as int].is_active
            &&& d.active < 0 ==> d.active == -1 && forall|i: int| 0 <= i < v.len() ==> !(#[trigger] v[i]).is_active
        }),
{
    let s = output_workspaces(m, out);
    let sel = on_output(out);
    let v = shown(s, preserve_empty);
    crate::order::lemma_selection_exists(m, sel);
    assert(ordered_selection(s, m, sel));
    crate::order::lemma_selection_len(s, m, sel);
    lemma_shown_sub(s, preserve_empty);
    lemma_first_positions(v);
    assert forall|i: int| 0 <= i < v.len() implies str_or_empty((#[trigger] v[i]).output) == out by {
        assert(s.contains(v[i]));
        let x = choose|x: int| 0 <= x < s.len() && s[x] == v[i];
        assert(m.contains_key(s[x].key()));
        assert(sel(s[x]));
        assert(str_or_empty(s[x].output) == out);
    }
}

/// For the workspaces a cache holds, looking a workspace up by position
/// and the data an indicator is sent agree: `get_workspace_by_index` finds
/// a workspace exactly below the count that `get_workspace_data` gives, on
/// the indicator's output; the focus and active positions find a focused
/// and an active workspace, and are -1 only when there is none. The bound
/// on the number of workspaces keeps positions within `i32`.
pub proof fn law_index_agrees_with_cache(cache: DataCache, out: Seq<char>, preserve_empty: bool)
    requires
        cache.workspaces.view().dom().len() <= i32::MAX,
    ensures
        ({
            let s = output_workspaces(cache.workspaces.view(), out);
            let v = shown(s, preserve_empty);
            let d = workspace_data_of(s, preserve_empty);
            &&& d.workspace_count == v.len()
            &&& forall|i: int| 0 <= i < v.len() ==> str_or_empty((#[trigger] v[i]).output) == out
            &&& d.focus >= 0 ==> d.focus < v.len() && v[d.focus as int].is_focused
            &&& d.focus < 0 ==> d.focus == -1 && forall|i: int| 0 <= i < v.len() ==> !(#[trigger] v[i]).is_focused
            &&& d.active >= 0 ==> d.active < v.len() && v[d.active as int].is_active
            &&& d.active < 0 ==> d.active == -1 && forall|i: int| 0 <= i < v.len() ==> !(#[trigger] v[i]).is_active
        }),
{
    let m = cache.workspaces.view();
    crate::idvec::lemma_seq_map_finite(cache.workspaces.items());
    assert forall|k: u64| #[trigger] m.contains_key(k) implies m[k].id == k by {
        assert(m[k].key() == k);
    }
    law_index_agrees_with_data(m, out, preserve_empty);
}

/// An urgency change sets the window's urgency to what the event says,
/// clearing it as well as setting it, and changes nothing else: no other
/// field of that window, no other window, no window is added or removed.
pub proof fn law_urgency_follows_event(m: Map<u64, WindowInfo>, id: u64, u: bool)
    ensures
        ({
            let after = windows_after(m, Event::WindowUrgencyChanged { id, is_urgent: u }, true);
            &&& after.dom() == m.dom()
            &&& m.contains_key(id) ==> after[id].is_urgent == u
                && after[id].id == m[id].id
                && after[id].title == m[id].title
                && after[id].app_id == m[id].app_id
                && after[id].workspace_id == m[id].workspace_id
                && after[id].is_focused == m[id].is_focused
                && after[id].is_floating == m[id].is_floating
                && after[id].pos_in_scrolling_layout == m[id].pos_in_scrolling_layout
            &&& forall|k: u64| #[trigger] after.contains_key(k) && k != id ==> after[k] == m[k]
        }),
{
    let after = windows_after(m, Event::WindowUrgencyChanged { id, is_urgent: u }, true);
    assert(after.dom() =~= m.dom());
}

/// The windows a dock shows are ordered by workspace and, within one
/// workspace, by column of the scrolling layout and then by tile in the
/// column, as tuples compare: a window in a smaller column comes first
/// whatever the tiles, and windows outside the scrolling layout come before
/// those in it. The payload lists the same windows in the same order.
pub proof fn law_dock_windows_by_column(cache: DataCache, out: Seq<char>)
    ensures
        ({
            let v = output_windows(cache.windows.view(), cache.workspaces.view(), out);
            &&& forall|i: int, j: int| 0 <= i < j < v.len() ==> {
                let a = #[trigger] v[i];
                let b = #[trigger] v[j];
                &&& a.workspace_id matches Some(x) && b.workspace_id matches Some(y) && x <= y
                &&& a.workspace_id == b.workspace_id && a.pos_in_scrolling_layout is Some
                    ==> b.pos_in_scrolling_layout is Some
                &&& (a.workspace_id == b.workspace_id && a.pos_in_scrolling_layout is Some
                    && b.pos_in_scrolling_layout is Some) ==> ({
                        let p = a.pos_in_scrolling_layout->0;
                        let q = b.pos_in_scrolling_layout->0;
                        p.0 <= q.0 && (p.0 == q.0 ==> p.1 <= q.1)
                    })
            }
            &&& dock_view_for(cache.windows.view(), cache.workspaces.view(), out).0.len() == v.len()
            &&& forall|i: int| 0 <= i < v.len() ==> #[trigger] dock_view_for(cache.windows.view(), cache.workspaces.view(), out).0[i].id == v[i].id
        }),
{
    let m = cache.windows.view();
    let sel = window_on_output(cache.workspaces.view(), out);
    let v = output_windows(m, cache.workspaces.view(), out);
    crate::idvec::lemma_seq_map_finite(cache.windows.items());
    crate::order::lemma_selection_exists(m, sel);
    assert(ordered_selection(v, m, sel));
    assert forall|i: int, j: int| 0 <= i < j < v.len() implies {
        let a = #[trigger] v[i];
        let b = #[trigger] v[j];
        &&& a.workspace_id matches Some(x) && b.workspace_id matches Some(y) && x <= y
        &&& a.workspace_id == b.workspace_id && a.pos_in_scrolling_layout is Some
            ==> b.pos_in_scrolling_layout is Some
        &&& (a.workspace_id == b.workspace_id && a.pos_in_scrolling_layout is Some
            && b.pos_in_scrolling_layout is Some) ==> ({
                let p = a.pos_in_scrolling_layout->0;
                let q = b.pos_in_scrolling_layout->0;
                p.0 <= q.0 && (p.0 == q.0 ==> p.1 <= q.1)
            })
    } by {
        assert(v[i].before(&v[j]));
        assert(m.contains_key(v[i].key()));
        assert(sel(v[i]));
        assert(m.contains_key(v[j].key()));
        assert(sel(v[j]));
    }
}

/// A dock is sent a payload that differs from the last one it was sent in
/// any field of any window, its focus included, or in the number of
/// windows, or in which workspaces it holds.
pub proof fn law_dock_resent_when_changed(l: DockData, v: DockView, force: bool, i: int)
    ensures
        l.view().0.len() != v.0.len() ==> dock_dirty(Some(l), v, force),
        (exists|k: u64| #[trigger] l.view().1.contains_key(k) != v.1.contains_key(k)) ==> dock_dirty(Some(l), v, force),
        0 <= i < l.view().0.len() && i < v.0.len() && ({
            let a = l.view().0[i];
            let b = v.0[i];
            ||| a.id != b.id
            ||| a.workspace_id != b.workspace_id
            ||| ostr(a.app_id) != ostr(b.app_id)
            ||| ostr(a.title) != ostr(b.title)
            ||| a.is_focused != b.is_focused
            ||| a.is_floating != b.is_floating
            ||| a.is_urgent != b.is_urgent
        }) ==> dock_dirty(Some(l), v, force),
{
    if exists|k: u64| #[trigger] l.view().1.contains_key(k) != v.1.contains_key(k) {
        let k = choose|k: u64| #[trigger] l.view().1.contains_key(k) != v.1.contains_key(k);
        assert(!same_dock_view(l.view(), v));
    }
    if 0 <= i < l.view().0.len() && i < v.0.len() {
        assert(same_dock_view(l.view(), v) ==> crate::dock::same_window(l.view().0[i], v.0[i]));
    }
}

/// With empty workspaces hidden, an indicator lists exactly the workspaces
/// that are focused, hold a window or are named, in their order: a
/// workspace that is none of these is never listed, active or not. With
/// empty workspaces kept, it lists all of them.
pub proof fn law_hidden_workspaces(s: Seq<WorkspaceInfo>)
    ensures
        forall|i: int| 0 <= i < shown(s, false).len() ==> {
            let w = #[trigger] shown(s, false)[i];
            w.is_focused || w.active_window_id is Some || w.name is Some
        },
        forall|i: int| 0 <= i < shown(s, false).len() ==> s.contains(#[trigger] shown(s, false)[i]),
        forall|j: int| 0 <= j < s.len() && ((#[trigger] s[j]).is_focused || s[j].active_window_id is Some || s[j].name is Some)
            ==> shown(s, false).contains(s[j]),
        shown(s, true) == s,
    decreases s.len(),
{
    lemma_non_empty_sub(s);
    if s.len() > 0 {
        let t = s.drop_last();
        law_hidden_workspaces(t);
        let r = non_empty(s);
        let q = non_empty(t);
        assert forall|i: int| 0 <= i < r.len() implies {
            let w = #[trigger] r[i];
            w.is_focused || w.active_window_id is Some || w.name is Some
        } by {
            if i < q.len() {
                assert(r[i] == q[i]);
                assert(shown(t, false)[i] == q[i]);
            }
        }
        assert forall|j: int| 0 <= j < s.len() && ((#[trigger] s[j]).is_focused || s[j].active_window_id is Some || s[j].name is Some)
            implies r.contains(s[j]) by {
            if j < t.len() {
                assert(t[j] == s[j]);
                assert(shown(t, false).contains(t[j]));
                let a = choose|a: int| 0 <= a < q.len() && q[a] == t[j];
                if is_kept(s.last()) {
                    assert(r[a] == q[a]);
                } else {
                    assert(r == q);
                }
            } else {
                assert(s[j] == s.last());
                assert(r[r.len() - 1] == s[j]);
            }
        }
    }
}

/// A minimal focused workspace id exists when some workspace is focused.
proof fn lemma_min_focused(m: Map<u64, WorkspaceInfo>, k0: u64)
    requires
        m.contains_key(k0) && m[k0].is_focused,
    ensures
        exists|k: u64| m.contains_key(k) && m[k].is_focused && forall|j: u64| m.contains_key(j) && #[trigger] m[j].is_focused ==> k <= j,
    decreases k0,
{
    if exists|j: u64| m.contains_key(j) && #[trigger] m[j].is_focused && j < k0 {
        let j = choose|j: u64| m.contains_key(j) && #[trigger] m[j].is_focused && j < k0;
        lemma_min_focused(m, j);
    } else {
        assert forall|j: u64| m.contains_key(j) && #[trigger] m[j].is_focused implies k0 <= j by {}
    }
}

/// The focused output is the output of a focused workspace (the one with
/// the smallest id): an output none of whose workspaces is focused is never
/// the focused output, however active its workspaces are, and without a
/// focused workspace there is no focused output.
pub proof fn law_focused_output_is_focused(m: Map<u64, WorkspaceInfo>)
    ensures
        (forall|k: u64| #[trigger] m.contains_key(k) ==> !m[k].is_focused) ==> focused_output(m) is None,
        focused_output(m) matches Some(o) ==> exists|k: u64| #[trigger] m.contains_key(k) && m[k].is_focused && ostr(m[k].output) == Some(o),
        (exists|k: u64| #[trigger] m.contains_key(k) && m[k].is_focused) ==> exists|k: u64| #[trigger] m.contains_key(k) && m[k].is_focused
            && focused_output(m) == ostr(m[k].output),
{
    if exists|k: u64| #[trigger] m.contains_key(k) && m[k].is_focused {
        let k0 = choose|k: u64| #[trigger] m.contains_key(k) && m[k].is_focused;
        assert(m.contains_key(k0) && m[k0].is_focused);
        lemma_min_focused(m, k0);
        let f = first_focused_id(m);
        assert(m.contains_key(f) && m[f].is_focused);
    } else {
        assert(!exists|k: u64| m.contains_key(k) && #[trigger] m[k].is_focused);
    }
}

} // verus!
