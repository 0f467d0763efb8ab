//! The discrete decisions of the dock layout: how windows group into
//! workspace blocks, what each block is labelled, and what each window
//! button shows.
use vstd::prelude::*;

use crate::config::ShowTitles;
use crate::dock::{DockWindowData, DockWorkspaceData};
use crate::icon_cache::{IconCache, IconStatus, IconStatusView};
use crate::icons::{IconKey, IconKeyView};
use crate::model::{clone_opt_str, ostr, str_or_empty};
use crate::text::{chars_of, push_char};

verus! {

/// Whether a window button shows its title: always with `Always` and
/// `Only`, for the focused window with `Focused`, never with `Never`.
pub fn has_title(show: ShowTitles, is_focused: bool) -> (r: bool)
    ensures
        r == (show == ShowTitles::Always || show == ShowTitles::Only || (show == ShowTitles::Focused && is_focused)),
{
    match show {
        ShowTitles::Always | ShowTitles::Only => true,
        ShowTitles::Focused => is_focused,
        ShowTitles::Never => false,
    }
}

/// Whether window buttons show icons: unless only titles are shown, and
/// when the icon size is positive.
pub fn icons_enabled(show: ShowTitles, icon_size_positive: bool) -> (r: bool)
    ensures
        r == (show != ShowTitles::Only && icon_size_positive),
{
    match show {
        ShowTitles::Only => false,
        _ => icon_size_positive,
    }
}

/// The full Unicode uppercase mapping of `c`, as `char::to_uppercase`
/// gives it.
pub uninterp spec fn uppercase(c: char) -> Seq<char>;

/// The uppercase of `c`, by `char::to_uppercase`.
#[verifier::external_body]
fn to_uppercase(c: char) -> (r: String)
    ensures
        r@ == uppercase(c),
{
    c.to_uppercase().to_string()
}

/// The text a button without icons shows in their place: the configured
/// fallback when it is a single character, else the uppercased first
/// character of the window title, else nothing.
pub open spec fn fallback_text(fallback: Option<Seq<char>>, title: Option<Seq<char>>) -> Seq<char> {
    if fallback matches Some(f) && f.len() == 1 {
        fallback->0
    } else if title matches Some(t) && t.len() > 0 {
        uppercase(title->0[0])
    } else {
        Seq::empty()
    }
}

/// The text a window button without icons shows in their place.
pub fn fallback_char(icon_fallback: &Option<String>, title: &Option<String>) -> (r: String)
    ensures
        r@ == fallback_text(ostr(*icon_fallback), ostr(*title)),
{
    if let Some(f) = icon_fallback {
        let cs = chars_of(f.as_str());
        if cs.len() == 1 {
            return f.clone();
        }
    }
    if let Some(t) = title {
        let cs = chars_of(t.as_str());
        if cs.len() > 0 {
            return to_uppercase(cs[0]);
        }
    }
    String::new()
}

/// The decimal digit `d`.
pub open spec fn digit(d: int) -> char {
    seq!['0', '1', '2', '3', '4', '5', '6', '7', '8', '9'][d]
}

/// The decimal notation of `n`, without leading zeros.
pub open spec fn decimal(n: nat) -> Seq<char>
    decreases n,
{
    if n < 10 {
        seq![digit(n as int)]
    } else {
        decimal(n / 10).push(digit((n % 10) as int))
    }
}

/// The decimal notation of `n`.
pub fn decimal_string(n: u64) -> (r: String)
    ensures
        r@ == decimal(n as nat),
    decreases n,
{
    let digits = ['0', '1', '2', '3', '4', '5', '6', '7', '8', '9'];
    assert(digits@ =~= seq!['0', '1', '2', '3', '4', '5', '6', '7', '8', '9']);
    if n < 10 {
        let mut s = String::new();
        push_char(&mut s, digits[n as usize]);
        assert(s@ =~= seq![digit(n as int)]);
        s
    } else {
        let mut s = decimal_string(n / 10);
        push_char(&mut s, digits[(n % 10) as usize]);
        s
    }
}

/// The label of a workspace block: the workspace's name, or its index in
/// decimal; none when the workspace is unknown.
pub open spec fn tag_name(ws: Option<DockWorkspaceData>) -> Option<Seq<char>> {
    match ws {
        Some(w) => match w.name {
            Some(n) => Some(n@),
            None => Some(decimal(w.idx as nat)),
        },
        None => None,
    }
}

/// The label of the block of workspace `ws`, if it is known.
pub fn workspace_tag_name(ws: Option<&DockWorkspaceData>) -> (r: Option<String>)
    ensures
        ostr(r) == tag_name(match ws {
            Some(w) => Some(*w),
            None => None,
        }),
{
    match ws {
        Some(w) => match &w.name {
            Some(n) => Some(n.clone()),
            None => Some(decimal_string(w.idx)),
        },
        None => None,
    }
}

/// `r` splits the windows `ws` into their runs of consecutive windows of
/// the same workspace, in order: each run `(start, end)` is non-empty, the
/// runs cover all windows, and two neighbouring runs differ in workspace.
pub open spec fn workspace_runs(ws: Seq<DockWindowData>, r: Seq<(usize, usize)>) -> bool {
    &&& ws.len() == 0 <==> r.len() == 0
    &&& r.len() > 0 ==> r[0].0 == 0 && r.last().1 == ws.len()
    &&& forall|k: int| 0 <= k < r.len() ==> (#[trigger] r[k]).0 < r[k].1
    &&& forall|k: int| 0 <= k < r.len() - 1 ==> (#[trigger] r[k]).1 == r[k + 1].0
    &&& forall|k: int, i: int| 0 <= k < r.len() && r[k].0 <= i < r[k].1 ==> (#[trigger] ws[i]).workspace_id == ws[(#[trigger] r[k]).0 as int].workspace_id
    &&& forall|k: int| 0 <= k < r.len() - 1 ==> ws[(#[trigger] r[k]).1 - 1].workspace_id != ws[r[k].1 as int].workspace_id
}

/// The runs of consecutive windows of the same workspace among `windows`,
/// as ranges of positions, in order.
pub fn group_by_workspace(windows: &Vec<DockWindowData>) -> (r: Vec<(usize, usize)>)
    ensures
        workspace_runs(windows@, r@),
{
    let n = windows.len();
    let mut r: Vec<(usize, usize)> = Vec::new();
    if n == 0 {
        return r;
    }
    let mut start: usize = 0;
    let mut i: usize = 1;
    while i < n
        invariant
            n == windows@.len(),
            0 <= start < i <= n,
            r@.len() == 0 <==> start == 0,
            r@.len() > 0 ==> r@[0].0 == 0 && r@.last().1 == start,
            forall|k: int| 0 <= k < r@.len() ==> (#[trigger] r@[k]).0 < r@[k].1,
            forall|k: int| 0 <= k < r@.len() - 1 ==> (#[trigger] r@[k]).1 == r@[k + 1].0,
            forall|k: int, j: int| 0 <= k < r@.len() && r@[k].0 <= j < r@[k].1 ==> (#[trigger] windows@[j]).workspace_id == windows@[(#[trigger] r@[k]).0 as int].workspace_id,
            forall|k: int| 0 <= k < r@.len() ==> windows@[(#[trigger] r@[k]).1 - 1].workspace_id != windows@[r@[k].1 as int].workspace_id,
            forall|j: int| start <= j < i ==> (#[trigger] windows@[j]).workspace_id == windows@[start as int].workspace_id,
        decreases n - i,
    {
        if windows[i].workspace_id != windows[i - 1].workspace_id {
            r.push((start, i));
            start = i;
        }
        i = i + 1;
    }
    r.push((start, n));
    r
}

/// Whether a window of `windows` in positions `start..end` is focused:
/// then its workspace block is shown focused.
pub fn run_focused(windows: &Vec<DockWindowData>, start: usize, end: usize) -> (r: bool)
    requires
        start <= end <= windows@.len(),
    ensures
        r == exists|i: int| start <= i < end && (#[trigger] windows@[i]).is_focused,
{
    let mut i: usize = start;
    while i < end
        invariant
            start <= i <= end <= windows@.len(),
            forall|j: int| start <= j < i ==> !(#[trigger] windows@[j]).is_focused,
        decreases end - i,
    {
        if windows[i].is_focused {
            return true;
        }
        i = i + 1;
    }
    false
}

/// The key of the icon a window button shows for window `w` with icon
/// size `size`, theme `theme` and fallback `fallback`; a window without
/// application id has the empty one.
pub open spec fn window_key(w: DockWindowData, size: u32, theme: Option<Seq<char>>, fallback: Option<Seq<char>>) -> IconKeyView {
    IconKeyView { app_id: str_or_empty(w.app_id), size, theme, fallback }
}

/// The keys of `keys` by their views.
pub open spec fn key_views(keys: Seq<IconKey>) -> Seq<IconKeyView> {
    keys.map_values(|k: IconKey| k.view())
}

/// The icons to turn into surfaces for the windows `ws`, in window order:
/// the key of each window whose icon is ready in `cache` and that has no
/// surface yet (not in `have`), each once.
pub open spec fn keys_to_reconcile(
    ws: Seq<DockWindowData>,
    size: u32,
    theme: Option<Seq<char>>,
    fallback: Option<Seq<char>>,
    have: Seq<IconKeyView>,
    cache: Map<IconKeyView, IconStatusView>,
) -> Seq<IconKeyView>
    decreases ws.len(),
{
    if ws.len() == 0 {
        Seq::empty()
    } else {
        let r = keys_to_reconcile(ws.drop_last(), size, theme, fallback, have, cache);
        let k = window_key(ws.last(), size, theme, fallback);
        if !have.contains(k) && !r.contains(k) && cache.contains_key(k) && cache[k] is Ready {
            r.push(k)
        } else {
            r
        }
    }
}

/// Whether `keys` holds a key naming the same icon as `k`.
fn holds_key(keys: &Vec<IconKey>, k: &IconKey) -> (r: bool)
    ensures
        r == key_views(keys@).contains(k.view()),
{
    let mut i: usize = 0;
    while i < keys.len()
        invariant
            i <= keys@.len(),
            forall|j: int| 0 <= j < i ==> (#[trigger] keys@[j]).view() != k.view(),
        decreases keys@.len() - i,
    {
        if keys[i].same_as(k) {
            proof {
                assert(key_views(keys@)[i as int] == k.view());
            }
            return true;
        }
        i = i + 1;
    }
    proof {
        if key_views(keys@).contains(k.view()) {
            let j = choose|j: int| 0 <= j < key_views(keys@).len() && key_views(keys@)[j] == k.view();
            assert(keys@[j].view() == k.view());
        }
    }
    false
}

/// The icons a dock turns into surfaces before drawing the windows
/// `windows`: for each window in order, its icon key (with the dock's icon
/// size, theme and fallback) when the icon is ready in `cache` and the dock
/// has no surface for it yet (`have`), each key once.
pub fn icons_to_reconcile(
    windows: &Vec<DockWindowData>,
    size: u32,
    theme: &Option<String>,
    fallback: &Option<String>,
    have: &Vec<IconKey>,
    cache: &IconCache,
) -> (r: Vec<IconKey>)
    ensures
        key_views(r@) == keys_to_reconcile(windows@, size, ostr(*theme), ostr(*fallback), key_views(have@), cache@),
{
    let mut r: Vec<IconKey> = Vec::new();
    let mut i: usize = 0;
    while i < windows.len()
        invariant
            i <= windows@.len(),
            key_views(r@) == keys_to_reconcile(windows@.take(i as int), size, ostr(*theme), ostr(*fallback), key_views(have@), cache@),
        decreases windows@.len() - i,
    {
        let w = &windows[i];
        let key = IconKey {
            app_id: match &w.app_id {
                Some(a) => a.clone(),
                None => String::new(),
            },
            size,
            theme: clone_opt_str(theme),
            fallback: clone_opt_str(fallback),
        };
        proof {
            assert(windows@.take(i + 1).drop_last() =~= windows@.take(i as int));
            assert(windows@.take(i + 1).last() == windows@[i as int]);
            assert(key.view() == window_key(windows@[i as int], size, ostr(*theme), ostr(*fallback)));
        }
        let ready = match cache.get(&key) {
            Some(IconStatus::Ready { .. }) => true,
            _ => false,
        };
        if ready && !holds_key(have, &key) && !holds_key(&r, &key) {
            let ghost before = r@;
            r.push(key);
            proof {
                assert(key_views(r@) =~= key_views(before).push(r@.last().view()));
            }
        }
        i = i + 1;
    }
    proof {
        assert(windows@.take(windows@.len() as int) =~= windows@);
    }
    r
}

} // verus!
