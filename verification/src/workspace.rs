//! What a workspace indicator shows of one output: how many workspaces,
//! which one is focused and which one is active.
use vstd::prelude::*;

use crate::cache::DataCache;
use crate::idvec::IdVec;
use crate::model::{Duplicate, WorkspaceInfo, str_or_empty};
use crate::dock::{ID, ids_ordered, lemma_without_id_ordered, without_id};
use crate::order::{pick, selection, sort_selected};

verus! {

/// Workspace counts and positions sent to a workspace indicator.
#[derive(Debug, Clone, Copy, PartialEq, Eq, Structural)]
pub struct WorkspaceData {
    /// Number of workspaces, from 1.
    pub workspace_count: i32,
    /// Position of the focused workspace, from 0; -1 when none is.
    pub focus: i32,
    /// Position of the active workspace, from 0; -1 when none is.
    pub active: i32,
}

impl Default for WorkspaceData {
    fn default() -> (r: Self)
        ensures
            r == (WorkspaceData { workspace_count: 1, focus: 0, active: 0 }),
    {
        WorkspaceData { workspace_count: 1, focus: 0, active: 0 }
    }
}

/// A workspace that is kept when empty workspaces are hidden: it is
/// focused, holds a window, or is named.
pub open spec fn is_kept(w: WorkspaceInfo) -> bool {
    w.is_focused || w.active_window_id is Some || w.name is Some
}

/// The workspaces of `s` that are kept when empty workspaces are hidden, in order.
pub open spec fn non_empty(s: Seq<WorkspaceInfo>) -> Seq<WorkspaceInfo>
    decreases s.len(),
{
    if s.len() == 0 {
        s
    } else if is_kept(s.last()) {
        non_empty(s.drop_last()).push(s.last())
    } else {
        non_empty(s.drop_last())
    }
}

/// Position of the first focused workspace of `s`, -1 when there is none.
pub open spec fn first_focused(s: Seq<WorkspaceInfo>) -> int
    decreases s.len(),
{
    if s.len() == 0 {
        -1
    } else if s[0].is_focused {
        0
    } else if first_focused(s.drop_first()) < 0 {
        -1
    } else {
        first_focused(s.drop_first()) + 1
    }
}

/// Position of the first active workspace of `s`, -1 when there is none.
pub open spec fn first_active(s: Seq<WorkspaceInfo>) -> int
    decreases s.len(),
{
    if s.len() == 0 {
        -1
    } else if s[0].is_active {
        0
    } else if first_active(s.drop_first()) < 0 {
        -1
    } else {
        first_active(s.drop_first()) + 1
    }
}

/// The workspaces an indicator lists: all of `s`, or with `preserve_empty`
/// off only the kept ones.
pub open spec fn shown(s: Seq<WorkspaceInfo>, preserve_empty: bool) -> Seq<WorkspaceInfo> {
    if preserve_empty {
        s
    } else {
        non_empty(s)
    }
}

/// What an indicator shows of the ordered workspaces `s` of its output.
/// Positions and count are converted to `i32` as `as` does.
pub open spec fn workspace_data_of(s: Seq<WorkspaceInfo>, preserve_empty: bool) -> WorkspaceData {
    let v = shown(s, preserve_empty);
    WorkspaceData {
        workspace_count: v.len() as i32,
        focus: first_focused(v) as i32,
        active: first_active(v) as i32,
    }
}

/// The workspace `w` is on the output named `out`; a workspace without an
/// output counts as being on the output with the empty name.
pub open spec fn on_output(out: Seq<char>) -> spec_fn(WorkspaceInfo) -> bool {
    |w: WorkspaceInfo| str_or_empty(w.output) == out
}

/// The workspaces of output `out`, ordered by index and then by id.
pub open spec fn output_workspaces(m: Map<u64, WorkspaceInfo>, out: Seq<char>) -> Seq<WorkspaceInfo> {
    selection(m, on_output(out))
}

/// Whether workspace `w` is on the output named `out`.
pub fn is_on_output(w: &WorkspaceInfo, out: &String) -> (b: bool)
    ensures
        b == on_output(out@)(*w),
{
    match &w.output {
        Some(o) => o.eq(out),
        None => {
            let e = out.as_str().is_empty();
            assert(e ==> out@ =~= Seq::<char>::empty());
            e
        },
    }
}

/// Positions in `ws` of the workspaces of output `out`, ordered by index and then by id.
pub fn output_workspace_indices(ws: &IdVec<WorkspaceInfo>, out: &String) -> (idx: Vec<usize>)
    ensures
        forall|a: int| 0 <= a < idx@.len() ==> #[trigger] idx@[a] < ws.items().len(),
        pick(ws.items(), idx@) == output_workspaces(ws.view(), out@),
{
    let n = ws.len();
    let mut mask: Vec<bool> = Vec::new();
    let mut i: usize = 0;
    while i < n
        invariant
            n == ws.items().len(),
            i <= n,
            mask@.len() == i,
            forall|j: int| 0 <= j < i ==> #[trigger] mask@[j] == on_output(out@)(ws.items()[j]),
        decreases n - i,
    {
        mask.push(is_on_output(ws.at(i), out));
        i = i + 1;
    }
    sort_selected(ws, &mask, Ghost(on_output(out@)))
}

/// Copies of the workspaces at positions `idx` of `ws`.
pub fn collect_workspaces(ws: &IdVec<WorkspaceInfo>, idx: &Vec<usize>) -> (r: Vec<WorkspaceInfo>)
    requires
        forall|a: int| 0 <= a < idx@.len() ==> #[trigger] idx@[a] < ws.items().len(),
    ensures
        r@ == pick(ws.items(), idx@),
{
    let mut r: Vec<WorkspaceInfo> = Vec::new();
    let mut a: usize = 0;
    while a < idx.len()
        invariant
            a <= idx@.len(),
            forall|b: int| 0 <= b < idx@.len() ==> #[trigger] idx@[b] < ws.items().len(),
            r@ == pick(ws.items(), idx@).take(a as int),
        decreases idx@.len() - a,
    {
        r.push(ws.at(idx[a]).duplicate());
        a = a + 1;
        assert(r@ =~= pick(ws.items(), idx@).take(a as int));
    }
    assert(r@ =~= pick(ws.items(), idx@));
    r
}

/// The workspaces of `workspaces` that are kept when empty workspaces are
/// hidden: the focused, non-empty and named ones, in order.
pub fn filter_empty_workspace(workspaces: &Vec<WorkspaceInfo>) -> (r: Vec<WorkspaceInfo>)
    ensures
        r@ == non_empty(workspaces@),
{
    let mut r: Vec<WorkspaceInfo> = Vec::new();
    let mut i: usize = 0;
    while i < workspaces.len()
        invariant
            i <= workspaces@.len(),
            r@ == non_empty(workspaces@.take(i as int)),
        decreases workspaces@.len() - i,
    {
        let w = &workspaces[i];
        assert(workspaces@.take(i + 1).drop_last() =~= workspaces@.take(i as int));
        if w.is_focused || w.active_window_id.is_some() || w.name.is_some() {
            r.push(w.duplicate());
        }
        i = i + 1;
    }
    assert(workspaces@.take(workspaces@.len() as int) =~= workspaces@);
    r
}

/// Position of the first focused workspace of `v`, -1 when there is none.
fn first_focused_position(v: &Vec<WorkspaceInfo>) -> (r: i32)
    ensures
        r == first_focused(v@) as i32,
{
    let mut i: usize = 0;
    assert(v@.skip(0) =~= v@);
    while i < v.len()
        invariant
            i <= v@.len(),
            first_focused(v@) == (if first_focused(v@.skip(i as int)) < 0 { -1 } else { first_focused(v@.skip(i as int)) + i }),
        decreases v@.len() - i,
    {
        assert(v@.skip(i as int).drop_first() =~= v@.skip(i + 1));
        assert(v@.skip(i as int)[0] == v@[i as int]);
        if v[i].is_focused {
            return i as i32;
        }
        i = i + 1;
    }
    -1
}

/// Position of the first active workspace of `v`, -1 when there is none.
fn first_active_position(v: &Vec<WorkspaceInfo>) -> (r: i32)
    ensures
        r == first_active(v@) as i32,
{
    let mut i: usize = 0;
    assert(v@.skip(0) =~= v@);
    while i < v.len()
        invariant
            i <= v@.len(),
            first_active(v@) == (if first_active(v@.skip(i as int)) < 0 { -1 } else { first_active(v@.skip(i as int)) + i }),
        decreases v@.len() - i,
    {
        assert(v@.skip(i as int).drop_first() =~= v@.skip(i + 1));
        assert(v@.skip(i as int)[0] == v@[i as int]);
        if v[i].is_active {
            return i as i32;
        }
        i = i + 1;
    }
    -1
}

/// What an indicator shows of the ordered workspaces `wps_for_output` of
/// its output, hiding empty workspaces unless `preserve_empty` holds.
pub fn get_workspace_data_from_slice(wps_for_output: &Vec<WorkspaceInfo>, preserve_empty: bool) -> (r: WorkspaceData)
    ensures
        r == workspace_data_of(wps_for_output@, preserve_empty),
{
    let filtered;
    let v = if preserve_empty {
        wps_for_output
    } else {
        filtered = filter_empty_workspace(wps_for_output);
        &filtered
    };
    let focus = first_focused_position(v);
    let active = first_active_position(v);
    WorkspaceData { workspace_count: v.len() as i32, focus, active }
}

/// What an indicator shows of the output named `output`.
pub fn get_workspace_data(cache: &DataCache, output: &String, preserve_empty: bool) -> (r: WorkspaceData)
    ensures
        r == workspace_data_of(output_workspaces(cache.workspaces.view(), output@), preserve_empty),
{
    let idx = output_workspace_indices(&cache.workspaces, output);
    let wps = collect_workspaces(&cache.workspaces, &idx);
    get_workspace_data_from_slice(&wps, preserve_empty)
}

/// The workspace at position `index` of those an indicator of output
/// `output` lists, if there is one.
pub fn get_workspace_by_index<'a>(cache: &'a DataCache, output: &String, preserve_empty: bool, index: usize) -> (r: Option<&'a WorkspaceInfo>)
    ensures
        ({
            let v = shown(output_workspaces(cache.workspaces.view(), output@), preserve_empty);
            if index < v.len() {
                r == Some(&v[index as int])
            } else {
                r is None
            }
        }),
{
    let idx = output_workspace_indices(&cache.workspaces, output);
    let ghost items = cache.workspaces.items();
    let mut k: usize = 0;
    let mut count: usize = 0;
    while k < idx.len()
        invariant
            k <= idx@.len(),
            items == cache.workspaces.items(),
            pick(items, idx@) == output_workspaces(cache.workspaces.view(), output@),
            forall|a: int| 0 <= a < idx@.len() ==> #[trigger] idx@[a] < items.len(),
            count == shown(pick(items, idx@).take(k as int), preserve_empty).len(),
            count <= k,
            count <= index,
        decreases idx@.len() - k,
    {
        let w = cache.workspaces.at(idx[k]);
        let ghost s = pick(items, idx@);
        assert(s.take(k + 1).drop_last() =~= s.take(k as int));
        if preserve_empty || w.is_focused || w.active_window_id.is_some() || w.name.is_some() {
            if count == index {
                proof {
                    lemma_shown_at(s, k as int, preserve_empty);
                    assert(s[k as int] == items[idx@[k as int] as int]);
                    let v = shown(output_workspaces(cache.workspaces.view(), output@), preserve_empty);
                    assert(v == shown(s, preserve_empty));
                    assert(index < v.len());
                    assert(v[index as int] == *w);
                }
                return Some(w);
            }
            count = count + 1;
        }
        k = k + 1;
    }
    proof {
        let s = pick(items, idx@);
        assert(s.take(idx@.len() as int) =~= s);
        assert(count == shown(s, preserve_empty).len());
        let v = shown(output_workspaces(cache.workspaces.view(), output@), preserve_empty);
        assert(v == shown(s, preserve_empty));
    }
    None
}

/// The element shown last among the first `k + 1` is the element at `k`.
proof fn lemma_shown_at(s: Seq<WorkspaceInfo>, k: int, preserve_empty: bool)
    requires
        0 <= k < s.len(),
        preserve_empty || is_kept(s[k]),
    ensures
        ({
            let n = shown(s.take(k), preserve_empty).len();
            n < shown(s, preserve_empty).len() && shown(s, preserve_empty)[n as int] == s[k]
        }),
{
    lemma_shown_prefix(s, k + 1, preserve_empty);
    let t = s.take(k + 1);
    assert(t.drop_last() =~= s.take(k));
    assert(t.last() == s[k]);
    let a = shown(s.take(k), preserve_empty);
    let b = shown(t, preserve_empty);
    if preserve_empty {
        assert(a.len() == k);
        assert(b[k] == s[k]);
    } else {
        assert(b == a.push(s[k]));
    }
    assert(b[a.len() as int] == s[k]);
    let full = shown(s, preserve_empty);
    assert(full.take(b.len() as int)[a.len() as int] == full[a.len() as int]);
}

/// The shown elements of a prefix are a prefix of the shown elements.
proof fn lemma_shown_prefix(s: Seq<WorkspaceInfo>, k: int, preserve_empty: bool)
    requires
        0 <= k <= s.len(),
    ensures
        shown(s.take(k), preserve_empty).len() <= shown(s, preserve_empty).len(),
        shown(s.take(k), preserve_empty) == shown(s, preserve_empty).take(shown(s.take(k), preserve_empty).len() as int),
    decreases s.len() - k,
{
    if k == s.len() {
        assert(s.take(k) =~= s);
        let t = shown(s, preserve_empty);
        assert(t.take(t.len() as int) =~= t);
    } else {
        lemma_shown_prefix(s, k + 1, preserve_empty);
        let a = shown(s.take(k), preserve_empty);
        let b = shown(s.take(k + 1), preserve_empty);
        assert(s.take(k + 1).drop_last() =~= s.take(k));
        let t = shown(s, preserve_empty);
        if preserve_empty {
            assert(t.take(k as int) =~= s.take(k));
        } else if is_kept(s[k]) {
            assert(b == a.push(s[k]));
            assert(t.take(a.len() as int) =~= b.take(a.len() as int));
            assert(b.take(a.len() as int) =~= a);
        } else {
            assert(b == a);
        }
    }
}

} // verus!

verus! {

/// A workspace indicator: the channel to its frontend, the output it shows,
/// its settings, whether it shows only while its output is focused, and the
/// last data it was sent.
pub struct WorkspaceCB<T> {
    pub sender: calloop::channel::Sender<WorkspaceData>,
    pub output: String,
    pub data: T,
    pub focused_only: bool,
    /// The last data this indicator was sent.
    pub last_data: Option<WorkspaceData>,
}

impl<T> WorkspaceCB<T> {
    /// An indicator that has not been sent anything yet.
    pub fn new(sender: calloop::channel::Sender<WorkspaceData>, output: String, data: T, focused_only: bool) -> (r: Self)
        ensures
            r.sender == sender,
            r.output == output,
            r.data == data,
            r.focused_only == focused_only,
            r.last_data is None,
    {
        WorkspaceCB { sender, output, data, focused_only, last_data: None }
    }
}

/// `a` and `b` are the same indicator, whatever they were sent last.
pub open spec fn same_workspace_cb<T>(a: WorkspaceCB<T>, b: WorkspaceCB<T>) -> bool {
    &&& a.sender == b.sender
    &&& a.output == b.output
    &&& a.data == b.data
    &&& a.focused_only == b.focused_only
}

/// The data an indicator may be sent: it has an active position from -1,
/// and a focused workspace is the active one.
pub open spec fn workspace_data_sound(d: WorkspaceData) -> bool {
    d.active >= -1 && (d.focus < 0 || d.focus == d.active)
}

/// The value of the first entry of `s` with id `id`.
pub open spec fn find_id<T>(s: Seq<(ID, T)>, id: ID) -> Option<T>
    decreases s.len(),
{
    if s.len() == 0 {
        None
    } else if s[0].0 == id {
        Some(s[0].1)
    } else {
        find_id(s.drop_first(), id)
    }
}

/// The message an indicator last sent `last` gets for its data `d`: the
/// data, unless there is none or it is the same as last sent.
pub open spec fn indicator_message(last: Option<WorkspaceData>, d: Option<WorkspaceData>) -> Option<WorkspaceData> {
    if (d matches Some(x) && last != Some(x)) {
        d
    } else {
        None
    }
}

/// `post` is the indicators `pre` after each was offered its data
/// `data[i]`, if any: `msgs[i]` is the message to send to indicator `i`,
/// its data when it differs from the last data sent, none otherwise; data
/// to send becomes the last one.
pub open spec fn indicators_called<T>(pre: Seq<(ID, WorkspaceCB<T>)>, post: Seq<(ID, WorkspaceCB<T>)>, data: Seq<Option<WorkspaceData>>, msgs: Seq<Option<WorkspaceData>>) -> bool {
    &&& post.len() == pre.len()
    &&& data.len() == pre.len()
    &&& msgs.len() == pre.len()
    &&& forall|i: int| 0 <= i < pre.len() ==> {
        let e0 = #[trigger] pre[i];
        let e1 = post[i];
        &&& e1.0 == e0.0
        &&& same_workspace_cb(e1.1, e0.1)
        &&& msgs[i] == indicator_message(e0.1.last_data, data[i])
        &&& e1.1.last_data == if msgs[i] is Some { msgs[i] } else { e0.1.last_data }
    }
}

/// The registered workspace indicators, in registration order.
pub struct WorkspaceCtx<T> {
    id_cache: ID,
    cb: Vec<(ID, WorkspaceCB<T>)>,
}

impl<T> WorkspaceCtx<T> {
    #[verifier::type_invariant]
    spec fn ordered(self) -> bool {
        ids_ordered(self.cb@, self.id_cache)
    }

    /// The indicators with their ids, in registration order.
    pub closed spec fn entries(self) -> Seq<(ID, WorkspaceCB<T>)> {
        self.cb@
    }

    /// The id the next registered indicator receives.
    pub closed spec fn next_id(self) -> ID {
        self.id_cache
    }

    /// No indicator registered; the first one receives id 0.
    pub fn new() -> (r: Self)
        ensures
            r.entries().len() == 0,
            r.next_id() == 0,
    {
        WorkspaceCtx { id_cache: 0, cb: Vec::new() }
    }

    /// Registers `cb` under the next id and returns that id.
    pub fn add_cb(&mut self, cb: WorkspaceCB<T>) -> (id: ID)
        requires
            old(self).next_id() < u32::MAX,
        ensures
            id == old(self).next_id(),
            final(self).next_id() == id + 1,
            final(self).entries() == old(self).entries().push((id, cb)),
    {
        proof {
            use_type_invariant(&*self);
        }
        let id = self.id_cache;
        let mut cbs = Vec::new();
        std::mem::swap(&mut cbs, &mut self.cb);
        let ghost before = cbs@;
        cbs.push((id, cb));
        let next = id + 1;
        proof {
            assert forall|i: int, j: int| 0 <= i < j < cbs@.len() implies (#[trigger] cbs@[i]).0 < (#[trigger] cbs@[j]).0 by {
                if j == before.len() {
                    assert(before[i].0 < id);
                }
            }
        }
        *self = WorkspaceCtx { id_cache: next, cb: cbs };
        id
    }

    /// Unregisters the indicator with id `id`, if there is one.
    pub fn remove_cb(&mut self, id: ID)
        ensures
            final(self).next_id() == old(self).next_id(),
            final(self).entries() == without_id(old(self).entries(), id),
    {
        proof {
            use_type_invariant(&*self);
        }
        let mut rest = Vec::new();
        std::mem::swap(&mut rest, &mut self.cb);
        let ghost before = rest@;
        let mut kept: Vec<(ID, WorkspaceCB<T>)> = Vec::new();
        let mut i: usize = 0;
        let n = rest.len();
        assert(rest@ =~= before.skip(0));
        while i < n
            invariant
                n == before.len(),
                i <= n,
                rest@ == before.skip(i as int),
                kept@ == without_id(before.take(i as int), id),
            decreases n - i,
        {
            let e = rest.remove(0);
            assert(before.take(i + 1).drop_last() =~= before.take(i as int));
            assert(e == before[i as int]);
            if e.0 != id {
                kept.push(e);
            }
            i = i + 1;
            assert(rest@ =~= before.skip(i as int));
        }
        assert(before.take(n as int) =~= before);
        proof {
            lemma_without_id_ordered(before, id, self.id_cache);
        }
        self.cb = kept;
    }

    /// Whether another indicator can be registered: ids are not used up.
    pub fn has_free_id(&self) -> (r: bool)
        ensures
            r == (self.next_id() < u32::MAX),
    {
        self.id_cache < u32::MAX
    }

    /// Number of registered indicators.
    pub fn len(&self) -> (n: usize)
        ensures
            n == self.entries().len(),
    {
        self.cb.len()
    }

    /// The indicator at position `i` of the registration order.
    pub fn entry(&self, i: usize) -> (r: &WorkspaceCB<T>)
        requires
            i < self.entries().len(),
        ensures
            *r == self.entries()[i as int].1,
    {
        &self.cb[i].1
    }

    /// The indicator registered under `id`, if any.
    pub fn get(&self, id: ID) -> (r: Option<&WorkspaceCB<T>>)
        ensures
            r is None <==> find_id(self.entries(), id) is None,
            r matches Some(cb) ==> find_id(self.entries(), id) == Some(*cb),
    {
        let mut i: usize = 0;
        assert(self.cb@.skip(0) =~= self.cb@);
        while i < self.cb.len()
            invariant
                i <= self.cb@.len(),
                find_id(self.cb@, id) == find_id(self.cb@.skip(i as int), id),
            decreases self.cb@.len() - i,
        {
            assert(self.cb@.skip(i as int).drop_first() =~= self.cb@.skip(i + 1));
            if self.cb[i].0 == id {
                return Some(&self.cb[i].1);
            }
            i = i + 1;
        }
        None
    }

    /// Decides, for each indicator, whether its data `data[i]`, if there is
    /// any, is to be sent: unless the indicator was last sent the same data.
    /// Remembers what is to be sent and returns, for each indicator in
    /// registration order, the message to send on its channel, if any.
    pub fn call(&mut self, data: Vec<Option<WorkspaceData>>) -> (msgs: Vec<Option<WorkspaceData>>)
        requires
            data@.len() == old(self).entries().len(),
            forall|i: int| 0 <= i < data@.len() ==> (#[trigger] data@[i] matches Some(d) ==> workspace_data_sound(d)),
        ensures
            final(self).next_id() == old(self).next_id(),
            indicators_called(old(self).entries(), final(self).entries(), data@, msgs@),
    {
        proof {
            use_type_invariant(&*self);
        }
        let ghost before = self.cb@;
        let mut msgs: Vec<Option<WorkspaceData>> = Vec::new();
        let mut i: usize = 0;
        while i < data.len()
            invariant
                data@.len() == before.len(),
                self.cb@.len() == before.len(),
                ids_ordered(before, self.id_cache),
                self.id_cache == old(self).id_cache,
                before == old(self).cb@,
                i <= before.len(),
                msgs@.len() == i,
                forall|j: int| i <= j < before.len() ==> #[trigger] self.cb@[j] == before[j],
                forall|j: int| 0 <= j < i ==> {
                    let e0 = #[trigger] before[j];
                    let e1 = self.cb@[j];
                    &&& e1.0 == e0.0
                    &&& same_workspace_cb(e1.1, e0.1)
                    &&& msgs@[j] == indicator_message(e0.1.last_data, data@[j])
                    &&& e1.1.last_data == if msgs@[j] is Some { msgs@[j] } else { e0.1.last_data }
                },
            decreases before.len() - i,
        {
            let mut dirty = false;
            if let Some(d) = data[i] {
                if self.cb[i].1.last_data != Some(d) {
                    dirty = true;
                    let mut cbs = Vec::new();
                    std::mem::swap(&mut cbs, &mut self.cb);
                    let ghost cur = cbs@;
                    let (eid, mut entry) = cbs.remove(i);
                    entry.last_data = Some(d);
                    cbs.insert(i, (eid, entry));
                    proof {
                        assert(cbs@ =~= cur.update(i as int, (eid, entry)));
                        assert forall|a: int| 0 <= a < cur.len() implies (#[trigger] cur[a]).0 == before[a].0 by {
                            if a < i {
                                assert(cur[a].0 == before[a].0);
                            } else {
                                assert(cur[a] == before[a]);
                            }
                        }
                        assert forall|a: int, b: int| 0 <= a < b < cbs@.len() implies (#[trigger] cbs@[a]).0 < (#[trigger] cbs@[b]).0 by {
                            assert(cbs@[a].0 == cur[a].0 && cbs@[b].0 == cur[b].0);
                            assert(before[a].0 < before[b].0);
                        }
                        assert forall|a: int| 0 <= a < cbs@.len() implies (#[trigger] cbs@[a]).0 < self.id_cache by {
                            assert(cbs@[a].0 == cur[a].0);
                            assert(before[a].0 < self.id_cache);
                        }
                    }
                    self.cb = cbs;
                }
            }
            if dirty {
                msgs.push(data[i]);
            } else {
                msgs.push(None);
            }
            i = i + 1;
        }
        msgs
    }
}

} // verus!
