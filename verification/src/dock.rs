//! The data the dock shows for one output, the registry of dock widgets
//! with its duplicate suppression, and the dock's window actions.
use vstd::prelude::*;

use calloop::channel::Sender;

use crate::idvec::{IdVec, Keyed};
use crate::model::{Duplicate, clone_opt_str, opt_str_eq, ostr};

verus! {

/// The sending end of a calloop channel, through which a widget's event
/// loop receives its data; opaque here.
#[verifier::external_type_specification]
#[verifier::external_body]
#[verifier::reject_recursive_types(T)]
pub struct ExSender<T>(Sender<T>);

/// A window as the dock shows it.
#[derive(Debug)]
pub struct DockWindowData {
    pub id: u64,
    pub workspace_id: Option<u64>,
    pub app_id: Option<String>,
    pub title: Option<String>,
    pub is_focused: bool,
    pub is_floating: bool,
    pub is_urgent: bool,
}

/// A workspace as the dock shows it.
#[derive(Debug)]
pub struct DockWorkspaceData {
    pub id: u64,
    pub idx: u64,
    pub name: Option<String>,
    pub output: Option<String>,
    pub is_active: bool,
    pub is_focused: bool,
}

impl Keyed for DockWorkspaceData {
    open spec fn key(&self) -> u64 {
        self.id
    }

    fn get_key(&self) -> (k: u64) {
        self.id
    }
}

impl Duplicate for DockWindowData {
    fn duplicate(&self) -> (r: Self) {
        DockWindowData {
            id: self.id,
            workspace_id: self.workspace_id,
            app_id: clone_opt_str(&self.app_id),
            title: clone_opt_str(&self.title),
            is_focused: self.is_focused,
            is_floating: self.is_floating,
            is_urgent: self.is_urgent,
        }
    }
}

impl Duplicate for DockWorkspaceData {
    fn duplicate(&self) -> (r: Self) {
        DockWorkspaceData {
            id: self.id,
            idx: self.idx,
            name: clone_opt_str(&self.name),
            output: clone_opt_str(&self.output),
            is_active: self.is_active,
            is_focused: self.is_focused,
        }
    }
}

/// Two dock windows hold the same values.
pub open spec fn same_window(a: DockWindowData, b: DockWindowData) -> bool {
    &&& a.id == b.id
    &&& a.workspace_id == b.workspace_id
    &&& ostr(a.app_id) == ostr(b.app_id)
    &&& ostr(a.title) == ostr(b.title)
    &&& a.is_focused == b.is_focused
    &&& a.is_floating == b.is_floating
    &&& a.is_urgent == b.is_urgent
}

/// Two dock workspaces hold the same values.
pub open spec fn same_workspace(a: DockWorkspaceData, b: DockWorkspaceData) -> bool {
    &&& a.id == b.id
    &&& a.idx == b.idx
    &&& ostr(a.name) == ostr(b.name)
    &&& ostr(a.output) == ostr(b.output)
    &&& a.is_active == b.is_active
    &&& a.is_focused == b.is_focused
}

/// The windows and workspaces the dock shows for one output: the windows in
/// display order, the workspaces under their ids.
#[derive(Debug)]
pub struct DockData {
    pub windows: Vec<DockWindowData>,
    pub workspaces: IdVec<DockWorkspaceData>,
}

/// Windows in display order and workspaces under their ids: what a dock payload holds.
pub type DockView = (Seq<DockWindowData>, Map<u64, DockWorkspaceData>);

/// Two dock payloads hold the same values: the same windows in the same
/// order, and the same workspaces under the same ids.
pub open spec fn same_dock_view(a: DockView, b: DockView) -> bool {
    &&& a.0.len() == b.0.len()
    &&& forall|i: int| 0 <= i < a.0.len() ==> same_window(#[trigger] a.0[i], b.0[i])
    &&& forall|k: u64| #[trigger] a.1.contains_key(k) <==> b.1.contains_key(k)
    &&& forall|k: u64| #[trigger] a.1.contains_key(k) ==> same_workspace(a.1[k], b.1[k])
}

/// Two dock payloads hold the same values.
pub open spec fn same_dock_data(a: DockData, b: DockData) -> bool {
    same_dock_view(a.view(), b.view())
}

fn window_eq(a: &DockWindowData, b: &DockWindowData) -> (r: bool)
    ensures
        r == same_window(*a, *b),
{
    a.id == b.id && a.workspace_id == b.workspace_id && opt_str_eq(&a.app_id, &b.app_id) && opt_str_eq(&a.title, &b.title)
        && a.is_focused == b.is_focused && a.is_floating == b.is_floating && a.is_urgent == b.is_urgent
}

fn workspace_eq(a: &DockWorkspaceData, b: &DockWorkspaceData) -> (r: bool)
    ensures
        r == same_workspace(*a, *b),
{
    a.id == b.id && a.idx == b.idx && opt_str_eq(&a.name, &b.name) && opt_str_eq(&a.output, &b.output)
        && a.is_active == b.is_active && a.is_focused == b.is_focused
}

/// Every workspace of `a` is in `b` with the same values.
fn workspaces_included(a: &IdVec<DockWorkspaceData>, b: &IdVec<DockWorkspaceData>) -> (r: bool)
    ensures
        r == forall|k: u64| #[trigger] a.view().contains_key(k) ==> b.view().contains_key(k) && same_workspace(a.view()[k], b.view()[k]),
{
    let n = a.len();
    let mut i: usize = 0;
    while i < n
        invariant
            n == a.items().len(),
            crate::idvec::keys_unique(a.items()),
            i <= n,
            forall|j: int| 0 <= j < i ==> b.view().contains_key(#[trigger] a.items()[j].key()) && same_workspace(a.items()[j], b.view()[a.items()[j].key()]),
        decreases n - i,
    {
        let w = a.at(i);
        proof {
            crate::idvec::lemma_seq_map_at(a.items(), i as int);
        }
        match b.get(w.id) {
            Some(x) => {
                if !workspace_eq(w, x) {
                    assert(a.view().contains_key(w.id));
                    return false;
                }
            },
            None => {
                assert(a.view().contains_key(w.id));
                return false;
            },
        }
        i = i + 1;
    }
    proof {
        assert forall|k: u64| #[trigger] a.view().contains_key(k) implies b.view().contains_key(k) && same_workspace(a.view()[k], b.view()[k]) by {
            assert(crate::idvec::has_key(a.items(), k));
            let j = choose|j: int| 0 <= j < a.items().len() && #[trigger] a.items()[j].key() == k;
            crate::idvec::lemma_seq_map_at(a.items(), j);
        }
    }
    true
}

impl Default for DockData {
    /// No windows and no workspaces.
    fn default() -> (r: Self)
        ensures
            r.view() == DockData::empty_view(),
    {
        let r = DockData { windows: Vec::new(), workspaces: IdVec::new() };
        assert(r.view().0 =~= Seq::<DockWindowData>::empty());
        r
    }
}

impl DockData {
    /// The windows in order and the workspaces under their ids.
    pub open spec fn view(self) -> DockView {
        (self.windows@, self.workspaces.view())
    }

    /// No windows and no workspaces.
    pub open spec fn empty_view() -> DockView {
        (Seq::empty(), Map::empty())
    }

    /// Whether `self` and `other` hold the same values.
    pub fn same_as(&self, other: &DockData) -> (r: bool)
        ensures
            r == same_dock_data(*self, *other),
    {
        if self.windows.len() != other.windows.len() {
            return false;
        }
        let mut i: usize = 0;
        while i < self.windows.len()
            invariant
                i <= self.windows@.len(),
                self.windows@.len() == other.windows@.len(),
                forall|j: int| 0 <= j < i ==> same_window(#[trigger] self.windows@[j], other.windows@[j]),
            decreases self.windows@.len() - i,
        {
            if !window_eq(&self.windows[i], &other.windows[i]) {
                return false;
            }
            i = i + 1;
        }
        let ab = workspaces_included(&self.workspaces, &other.workspaces);
        let ba = workspaces_included(&other.workspaces, &self.workspaces);
        proof {
            let x = self.view();
            let y = other.view();
            assert(x.0 == self.windows@ && y.0 == other.windows@);
            assert(x.1 == self.workspaces.view() && y.1 == other.workspaces.view());
            assert(forall|j: int| 0 <= j < x.0.len() ==> same_window(#[trigger] x.0[j], y.0[j]));
            if ab && ba {
                assert forall|k: u64| #[trigger] x.1.contains_key(k) <==> y.1.contains_key(k) by {
                    if y.1.contains_key(k) {
                        assert(x.1.contains_key(k));
                    }
                }
                assert forall|k: u64| #[trigger] x.1.contains_key(k) implies same_workspace(x.1[k], y.1[k]) by {
                }
                assert(same_dock_view(x, y));
            }
            if same_dock_view(x, y) {
                assert forall|k: u64| #[trigger] y.1.contains_key(k) implies x.1.contains_key(k)
                    && same_workspace(y.1[k], x.1[k]) by {
                    assert(x.1.contains_key(k));
                }
                assert(ab);
                assert(ba);
            }
        }
        ab && ba
    }
}

impl DockData {
    /// A copy of this payload.
    pub fn duplicate(&self) -> (r: Self)
        ensures
            r.view() == self.view(),
    {
        let mut windows: Vec<DockWindowData> = Vec::new();
        let mut i: usize = 0;
        while i < self.windows.len()
            invariant
                i <= self.windows@.len(),
                windows@ == self.windows@.take(i as int),
            decreases self.windows@.len() - i,
        {
            windows.push(self.windows[i].duplicate());
            i = i + 1;
            assert(windows@ =~= self.windows@.take(i as int));
        }
        assert(windows@ =~= self.windows@);
        let workspaces = self.workspaces.duplicate();
        DockData { windows, workspaces }
    }
}

} // verus!

verus! {

/// Identifier of a registered widget callback.
pub type ID = u32;

/// Ids of `s` strictly increase and stay below `next`.
pub open spec fn ids_ordered<T>(s: Seq<(ID, T)>, next: ID) -> bool {
    &&& forall|i: int, j: int| 0 <= i < j < s.len() ==> (#[trigger] s[i]).0 < (#[trigger] s[j]).0
    &&& forall|i: int| 0 <= i < s.len() ==> (#[trigger] s[i]).0 < next
}

/// `s` without the entries whose id is `id`.
pub open spec fn without_id<T>(s: Seq<(ID, T)>, id: ID) -> Seq<(ID, T)>
    decreases s.len(),
{
    if s.len() == 0 {
        s
    } else if s.last().0 == id {
        without_id(s.drop_last(), id)
    } else {
        without_id(s.drop_last(), id).push(s.last())
    }
}

pub proof fn lemma_without_id_ordered<T>(s: Seq<(ID, T)>, id: ID, next: ID)
    requires
        ids_ordered(s, next),
    ensures
        ids_ordered(without_id(s, id), next),
        forall|i: int| 0 <= i < without_id(s, id).len() ==> s.contains(#[trigger] without_id(s, id)[i]),
        without_id(s, id).len() <= s.len(),
    decreases s.len(),
{
    if s.len() > 0 {
        let t = s.drop_last();
        assert(ids_ordered(t, next));
        lemma_without_id_ordered(t, id, next);
        let w = without_id(t, id);
        assert forall|i: int| 0 <= i < w.len() implies s.contains(#[trigger] w[i]) by {
            assert(t.contains(w[i]));
            let j = choose|j: int| 0 <= j < t.len() && t[j] == w[i];
            assert(s[j] == w[i]);
        }
        if s.last().0 != id {
            let r = w.push(s.last());
            assert forall|i: int, j: int| 0 <= i < j < r.len() implies (#[trigger] r[i]).0 < (#[trigger] r[j]).0 by {
                if j == w.len() {
                    assert(t.contains(w[i]));
                    let a = choose|a: int| 0 <= a < t.len() && t[a] == w[i];
                    assert(s[a].0 < s[s.len() - 1].0);
                }
            }
            assert forall|i: int| 0 <= i < r.len() implies s.contains(#[trigger] r[i]) by {
                if i == w.len() {
                    assert(s[s.len() - 1] == r[i]);
                }
            }
        }
    }
}

/// A dock widget: the channel to its frontend, the output it shows, the
/// icon settings it uses and the last payload it was sent.
pub struct DockCB {
    pub sender: Sender<DockData>,
    pub output: String,
    pub icon_size: u32,
    pub icon_theme: Option<String>,
    pub icon_fallback: Option<String>,
    /// The last payload this widget was sent.
    pub last_data: Option<DockData>,
}

impl DockCB {
    /// A dock widget that has not been sent anything yet.
    pub fn new(
        sender: Sender<DockData>,
        output: String,
        icon_size: u32,
        icon_theme: Option<String>,
        icon_fallback: Option<String>,
    ) -> (r: Self)
        ensures
            r.sender == sender,
            r.output == output,
            r.icon_size == icon_size,
            r.icon_theme == icon_theme,
            r.icon_fallback == icon_fallback,
            r.last_data is None,
    {
        DockCB { sender, output, icon_size, icon_theme, icon_fallback, last_data: None }
    }
}

/// `a` and `b` are the same widget, whatever they were sent last.
pub open spec fn same_dock_cb(a: DockCB, b: DockCB) -> bool {
    &&& a.sender == b.sender
    &&& a.output == b.output
    &&& a.icon_size == b.icon_size
    &&& a.icon_theme == b.icon_theme
    &&& a.icon_fallback == b.icon_fallback
}

/// Whether payload `d` is sent to a widget last sent `last`: when `force`
/// holds or when it differs from `last`.
pub open spec fn dock_dirty(last: Option<DockData>, d: DockView, force: bool) -> bool {
    force || !(last matches Some(l) && same_dock_view(l.view(), d))
}

/// The payloads `d` by their views, with their force flags.
pub open spec fn payload_views(d: Seq<(DockData, bool)>) -> Seq<(DockView, bool)> {
    d.map_values(|x: (DockData, bool)| (x.0.view(), x.1))
}

/// The messages `m` by their views.
pub open spec fn message_views(m: Seq<Option<DockData>>) -> Seq<Option<DockView>> {
    m.map_values(|x: Option<DockData>| match x {
        Some(d) => Some(d.view()),
        None => None,
    })
}

/// `post` is the docks `pre` after each was offered payload `data[i].0`
/// with force flag `data[i].1`: `msgs[i]` is the message to send to dock
/// `i`, the payload when it is forced or differs from the last payload
/// sent, none otherwise; a payload to send becomes the last one.
pub open spec fn docks_called(pre: Seq<(ID, DockCB)>, post: Seq<(ID, DockCB)>, data: Seq<(DockView, bool)>, msgs: Seq<Option<DockView>>) -> bool {
    &&& post.len() == pre.len()
    &&& data.len() == pre.len()
    &&& msgs.len() == pre.len()
    &&& forall|i: int| 0 <= i < pre.len() ==> {
        let e0 = #[trigger] pre[i];
        let e1 = post[i];
        &&& e1.0 == e0.0
        &&& same_dock_cb(e1.1, e0.1)
        &&& msgs[i] == if dock_dirty(e0.1.last_data, data[i].0, data[i].1) { Some(data[i].0) } else { None }
        &&& if msgs[i] is Some {
            e1.1.last_data matches Some(l) && l.view() == data[i].0
        } else {
            e1.1.last_data == e0.1.last_data
        }
    }
}

/// The registered dock widgets, in registration order.
pub struct DockRegistry {
    id_cache: ID,
    cb: Vec<(ID, DockCB)>,
}

impl DockRegistry {
    #[verifier::type_invariant]
    spec fn ordered(self) -> bool {
        ids_ordered(self.cb@, self.id_cache)
    }

    /// The widgets with their ids, in registration order.
    pub closed spec fn entries(self) -> Seq<(ID, DockCB)> {
        self.cb@
    }

    /// The id the next registered widget receives.
    pub closed spec fn next_id(self) -> ID {
        self.id_cache
    }

    /// No widget registered; the first one receives id 0.
    pub fn new() -> (r: Self)
        ensures
            r.entries().len() == 0,
            r.next_id() == 0,
    {
        DockRegistry { id_cache: 0, cb: Vec::new() }
    }

    /// Registers `cb` under the next id and returns that id.
    pub fn add_cb(&mut self, cb: DockCB) -> (id: ID)
        requires
            old(self).next_id() < u32::MAX,
        ensures
            id == old(self).next_id(),
            final(self).next_id() == id + 1,
            final(self).entries() == old(self).entries().push((id, cb)),
    {
        proof {
            use_type_invariant(&*self);
        }
        let id = self.id_cache;
        let mut cbs = Vec::new();
        std::mem::swap(&mut cbs, &mut self.cb);
        let ghost before = cbs@;
        cbs.push((id, cb));
        let next = id + 1;
        proof {
            assert forall|i: int, j: int| 0 <= i < j < cbs@.len() implies (#[trigger] cbs@[i]).0 < (#[trigger] cbs@[j]).0 by {
                if j == before.len() {
                    assert(before[i].0 < id);
                }
            }
        }
        *self = DockRegistry { id_cache: next, cb: cbs };
        id
    }

    /// Unregisters the widget with id `id`, if there is one.
    pub fn remove_cb(&mut self, id: ID)
        ensures
            final(self).next_id() == old(self).next_id(),
            final(self).entries() == without_id(old(self).entries(), id),
    {
        proof {
            use_type_invariant(&*self);
        }
        let mut old_cb = Vec::new();
        std::mem::swap(&mut old_cb, &mut self.cb);
        let ghost before = old_cb@;
        let mut kept: Vec<(ID, DockCB)> = Vec::new();
        let mut rest = old_cb;
        let mut i: usize = 0;
        let n = rest.len();
        assert(rest@ =~= before.skip(0));
        while i < n
            invariant
                n == before.len(),
                i <= n,
                rest@ == before.skip(i as int),
                kept@ == without_id(before.take(i as int), id),
            decreases n - i,
        {
            let e = rest.remove(0);
            assert(before.take(i + 1).drop_last() =~= before.take(i as int));
            assert(e == before[i as int]);
            if e.0 != id {
                kept.push(e);
            }
            i = i + 1;
            assert(rest@ =~= before.skip(i as int));
        }
        assert(before.take(n as int) =~= before);
        proof {
            lemma_without_id_ordered(before, id, self.id_cache);
        }
        self.cb = kept;
    }

    /// Whether another widget can be registered: ids are not used up.
    pub fn has_free_id(&self) -> (r: bool)
        ensures
            r == (self.next_id() < u32::MAX),
    {
        self.id_cache < u32::MAX
    }

    /// Whether no widget is registered.
    pub fn is_empty(&self) -> (r: bool)
        ensures
            r == (self.entries().len() == 0),
    {
        self.cb.len() == 0
    }

    /// Number of registered widgets.
    pub fn len(&self) -> (n: usize)
        ensures
            n == self.entries().len(),
    {
        self.cb.len()
    }

    /// The widget at position `i` of the registration order.
    pub fn entry(&self, i: usize) -> (r: &DockCB)
        requires
            i < self.entries().len(),
        ensures
            *r == self.entries()[i as int].1,
    {
        &self.cb[i].1
    }

    /// Decides, for each widget, whether its payload `data[i]` (with its
    /// `force` flag) is to be sent: unless the widget was last sent the same
    /// values and `force` is off. Remembers what is to be sent and returns,
    /// for each widget in registration order, the message to send on its
    /// channel, if any.
    pub fn call(&mut self, data: Vec<(DockData, bool)>) -> (msgs: Vec<Option<DockData>>)
        requires
            data@.len() == old(self).entries().len(),
        ensures
            final(self).next_id() == old(self).next_id(),
            docks_called(old(self).entries(), final(self).entries(), payload_views(data@), message_views(msgs@)),
    {
        proof {
            use_type_invariant(&*self);
        }
        let ghost before = self.cb@;
        let mut msgs: Vec<Option<DockData>> = Vec::new();
        let mut i: usize = 0;
        while i < data.len()
            invariant
                data@.len() == before.len(),
                self.cb@.len() == before.len(),
                ids_ordered(before, self.id_cache),
                self.id_cache == old(self).id_cache,
                before == old(self).cb@,
                i <= before.len(),
                msgs@.len() == i,
                forall|j: int| i <= j < before.len() ==> #[trigger] self.cb@[j] == before[j],
                forall|j: int| 0 <= j < i ==> {
                    let e0 = #[trigger] before[j];
                    let e1 = self.cb@[j];
                    &&& e1.0 == e0.0
                    &&& same_dock_cb(e1.1, e0.1)
                    &&& message_views(msgs@)[j] == if dock_dirty(e0.1.last_data, data@[j].0.view(), data@[j].1) { Some(data@[j].0.view()) } else { None }
                    &&& if dock_dirty(e0.1.last_data, data@[j].0.view(), data@[j].1) {
                        e1.1.last_data matches Some(l) && l.view() == data@[j].0.view()
                    } else {
                        e1.1.last_data == e0.1.last_data
                    }
                },
            decreases before.len() - i,
        {
            let (d, force) = (&data[i].0, data[i].1);
            let dirty = match &self.cb[i].1.last_data {
                Some(l) => force || !l.same_as(d),
                None => true,
            };
            if dirty {
                let mut cbs = Vec::new();
                std::mem::swap(&mut cbs, &mut self.cb);
                let ghost cur = cbs@;
                let (eid, mut entry) = cbs.remove(i);
                entry.last_data = Some(d.duplicate());
                cbs.insert(i, (eid, entry));
                proof {
                    assert(cbs@ =~= cur.update(i as int, (eid, entry)));
                    assert forall|a: int| 0 <= a < cur.len() implies (#[trigger] cur[a]).0 == before[a].0 by {
                        if a < i {
                            assert(cur[a].0 == before[a].0);
                        } else {
                            assert(cur[a] == before[a]);
                        }
                    }
                    assert forall|a: int, b: int| 0 <= a < b < cbs@.len() implies (#[trigger] cbs@[a]).0 < (#[trigger] cbs@[b]).0 by {
                        assert(cbs@[a].0 == cur[a].0 && cbs@[b].0 == cur[b].0);
                        assert(before[a].0 < before[b].0);
                    }
                    assert forall|a: int| 0 <= a < cbs@.len() implies (#[trigger] cbs@[a]).0 < self.id_cache by {
                        assert(cbs@[a].0 == cur[a].0);
                        assert(before[a].0 < self.id_cache);
                    }
                }
                self.cb = cbs;
            }
            let ghost prev = msgs@;
            if dirty {
                msgs.push(Some(data[i].0.duplicate()));
            } else {
                msgs.push(None);
            }
            proof {
                assert(msgs@.drop_last() == prev);
                assert forall|j: int| 0 <= j < i implies message_views(msgs@)[j] == message_views(prev)[j] by {
                    assert(msgs@[j] == prev[j]);
                }
            }
            i = i + 1;
        }
        proof {
            assert(payload_views(data@).len() == before.len());
        }
        msgs
    }
}

} // verus!
