//! The icon pixel cache shared by the docks, and the decisions of icon
//! loading: when a load starts, and what the cache holds after the icon and
//! its fallback image were looked for.
use vstd::prelude::*;

use crate::icons::{IconKey, IconKeyView};
use crate::model::clone_opt_str;

verus! {

/// The loading state of an icon in the cache.
#[derive(Debug)]
pub enum IconStatus {
    /// The icon is being looked for.
    Loading,
    /// The icon was found and rasterized into pre-multiplied BGRA pixels.
    Ready { pixels: Vec<u8>, width: i32, height: i32, fallback: bool },
    /// Neither the icon nor its fallback image could be found.
    NotFound,
}

/// An icon status with its pixels as a sequence.
pub enum IconStatusView {
    Loading,
    Ready { pixels: Seq<u8>, width: i32, height: i32, fallback: bool },
    NotFound,
}

impl IconStatus {
    pub open spec fn view(self) -> IconStatusView {
        match self {
            IconStatus::Loading => IconStatusView::Loading,
            IconStatus::Ready { pixels, width, height, fallback } => IconStatusView::Ready {
                pixels: pixels@,
                width,
                height,
                fallback,
            },
            IconStatus::NotFound => IconStatusView::NotFound,
        }
    }

    /// A copy of this status.
    pub fn duplicate(&self) -> (r: Self)
        ensures
            r.view() == self.view(),
    {
        match self {
            IconStatus::Loading => IconStatus::Loading,
            IconStatus::Ready { pixels, width, height, fallback } => {
                let p = pixels.clone();
                assert(p@ =~= pixels@);
                IconStatus::Ready { pixels: p, width: *width, height: *height, fallback: *fallback }
            },
            IconStatus::NotFound => IconStatus::NotFound,
        }
    }
}

/// The cache contents described by the entries `s`, later entries
/// overriding earlier ones with the same key.
pub open spec fn entries_map(s: Seq<(IconKey, IconStatus)>) -> Map<IconKeyView, IconStatusView>
    decreases s.len(),
{
    if s.len() == 0 {
        Map::empty()
    } else {
        entries_map(s.drop_last()).insert(s.last().0.view(), s.last().1.view())
    }
}

/// No two entries of `s` have the same key.
pub open spec fn keys_distinct(s: Seq<(IconKey, IconStatus)>) -> bool {
    forall|i: int, j: int| 0 <= i < j < s.len() ==> (#[trigger] s[i]).0.view() != (#[trigger] s[j]).0.view()
}

proof fn lemma_entries_map(s: Seq<(IconKey, IconStatus)>)
    requires
        keys_distinct(s),
    ensures
        forall|k: IconKeyView| #[trigger] entries_map(s).contains_key(k) <==> exists|i: int| 0 <= i < s.len() && s[i].0.view() == k,
        forall|i: int| 0 <= i < s.len() ==> #[trigger] entries_map(s)[s[i].0.view()] == s[i].1.view(),
    decreases s.len(),
{
    if s.len() > 0 {
        let t = s.drop_last();
        assert forall|i: int, j: int| 0 <= i < j < t.len() implies (#[trigger] t[i]).0.view() != (#[trigger] t[j]).0.view() by {
            assert(t[i] == s[i] && t[j] == s[j]);
        }
        lemma_entries_map(t);
        assert forall|k: IconKeyView| #[trigger] entries_map(s).contains_key(k) <==> exists|i: int| 0 <= i < s.len() && s[i].0.view() == k by {
            if entries_map(s).contains_key(k) && k != s.last().0.view() {
                let i = choose|i: int| 0 <= i < t.len() && t[i].0.view() == k;
                assert(s[i] == t[i]);
            }
            if exists|i: int| 0 <= i < s.len() && s[i].0.view() == k {
                let i = choose|i: int| 0 <= i < s.len() && s[i].0.view() == k;
                if i < t.len() {
                    assert(t[i] == s[i]);
                }
            }
        }
        assert forall|i: int| 0 <= i < s.len() implies #[trigger] entries_map(s)[s[i].0.view()] == s[i].1.view() by {
            if i < t.len() {
                assert(t[i] == s[i]);
                assert(s[i].0.view() != s[s.len() - 1].0.view());
            }
        }
    }
}

/// The pixel cache: for each icon key, the state of its icon.
#[derive(Debug)]
pub struct IconCache {
    entries: Vec<(IconKey, IconStatus)>,
}

impl IconCache {
    #[verifier::type_invariant]
    spec fn distinct(self) -> bool {
        keys_distinct(self.entries@)
    }

    /// The state of each icon the cache knows.
    pub closed spec fn view(self) -> Map<IconKeyView, IconStatusView> {
        entries_map(self.entries@)
    }

    /// An empty cache.
    pub fn new() -> (r: Self)
        ensures
            r@ == Map::<IconKeyView, IconStatusView>::empty(),
    {
        IconCache { entries: Vec::new() }
    }

    /// Position of the entry for `key`, if there is one.
    fn find(&self, key: &IconKey) -> (r: Option<usize>)
        ensures
            r matches Some(i) ==> i < self.entries@.len() && self.entries@[i as int].0.view() == key.view(),
            r is None ==> !self@.contains_key(key.view()),
    {
        proof {
            use_type_invariant(self);
            lemma_entries_map(self.entries@);
        }
        let mut i: usize = 0;
        while i < self.entries.len()
            invariant
                i <= self.entries@.len(),
                forall|j: int| 0 <= j < i ==> (#[trigger] self.entries@[j]).0.view() != key.view(),
            decreases self.entries@.len() - i,
        {
            if self.entries[i].0.same_as(key) {
                return Some(i);
            }
            i = i + 1;
        }
        None
    }

    /// Whether the cache knows the icon `key`.
    pub fn contains_key(&self, key: &IconKey) -> (r: bool)
        ensures
            r == self@.contains_key(key.view()),
    {
        proof {
            use_type_invariant(self);
            lemma_entries_map(self.entries@);
        }
        self.find(key).is_some()
    }

    /// The state of the icon `key`, if the cache knows it.
    pub fn get(&self, key: &IconKey) -> (r: Option<&IconStatus>)
        ensures
            r is None <==> !self@.contains_key(key.view()),
            r matches Some(st) ==> self@[key.view()] == st.view(),
    {
        proof {
            use_type_invariant(self);
            lemma_entries_map(self.entries@);
        }
        match self.find(key) {
            Some(i) => Some(&self.entries[i].1),
            None => None,
        }
    }

    /// Sets the state of the icon `key` to `status`.
    pub fn insert(&mut self, key: IconKey, status: IconStatus)
        ensures
            final(self)@ == old(self)@.insert(key.view(), status.view()),
    {
        proof {
            use_type_invariant(&*self);
            lemma_entries_map(self.entries@);
        }
        let ghost kv = key.view();
        let ghost sv = status.view();
        let mut entries = Vec::new();
        std::mem::swap(&mut entries, &mut self.entries);
        let ghost before = entries@;
        match self.find_in(&entries, &key) {
            Some(i) => {
                entries.set(i, (key, status));
                proof {
                    let after = entries@;
                    assert(after == before.update(i as int, after[i as int]));
                    assert forall|a: int, b: int| 0 <= a < b < after.len() implies (#[trigger] after[a]).0.view() != (#[trigger] after[b]).0.view() by {
                        if a != i && b != i {
                            assert(after[a] == before[a] && after[b] == before[b]);
                        } else if a == i {
                            assert(after[b] == before[b]);
                            assert(before[i as int].0.view() != before[b].0.view());
                        } else {
                            assert(after[a] == before[a]);
                            assert(before[a].0.view() != before[i as int].0.view());
                        }
                    }
                    lemma_entries_map(after);
                    assert forall|k: IconKeyView| #[trigger] entries_map(after).contains_key(k) <==> entries_map(before).insert(kv, sv).contains_key(k) by {
                        if exists|j: int| 0 <= j < after.len() && after[j].0.view() == k {
                            let j = choose|j: int| 0 <= j < after.len() && after[j].0.view() == k;
                            if j != i {
                                assert(after[j] == before[j]);
                            }
                        }
                        if exists|j: int| 0 <= j < before.len() && before[j].0.view() == k {
                            let j = choose|j: int| 0 <= j < before.len() && before[j].0.view() == k;
                            if j != i {
                                assert(after[j] == before[j]);
                            }
                        }
                    }
                    assert forall|k: IconKeyView| #[trigger] entries_map(after).contains_key(k) implies entries_map(after)[k] == entries_map(before).insert(kv, sv)[k] by {
                        let j = choose|j: int| 0 <= j < after.len() && after[j].0.view() == k;
                        if j != i {
                            assert(after[j] == before[j]);
                        }
                    }
                    assert(entries_map(after) =~= entries_map(before).insert(kv, sv));
                }
            },
            None => {
                entries.push((key, status));
                proof {
                    let after = entries@;
                    assert(after.drop_last() =~= before);
                    assert forall|a: int, b: int| 0 <= a < b < after.len() implies (#[trigger] after[a]).0.view() != (#[trigger] after[b]).0.view() by {
                        assert(after[a] == before[a]);
                        if b < before.len() {
                            assert(after[b] == before[b]);
                        } else if before[a].0.view() == kv {
                            assert(entries_map(before).contains_key(kv));
                        }
                    }
                }
            },
        }
        self.entries = entries;
    }

    /// Position in `entries` of the entry for `key`, if there is one.
    fn find_in(&self, entries: &Vec<(IconKey, IconStatus)>, key: &IconKey) -> (r: Option<usize>)
        requires
            keys_distinct(entries@),
        ensures
            r matches Some(i) ==> i < entries@.len() && entries@[i as int].0.view() == key.view(),
            r is None ==> !entries_map(entries@).contains_key(key.view()),
    {
        proof {
            lemma_entries_map(entries@);
        }
        let mut i: usize = 0;
        while i < entries.len()
            invariant
                i <= entries@.len(),
                forall|j: int| 0 <= j < i ==> (#[trigger] entries@[j]).0.view() != key.view(),
            decreases entries@.len() - i,
        {
            if entries[i].0.same_as(key) {
                return Some(i);
            }
            i = i + 1;
        }
        None
    }
}

/// Sets the state of the icon `key` in `cache` to `status`.
pub fn update_cache_status(cache: &mut IconCache, key: IconKey, status: IconStatus)
    ensures
        final(cache)@ == old(cache)@.insert(key.view(), status.view()),
{
    cache.insert(key, status);
}

/// Marks the icon `icon_key` as loading unless the cache already knows it.
/// Returns whether it did, that is whether a load is to be started.
pub fn ensure_icon_loaded(cache: &mut IconCache, icon_key: IconKey) -> (start: bool)
    ensures
        start == !old(cache)@.contains_key(icon_key.view()),
        start ==> final(cache)@ == old(cache)@.insert(icon_key.view(), IconStatusView::Loading),
        !start ==> final(cache)@ == old(cache)@,
{
    if cache.contains_key(&icon_key) {
        false
    } else {
        cache.insert(icon_key, IconStatus::Loading);
        true
    }
}

/// What is left to do after the icon itself was looked for.
pub enum LoadStep {
    /// Loading is over: the cache holds a final state for the icon.
    Finished,
    /// The fallback image, under the key given, is to be looked for; the
    /// icon stays loading until it was.
    FetchFallback(IconKey),
}

/// The key under which the fallback image `path` of `icon` is cached: the
/// icon's key with the image path in place of the application id.
pub open spec fn fallback_key(icon: IconKeyView, path: Seq<char>) -> IconKeyView {
    IconKeyView { app_id: path, size: icon.size, theme: icon.theme, fallback: icon.fallback }
}

/// The status of an icon shown with the ready fallback image `st`.
pub open spec fn as_fallback(st: IconStatusView) -> IconStatusView {
    match st {
        IconStatusView::Ready { pixels, width, height, fallback } => IconStatusView::Ready { pixels, width, height, fallback: true },
        _ => st,
    }
}

/// The cache after the icon `icon` was looked for, with `found` the pixels
/// and size found for it, and `fallback_is_file` whether its fallback path
/// names a file, and the key of the fallback image still to look for, if
/// any. A found icon is ready; without a usable fallback it is not found;
/// with one whose image has a final state in the cache, the icon takes that
/// state; otherwise the icon and the image are loading and the image is to
/// be looked for.
pub open spec fn after_icon_fetch_spec(
    cache: Map<IconKeyView, IconStatusView>,
    icon: IconKeyView,
    found: Option<(Seq<u8>, i32, i32)>,
    fallback_is_file: bool,
) -> (Map<IconKeyView, IconStatusView>, Option<IconKeyView>) {
    match found {
        Some((p, w, h)) => (cache.insert(icon, IconStatusView::Ready { pixels: p, width: w, height: h, fallback: false }), None),
        None => match icon.fallback {
            Some(path) if fallback_is_file => {
                let fb = fallback_key(icon, path);
                if cache.contains_key(fb) && !(cache[fb] is Loading) {
                    (cache.insert(icon, as_fallback(cache[fb])), None)
                } else {
                    (cache.insert(icon, IconStatusView::Loading).insert(fb, IconStatusView::Loading), Some(fb))
                }
            },
            _ => (cache.insert(icon, IconStatusView::NotFound), None),
        },
    }
}

/// The cache after the fallback image under `fb` of the icon `icon` was
/// looked for, with `found` its pixels and size if it was found: both are
/// ready with those pixels, marked as a fallback, or both are not found.
pub open spec fn after_fallback_fetch_spec(
    cache: Map<IconKeyView, IconStatusView>,
    icon: IconKeyView,
    fb: IconKeyView,
    found: Option<(Seq<u8>, i32, i32)>,
) -> Map<IconKeyView, IconStatusView> {
    match found {
        Some((p, w, h)) => {
            let st = IconStatusView::Ready { pixels: p, width: w, height: h, fallback: true };
            cache.insert(fb, st).insert(icon, st)
        },
        None => cache.insert(fb, IconStatusView::NotFound).insert(icon, IconStatusView::NotFound),
    }
}

/// Pixels and size found for an icon, as a sequence.
pub open spec fn found_view(found: Option<(Vec<u8>, i32, i32)>) -> Option<(Seq<u8>, i32, i32)> {
    match found {
        Some((p, w, h)) => Some((p@, w, h)),
        None => None,
    }
}

/// Records in `cache` the outcome of looking for the icon `icon`: `found`
/// holds its pixels and size if it was found, and `fallback_is_file`
/// whether its fallback path names a file. A found icon is ready; without
/// a usable fallback the icon is not found; with one, the icon takes the
/// final state the fallback image has in the cache, or, when the image has
/// none yet, both are marked loading and the image is to be looked for.
pub fn after_icon_fetch(cache: &mut IconCache, icon: IconKey, found: Option<(Vec<u8>, i32, i32)>, fallback_is_file: bool) -> (step: LoadStep)
    ensures
        ({
            let (m, fb) = after_icon_fetch_spec(old(cache)@, icon.view(), found_view(found), fallback_is_file);
            &&& final(cache)@ == m
            &&& match step {
                LoadStep::Finished => fb is None,
                LoadStep::FetchFallback(k) => fb == Some(k.view()),
            }
        }),
{
    match found {
        Some((pixels, width, height)) => {
            cache.insert(icon, IconStatus::Ready { pixels, width, height, fallback: false });
            return LoadStep::Finished;
        },
        None => {},
    }
    let path = match &icon.fallback {
        Some(p) => {
            if fallback_is_file {
                p.clone()
            } else {
                cache.insert(icon, IconStatus::NotFound);
                return LoadStep::Finished;
            }
        },
        None => {
            cache.insert(icon, IconStatus::NotFound);
            return LoadStep::Finished;
        },
    };
    let fb_key = IconKey { app_id: path, size: icon.size, theme: clone_opt_str(&icon.theme), fallback: clone_opt_str(&icon.fallback) };
    let known = match cache.get(&fb_key) {
        Some(IconStatus::Ready { pixels, width, height, .. }) => {
            let p = pixels.clone();
            assert(p@ =~= pixels@);
            Some(IconStatus::Ready { pixels: p, width: *width, height: *height, fallback: true })
        },
        Some(IconStatus::NotFound) => Some(IconStatus::NotFound),
        Some(IconStatus::Loading) => None,
        None => None,
    };
    match known {
        Some(st) => {
            cache.insert(icon, st);
            LoadStep::Finished
        },
        None => {
            cache.insert(icon, IconStatus::Loading);
            cache.insert(fb_key.duplicate(), IconStatus::Loading);
            LoadStep::FetchFallback(fb_key)
        },
    }
}

/// Records in `cache` the outcome of looking for the fallback image under
/// `fb_key` of the icon `icon`: when found, both are ready with its pixels,
/// marked as a fallback; otherwise both are not found.
pub fn after_fallback_fetch(cache: &mut IconCache, icon: IconKey, fb_key: IconKey, found: Option<(Vec<u8>, i32, i32)>)
    ensures
        final(cache)@ == after_fallback_fetch_spec(old(cache)@, icon.view(), fb_key.view(), found_view(found)),
{
    match found {
        Some((pixels, width, height)) => {
            let p = pixels.clone();
            assert(p@ =~= pixels@);
            cache.insert(fb_key, IconStatus::Ready { pixels: p, width, height, fallback: true });
            cache.insert(icon, IconStatus::Ready { pixels, width, height, fallback: true });
        },
        None => {
            cache.insert(fb_key, IconStatus::NotFound);
            cache.insert(icon, IconStatus::NotFound);
        },
    }
}

} // verus!
