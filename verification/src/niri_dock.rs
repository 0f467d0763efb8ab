//! The state behind the wrapbox dock: the compositor's windows and
//! workspaces, kept up to date from its events, and the icon settings with
//! which the icons of opened windows are requested.
use vstd::prelude::*;

use crate::cache::{DataCache, windows_after, workspaces_after};
use crate::icon_cache::{IconCache, IconStatusView, ensure_icon_loaded};
use crate::icons::{IconKey, IconKeyView};
use crate::model::{Event, WindowInfo, WorkspaceInfo, clone_opt_str, ostr, str_or_empty};

verus! {

/// The windows and workspaces the wrapbox dock shows.
pub type NiriDockState = DataCache;

/// The wrapbox dock's view of the compositor, with the icon settings of its
/// window buttons.
#[derive(Debug)]
pub struct NiriManager {
    pub state: NiriDockState,
    pub icon_size: u32,
    pub icon_theme: Option<String>,
    pub icon_fallback: Option<String>,
}

/// The key of the icon of window `w` for the icon settings `size`, `theme`
/// and `fallback`; a window without application id has the empty one.
pub open spec fn window_icon_key(w: WindowInfo, size: u32, theme: Option<String>, fallback: Option<String>) -> IconKeyView {
    IconKeyView { app_id: str_or_empty(w.app_id), size, theme: ostr(theme), fallback: ostr(fallback) }
}

impl NiriManager {
    /// No window or workspace known yet, and the given icon settings.
    pub fn new(icon_size: u32, icon_theme: Option<String>, icon_fallback: Option<String>) -> (r: Self)
        ensures
            r.state.windows.view() == Map::<u64, WindowInfo>::empty(),
            r.state.workspaces.view() == Map::<u64, WorkspaceInfo>::empty(),
            r.icon_size == icon_size,
            r.icon_theme == icon_theme,
            r.icon_fallback == icon_fallback,
    {
        NiriManager { state: DataCache::new(), icon_size, icon_theme, icon_fallback }
    }

    /// Applies compositor event `e` to the state. Every event asks for a
    /// redraw, so the result is always `true`.
    pub fn process_event(&mut self, e: &Event) -> (redraw: bool)
        ensures
            final(self).state.windows.view() == windows_after(old(self).state.windows.view(), *e, true),
            final(self).state.workspaces.view() == workspaces_after(old(self).state.workspaces.view(), *e),
            final(self).icon_size == old(self).icon_size,
            final(self).icon_theme == old(self).icon_theme,
            final(self).icon_fallback == old(self).icon_fallback,
            redraw,
    {
        let _ = self.state.apply_event(e, true);
        true
    }

    /// Requests the icon of the opened window `window`: unless `cache`
    /// knows its key, the key is marked loading in `cache` and returned, to
    /// be loaded.
    pub fn process_window_opened(&self, cache: &mut IconCache, window: &WindowInfo) -> (load: Option<IconKey>)
        ensures
            ({
                let k = window_icon_key(*window, self.icon_size, self.icon_theme, self.icon_fallback);
                &&& old(cache)@.contains_key(k) ==> load is None && final(cache)@ == old(cache)@
                &&& !old(cache)@.contains_key(k) ==> (load matches Some(key) && key.view() == k
                    && final(cache)@ == old(cache)@.insert(k, IconStatusView::Loading))
            }),
    {
        let app_id = match &window.app_id {
            Some(a) => a.clone(),
            None => String::new(),
        };
        let key = IconKey {
            app_id,
            size: self.icon_size,
            theme: clone_opt_str(&self.icon_theme),
            fallback: clone_opt_str(&self.icon_fallback),
        };
        let copy = key.duplicate();
        if ensure_icon_loaded(cache, key) {
            Some(copy)
        } else {
            None
        }
    }
}

} // verus!
