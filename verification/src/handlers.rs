//! What the widgets ask of the compositor: the handlers through which a
//! dock focuses and closes windows and a workspace indicator switches
//! workspaces, and the registration of the widgets with the manager.
use std::sync::{Arc, RwLock};

use vstd::prelude::*;

use crate::config::NiriConf;
use crate::dock::{DockCB, ID};
use crate::icon_cache::IconCache;
use crate::manager::{
    DockRegistration, NiriManager, dock_registered, dock_unregistered, workspace_registered,
    workspace_target_of, workspace_unregistered,
};
use crate::workspace::{WorkspaceCB, WorkspaceData};

verus! {

/// The lock around the icon cache that the docks share.
#[verifier::external_type_specification]
#[verifier::external_body]
#[verifier::reject_recursive_types(T)]
pub struct ExRwLock<T: ?Sized>(RwLock<T>);

/// A request to the compositor.
#[allow(inconsistent_fields)]
#[derive(Debug, Clone, Copy, PartialEq, Eq, Structural)]
pub enum NiriAction {
    FocusWindow { id: u64 },
    CloseWindow { id: Option<u64> },
    FocusWorkspace { id: u64 },
}

/// The niri side of a dock widget: its registration id and the icon cache
/// it reads.
#[derive(Debug)]
pub struct NiriDockHandler {
    cb_id: ID,
    pub icon_cache: Arc<RwLock<IconCache>>,
}

impl NiriDockHandler {
    /// The id under which the dock is registered.
    pub closed spec fn id(&self) -> ID {
        self.cb_id
    }

    /// The icon cache the dock reads.
    pub closed spec fn cache(&self) -> Arc<RwLock<IconCache>> {
        self.icon_cache
    }

    /// A handler for the dock registered under `cb_id`.
    pub fn new(cb_id: ID, icon_cache: Arc<RwLock<IconCache>>) -> (r: Self)
        ensures
            r.id() == cb_id,
            r.cache() == icon_cache,
    {
        NiriDockHandler { cb_id, icon_cache }
    }

    /// The id under which the dock is registered, to unregister it.
    pub fn cb_id(&self) -> (r: ID)
        ensures
            r == self.id(),
    {
        self.cb_id
    }

    /// The request that focuses window `window_id`.
    pub fn focus_window(&self, window_id: u64) -> (r: NiriAction)
        ensures
            r == (NiriAction::FocusWindow { id: window_id }),
    {
        NiriAction::FocusWindow { id: window_id }
    }

    /// The request that closes window `window_id`.
    pub fn close_window(&self, window_id: u64) -> (r: NiriAction)
        ensures
            r == (NiriAction::CloseWindow { id: Some(window_id) }),
    {
        NiriAction::CloseWindow { id: Some(window_id) }
    }
}

/// The compositor side of a dock widget.
#[derive(Debug)]
pub enum DockHandler {
    Niri(NiriDockHandler),
}

impl DockHandler {
    /// The icon cache the dock reads.
    pub open spec fn icon_cache_spec(&self) -> Arc<RwLock<IconCache>> {
        match self {
            DockHandler::Niri(h) => h.cache(),
        }
    }

    /// The request that focuses window `window_id`.
    pub fn focus_window(&self, window_id: u64) -> (r: NiriAction)
        ensures
            r == (NiriAction::FocusWindow { id: window_id }),
    {
        match self {
            DockHandler::Niri(h) => h.focus_window(window_id),
        }
    }

    /// The request that closes window `window_id`.
    pub fn close_window(&self, window_id: u64) -> (r: NiriAction)
        ensures
            r == (NiriAction::CloseWindow { id: Some(window_id) }),
    {
        match self {
            DockHandler::Niri(h) => h.close_window(window_id),
        }
    }

    /// The icon cache the dock reads.
    pub fn icon_cache(&self) -> (r: &Arc<RwLock<IconCache>>)
        ensures
            *r == self.icon_cache_spec(),
    {
        match self {
            DockHandler::Niri(h) => &h.icon_cache,
        }
    }
}

/// `h` is the handler of the dock registered under `id` with manager `m`:
/// it reads `m`'s icon cache.
pub open spec fn dock_handler_of(m: NiriManager, h: DockHandler, id: ID) -> bool {
    match h {
        DockHandler::Niri(n) => n.id() == id && n.cache() == m.icon_cache,
    }
}

/// Registers dock widget `cb` with `manager` and returns its handler,
/// which reads the manager's icon cache, with the outcome of the
/// registration.
pub fn register_dock_callback(manager: &mut NiriManager, cb: DockCB) -> (r: (DockHandler, DockRegistration))
    requires
        old(manager).dock_registry.next_id() < u32::MAX,
        crate::manager::workspace_data_ok(old(manager).cache.workspaces.view(), old(manager).workspace_registry.entries()),
    ensures
        dock_registered(*old(manager), *final(manager), cb, r.1),
        dock_handler_of(*final(manager), r.0, r.1.id),
{
    let icon_cache = manager.icon_cache();
    let reg = manager.register_dock_callback(cb);
    let h = NiriDockHandler::new(reg.id, icon_cache);
    (DockHandler::Niri(h), reg)
}

/// Unregisters dock widget `id` from `manager`.
pub fn unregister_dock_callback(manager: &mut NiriManager, id: ID)
    ensures
        dock_unregistered(*old(manager), *final(manager), id),
{
    manager.unregister_dock_callback(id);
}

/// The niri side of a workspace indicator: its registration id.
#[derive(Debug)]
pub struct NiriWorkspaceHandler {
    cb_id: ID,
}

impl NiriWorkspaceHandler {
    /// The id under which the indicator is registered.
    pub closed spec fn id(&self) -> ID {
        self.cb_id
    }

    /// A handler for the indicator registered under `cb_id`.
    pub fn new(cb_id: ID) -> (r: Self)
        ensures
            r.id() == cb_id,
    {
        NiriWorkspaceHandler { cb_id }
    }

    /// The id under which the indicator is registered, to unregister it.
    pub fn cb_id(&self) -> (r: ID)
        ensures
            r == self.id(),
    {
        self.cb_id
    }

    /// The request that focuses the workspace that the indicator lists at
    /// position `index`; none when the indicator is no longer registered or
    /// lists fewer workspaces.
    pub fn change_to_workspace(&mut self, manager: &NiriManager, index: usize) -> (r: Option<NiriAction>)
        ensures
            final(self).id() == old(self).id(),
            r == match workspace_target_of(*manager, old(self).id(), index) {
                Some(id) => Some(NiriAction::FocusWorkspace { id }),
                None => None,
            },
    {
        match manager.workspace_target(self.cb_id, index) {
            Some(id) => Some(NiriAction::FocusWorkspace { id }),
            None => None,
        }
    }
}

/// The compositor side of a workspace indicator.
#[derive(Debug)]
pub enum WorkspaceHandler {
    Niri(NiriWorkspaceHandler),
}

impl WorkspaceHandler {
    /// The request that focuses the workspace that the indicator lists at
    /// position `index`, if there is one.
    pub fn change_to_workspace(&mut self, manager: &NiriManager, index: usize) -> (r: Option<NiriAction>)
        ensures
            match *old(self) {
                WorkspaceHandler::Niri(h) => r == match workspace_target_of(*manager, h.id(), index) {
                    Some(id) => Some(NiriAction::FocusWorkspace { id }),
                    None => None,
                },
            },
    {
        match self {
            WorkspaceHandler::Niri(h) => h.change_to_workspace(manager, index),
        }
    }
}

/// Registers workspace indicator `cb` with `manager` and returns its
/// handler, with the data it is to be sent first, if any.
pub fn register_niri_event_callback(manager: &mut NiriManager, cb: WorkspaceCB<NiriConf>) -> (r: (WorkspaceHandler, Option<WorkspaceData>))
    requires
        old(manager).workspace_registry.next_id() < u32::MAX,
    ensures
        workspace_registered(*old(manager), *final(manager), cb, (old(manager).workspace_registry.next_id(), r.1)),
        match r.0 {
            WorkspaceHandler::Niri(h) => h.id() == old(manager).workspace_registry.next_id(),
        },
{
    let (id, initial) = manager.register_workspace_callback(cb);
    (WorkspaceHandler::Niri(NiriWorkspaceHandler::new(id)), initial)
}

/// Unregisters workspace indicator `id` from `manager`.
pub fn unregister_niri_event_callback(manager: &mut NiriManager, id: ID)
    ensures
        workspace_unregistered(*old(manager), *final(manager), id),
{
    manager.unregister_workspace_callback(id);
}

} // verus!
