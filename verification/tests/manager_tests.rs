use std::sync::{Arc, RwLock};

use calloop::channel::{channel, Channel};
use niri_dock::config::NiriConf;
use niri_dock::dock::{DockCB, DockData};
use niri_dock::handlers::{
    register_dock_callback, register_niri_event_callback, unregister_dock_callback,
    unregister_niri_event_callback, DockHandler, NiriAction, WorkspaceHandler,
};
use niri_dock::icon_cache::IconCache;
use niri_dock::icons::IconKey;
use niri_dock::manager::{build_dock_data, dock_data_for_output, get_focused_output, DockRegistration, NiriManager, Notification};
use niri_dock::model::{Event, WindowInfo, WorkspaceInfo};
use niri_dock::workspace::{WorkspaceCB, WorkspaceData};

fn mws(id: u64, idx: u8, output: &str, active: bool, focused: bool) -> WorkspaceInfo {
    WorkspaceInfo {
        id,
        idx,
        name: None,
        output: Some(output.to_string()),
        is_active: active,
        is_focused: focused,
        active_window_id: None,
    }
}

fn mwin(id: u64, ws: u64, app: &str, pos: Option<(usize, usize)>) -> WindowInfo {
    WindowInfo {
        id,
        title: None,
        app_id: Some(app.to_string()),
        workspace_id: Some(ws),
        is_focused: false,
        is_floating: false,
        is_urgent: false,
        pos_in_scrolling_layout: pos,
    }
}

fn workspaces_event() -> Event {
    Event::WorkspacesChanged {
        workspaces: vec![
            mws(1, 1, "DP-1", true, true),
            mws(2, 2, "DP-1", false, false),
            mws(3, 1, "HDMI-A-1", true, false),
        ],
    }
}

fn windows_event() -> Event {
    Event::WindowsChanged {
        windows: vec![
            mwin(30, 2, "kitty", Some((1, 1))),
            mwin(20, 1, "firefox", Some((2, 1))),
            mwin(10, 1, "foot", Some((1, 1))),
            mwin(40, 3, "mpv", None),
            mwin(50, 99, "ghost", None),
        ],
    }
}

fn mgr() -> NiriManager {
    NiriManager::new(Arc::new(RwLock::new(IconCache::new())))
}

fn deliver(m: &NiriManager, n: Notification) {
    for (i, msg) in n.workspaces.into_iter().enumerate() {
        if let Some(d) = msg {
            m.workspace_registry.entry(i).sender.send(d).unwrap();
        }
    }
    for (i, msg) in n.docks.into_iter().enumerate() {
        if let Some(d) = msg {
            m.dock_registry.entry(i).sender.send(d).unwrap();
        }
    }
}

fn run(m: &mut NiriManager, e: &Event) -> Vec<IconKey> {
    let (keys, n) = m.process_event(e);
    deliver(m, n);
    keys
}

fn reg_dock(m: &mut NiriManager, cb: DockCB) -> DockRegistration {
    let mut reg = m.register_dock_callback(cb);
    let n = std::mem::replace(&mut reg.messages, Notification { workspaces: vec![], docks: vec![], last_dock: None });
    deliver(m, n);
    reg
}

fn reg_ws(m: &mut NiriManager, cb: WorkspaceCB<NiriConf>) -> (u32, Option<WorkspaceData>) {
    let (id, initial) = m.register_workspace_callback(cb);
    if let Some(d) = initial {
        m.workspace_registry.get(id).unwrap().sender.send(d).unwrap();
    }
    (id, initial)
}

fn drain<T>(ch: &Channel<T>) -> Vec<T> {
    let mut out = Vec::new();
    while let Ok(v) = ch.try_recv() {
        out.push(v);
    }
    out
}

fn dock_cb(output: &str) -> (DockCB, Channel<DockData>) {
    let (tx, rx) = channel();
    (DockCB::new(tx, output.to_string(), 32, None, None), rx)
}

fn ws_cb(output: &str, preserve_empty: bool, focused_only: bool) -> (WorkspaceCB<NiriConf>, Channel<WorkspaceData>) {
    let (tx, rx) = channel();
    (WorkspaceCB::new(tx, output.to_string(), NiriConf { preserve_empty }, focused_only), rx)
}

#[test]
fn workspace_indicator_gets_data_on_change_once() {
    let mut m = mgr();
    let (cb, rx) = ws_cb("DP-1", true, false);
    let (_id, initial) = reg_ws(&mut m, cb);
    assert_eq!(initial, None);
    let keys = run(&mut m, &workspaces_event());
    assert!(keys.is_empty());
    assert_eq!(drain(&rx), vec![WorkspaceData { workspace_count: 2, focus: 0, active: 0 }]);
    let _ = run(&mut m, &workspaces_event());
    assert!(drain(&rx).is_empty());
    let _ = run(&mut m, &Event::WorkspaceActivated { id: 2, focused: true });
    assert_eq!(drain(&rx), vec![WorkspaceData { workspace_count: 2, focus: 1, active: 1 }]);
}

#[test]
fn workspace_indicator_initial_data_when_cache_filled() {
    let mut m = mgr();
    let _ = run(&mut m, &workspaces_event());
    let (cb, rx) = ws_cb("HDMI-A-1", true, false);
    let (id, initial) = reg_ws(&mut m, cb);
    assert_eq!(id, 0);
    assert_eq!(initial, Some(WorkspaceData { workspace_count: 1, focus: -1, active: 0 }));
    assert_eq!(drain(&rx), vec![WorkspaceData { workspace_count: 1, focus: -1, active: 0 }]);
}

#[test]
fn focused_only_indicator_skips_unfocused_output() {
    let mut m = mgr();
    let (cb, rx) = ws_cb("HDMI-A-1", true, true);
    let _ = reg_ws(&mut m, cb);
    let (cb2, rx2) = ws_cb("DP-1", true, true);
    let _ = reg_ws(&mut m, cb2);
    let _ = run(&mut m, &workspaces_event());
    assert!(drain(&rx).is_empty());
    assert_eq!(drain(&rx2), vec![WorkspaceData { workspace_count: 2, focus: 0, active: 0 }]);
}

#[test]
fn dock_registration_follows_windows_and_notifies() {
    let mut m = mgr();
    let _ = run(&mut m, &workspaces_event());
    let (cb, rx) = dock_cb("DP-1");
    let reg = reg_dock(&mut m, cb);
    assert_eq!(reg.id, 0);
    assert!(reg.fetch_windows);
    assert!(m.needs_windows);
    let first = drain(&rx);
    assert_eq!(first.len(), 1);
    assert!(first[0].windows.is_empty());
    assert_eq!(first[0].workspaces.len(), 2);
    let keys = run(&mut m, &windows_event());
    let mut apps: Vec<String> = keys.iter().map(|k| k.app_id.clone()).collect();
    apps.sort();
    assert_eq!(apps, vec!["firefox".to_string(), "foot".to_string(), "kitty".to_string()]);
    assert!(keys.iter().all(|k| k.size == 32));
    let sent = drain(&rx);
    assert_eq!(sent.len(), 1);
    let ids: Vec<u64> = sent[0].windows.iter().map(|w| w.id).collect();
    assert_eq!(ids, vec![10, 20, 30]);
    let _ = run(&mut m, &windows_event());
    assert!(drain(&rx).is_empty());
}

#[test]
fn dock_resend_forces_payload() {
    let mut m = mgr();
    let _ = run(&mut m, &workspaces_event());
    let (cb, rx) = dock_cb("HDMI-A-1");
    let _ = reg_dock(&mut m, cb);
    let _ = run(&mut m, &windows_event());
    drain(&rx);
    let msgs = m.resend_dock_data();
    deliver(&m, Notification { workspaces: vec![], docks: msgs, last_dock: None });
    let sent = drain(&rx);
    assert_eq!(sent.len(), 1);
    let ids: Vec<u64> = sent[0].windows.iter().map(|w| w.id).collect();
    assert_eq!(ids, vec![40]);
}

#[test]
fn last_dock_unregistered_drops_windows() {
    let mut m = mgr();
    let _ = run(&mut m, &workspaces_event());
    let (cb1, _rx1) = dock_cb("DP-1");
    let (cb2, _rx2) = dock_cb("HDMI-A-1");
    let r1 = reg_dock(&mut m, cb1);
    let r2 = reg_dock(&mut m, cb2);
    assert!(!r2.fetch_windows);
    let _ = run(&mut m, &windows_event());
    m.unregister_dock_callback(r1.id);
    assert!(m.needs_windows);
    assert_eq!(m.cache.windows.len(), 5);
    m.unregister_dock_callback(r2.id);
    assert!(!m.needs_windows);
    assert!(m.cache.windows.is_empty());
    let keys = run(&mut m, &windows_event());
    assert!(keys.is_empty());
    assert!(m.cache.windows.is_empty());
}

#[test]
fn notify_returns_last_dock_payload() {
    let mut m = mgr();
    assert!(m.notify().last_dock.is_none());
    let _ = run(&mut m, &workspaces_event());
    let (cb, _rx) = dock_cb("HDMI-A-1");
    let _ = reg_dock(&mut m, cb);
    let _ = run(&mut m, &windows_event());
    let d = m.notify().last_dock.unwrap();
    assert_eq!(d.windows.len(), 1);
    assert_eq!(d.windows[0].id, 40);
}

#[test]
fn focused_output_of_focused_workspace() {
    let mut m = mgr();
    assert_eq!(get_focused_output(&m.cache), None);
    let _ = run(&mut m, &workspaces_event());
    assert_eq!(get_focused_output(&m.cache), Some("DP-1".to_string()));
}

#[test]
fn dock_data_orders_windows_by_workspace_then_column() {
    let mut m = mgr();
    let _ = run(&mut m, &workspaces_event());
    let (cb, _rx) = dock_cb("DP-1");
    let _ = reg_dock(&mut m, cb);
    let _ = run(&mut m, &windows_event());
    let d = dock_data_for_output(&m.cache, &"DP-1".to_string());
    let ids: Vec<u64> = d.windows.iter().map(|w| w.id).collect();
    assert_eq!(ids, vec![10, 20, 30]);
    assert!(d.workspaces.get(1).is_some());
    assert!(d.workspaces.get(3).is_none());
}

#[test]
fn build_dock_data_copies_fields() {
    let wps = vec![mws(7, 3, "DP-1", true, false)];
    let wins = vec![mwin(8, 7, "kitty", None)];
    let d = build_dock_data(&wps, &wins);
    assert_eq!(d.windows.len(), 1);
    assert_eq!(d.windows[0].app_id, Some("kitty".to_string()));
    assert_eq!(d.windows[0].workspace_id, Some(7));
    let w = d.workspaces.get(7).unwrap();
    assert_eq!(w.idx, 3);
    assert!(w.is_active);
    assert!(!d.same_as(&DockData::default()));
    assert!(d.same_as(&d.duplicate()));
}

#[test]
fn dock_handler_actions_and_cache() {
    let mut m = mgr();
    let shared = m.icon_cache();
    let (cb, _rx) = dock_cb("DP-1");
    let (h, reg) = register_dock_callback(&mut m, cb);
    let (cb2, _rx2) = dock_cb("DP-2");
    let (h2, _) = register_dock_callback(&mut m, cb2);
    assert!(Arc::ptr_eq(h2.icon_cache(), &shared));
    assert_eq!(reg.id, 0);
    assert_eq!(h.focus_window(5), NiriAction::FocusWindow { id: 5 });
    assert_eq!(h.close_window(6), NiriAction::CloseWindow { id: Some(6) });
    assert!(Arc::ptr_eq(h.icon_cache(), &shared));
    let DockHandler::Niri(inner) = &h;
    assert_eq!(inner.cb_id(), 0);
    unregister_dock_callback(&mut m, inner.cb_id());
    assert!(m.needs_windows);
    let DockHandler::Niri(inner2) = &h2;
    assert_eq!(inner2.cb_id(), 1);
    unregister_dock_callback(&mut m, inner2.cb_id());
    assert!(!m.needs_windows);
}

#[test]
fn workspace_handler_targets_listed_workspace() {
    let mut m = mgr();
    let _ = run(&mut m, &workspaces_event());
    let (cb, _rx) = ws_cb("DP-1", true, false);
    let (mut h, initial) = register_niri_event_callback(&mut m, cb);
    assert_eq!(initial, Some(WorkspaceData { workspace_count: 2, focus: 0, active: 0 }));
    assert_eq!(h.change_to_workspace(&m, 1), Some(NiriAction::FocusWorkspace { id: 2 }));
    assert_eq!(h.change_to_workspace(&m, 2), None);
    let WorkspaceHandler::Niri(inner) = &h;
    let id = inner.cb_id();
    unregister_niri_event_callback(&mut m, id);
    assert_eq!(h.change_to_workspace(&m, 0), None);
}

#[test]
fn workspace_target_hides_empty_workspaces() {
    let mut m = mgr();
    let _ = run(&mut m, &workspaces_event());
    let (cb, _rx) = ws_cb("DP-1", false, false);
    let (id, _) = reg_ws(&mut m, cb);
    assert_eq!(m.workspace_target(id, 0), Some(1));
    assert_eq!(m.workspace_target(id, 1), None);
    assert_eq!(m.workspace_target(id + 1, 0), None);
}

#[test]
fn inconsistent_workspaces_refused_before_notifying() {
    let mut m = mgr();
    let (cb, rx) = ws_cb("DP-1", true, false);
    let _ = reg_ws(&mut m, cb);
    let bad = Event::WorkspacesChanged {
        workspaces: vec![mws(1, 1, "DP-1", true, false), mws(2, 2, "DP-1", true, true)],
    };
    assert!(m.process_event_checked(&bad).is_none());
    assert!(!m.workspace_data_is_sound());
    assert_eq!(m.cache.workspaces.len(), 2);
    assert!(drain(&rx).is_empty());
    let (keys, n) = m.process_event_checked(&Event::WorkspaceActivated { id: 2, focused: true }).unwrap();
    assert_eq!(keys.len(), 0);
    deliver(&m, n);
    assert!(m.workspace_data_is_sound());
    assert_eq!(drain(&rx), vec![WorkspaceData { workspace_count: 2, focus: 1, active: 1 }]);
}

#[test]
fn consistent_workspaces_always_notify() {
    let mut m = mgr();
    let (cb, _rx) = ws_cb("DP-1", false, false);
    let _ = reg_ws(&mut m, cb);
    for e in [
        workspaces_event(),
        Event::WorkspaceActivated { id: 2, focused: true },
        Event::WorkspaceActivated { id: 3, focused: false },
        Event::WorkspaceActivated { id: 1, focused: true },
    ] {
        assert!(m.process_event_checked(&e).is_some());
    }
}
