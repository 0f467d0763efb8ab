use calloop::channel::channel;
use niri_dock::config::{default_show_titles, validate_icon_fallback, NiriConf, ShowTitles};
use niri_dock::dock::{DockCB, DockData, DockRegistry};
use niri_dock::icon_cache::{IconCache, IconStatus};
use niri_dock::model::{Event, WindowInfo, WorkspaceInfo};
use niri_dock::niri_dock::NiriManager as WrapboxManager;
use niri_dock::workspace::{WorkspaceCB, WorkspaceCtx, WorkspaceData};

fn rwin(id: u64, app: Option<&str>, focused: bool) -> WindowInfo {
    WindowInfo {
        id,
        title: None,
        app_id: app.map(|s| s.to_string()),
        workspace_id: Some(1),
        is_focused: focused,
        is_floating: false,
        is_urgent: false,
        pos_in_scrolling_layout: None,
    }
}

#[test]
fn dock_registry_register_then_unregister_restores() {
    let mut reg = DockRegistry::new();
    assert!(reg.is_empty());
    let (tx, _rx) = channel::<DockData>();
    let a = reg.add_cb(DockCB::new(tx.clone(), "DP-1".to_string(), 32, None, None));
    let b = reg.add_cb(DockCB::new(tx, "DP-2".to_string(), 32, None, None));
    assert_eq!((a, b), (0, 1));
    assert_eq!(reg.len(), 2);
    reg.remove_cb(b);
    assert_eq!(reg.len(), 1);
    assert_eq!(reg.entry(0).output, "DP-1");
    reg.remove_cb(7);
    assert_eq!(reg.len(), 1);
    reg.remove_cb(a);
    assert!(reg.is_empty());
}

#[test]
fn dock_registry_skips_unchanged_payload() {
    let mut reg = DockRegistry::new();
    let (tx, rx) = channel::<DockData>();
    reg.add_cb(DockCB::new(tx, "DP-1".to_string(), 32, None, None));
    let msgs = reg.call(vec![(DockData::default(), false)]);
    assert_eq!(msgs.len(), 1);
    assert!(msgs[0].as_ref().unwrap().same_as(&DockData::default()));
    let msgs = reg.call(vec![(DockData::default(), false)]);
    assert!(msgs[0].is_none());
    let msgs = reg.call(vec![(DockData::default(), true)]);
    assert!(msgs[0].is_some());
    assert!(reg.entry(0).last_data.is_some());
    assert!(rx.try_recv().is_err());
}

#[test]
fn workspace_ctx_skips_unchanged_data() {
    let mut ctx: WorkspaceCtx<NiriConf> = WorkspaceCtx::new();
    let (tx, rx) = channel::<WorkspaceData>();
    let id = ctx.add_cb(WorkspaceCB::new(tx, "DP-1".to_string(), NiriConf { preserve_empty: true }, false));
    let d = WorkspaceData { workspace_count: 3, focus: 1, active: 1 };
    assert_eq!(ctx.call(vec![Some(d)]), vec![Some(d)]);
    assert_eq!(ctx.call(vec![Some(d)]), vec![None]);
    assert_eq!(ctx.call(vec![None]), vec![None]);
    assert_eq!(ctx.get(id).unwrap().last_data, Some(d));
    let e = WorkspaceData { workspace_count: 3, focus: 2, active: 2 };
    assert_eq!(ctx.call(vec![Some(e)]), vec![Some(e)]);
    assert!(rx.try_recv().is_err());
    ctx.remove_cb(id);
    assert_eq!(ctx.len(), 0);
    assert!(ctx.get(id).is_none());
}

#[test]
fn show_titles_default_always() {
    assert_eq!(ShowTitles::default(), ShowTitles::Always);
}

#[test]
fn wrapbox_manager_always_redraws() {
    let mut m = WrapboxManager::new(48, Some("Adwaita".to_string()), None);
    assert!(m.process_event(&Event::WindowsChanged { windows: vec![rwin(1, Some("a"), true)] }));
    assert!(m.process_event(&Event::WindowFocusChanged { id: None }));
    assert_eq!(m.state.windows.len(), 1);
    assert!(m.process_event(&Event::WorkspacesChanged {
        workspaces: vec![WorkspaceInfo {
            id: 1,
            idx: 1,
            name: None,
            output: None,
            is_active: true,
            is_focused: true,
            active_window_id: None,
        }]
    }));
    assert_eq!(m.state.workspaces.len(), 1);
}

#[test]
fn wrapbox_manager_requests_icon_once() {
    let m = WrapboxManager::new(48, Some("Adwaita".to_string()), Some("/fb.svg".to_string()));
    let mut cache = IconCache::new();
    let k = m.process_window_opened(&mut cache, &rwin(1, Some("kitty"), false)).unwrap();
    assert_eq!(k.app_id, "kitty");
    assert_eq!(k.size, 48);
    assert_eq!(k.theme, Some("Adwaita".to_string()));
    assert_eq!(k.fallback, Some("/fb.svg".to_string()));
    assert!(matches!(cache.get(&k), Some(IconStatus::Loading)));
    assert!(m.process_window_opened(&mut cache, &rwin(2, Some("kitty"), false)).is_none());
    let k2 = m.process_window_opened(&mut cache, &rwin(3, None, false)).unwrap();
    assert_eq!(k2.app_id, "");
}

#[test]
fn icon_fallback_accepts_images_and_short_symbols() {
    assert_eq!(validate_icon_fallback("  /usr/share/a.png ").unwrap(), "/usr/share/a.png");
    assert_eq!(validate_icon_fallback("b.svg").unwrap(), "b.svg");
    assert_eq!(validate_icon_fallback(" ? ").unwrap(), "?");
    assert_eq!(validate_icon_fallback("🦀").unwrap(), "🦀");
    assert_eq!(validate_icon_fallback("ab").unwrap_err().value, "ab");
    assert_eq!(validate_icon_fallback("abcd").unwrap_err().value, "abcd");
    assert_eq!(validate_icon_fallback("  abcde ").unwrap_err().value, "abcde");
    assert_eq!(validate_icon_fallback("   ").unwrap_err().value, "");
    assert_eq!(validate_icon_fallback("pic.jpg").unwrap_err().value, "pic.jpg");
    assert_eq!(default_show_titles(), ShowTitles::Focused);
}
