use niri_dock::config::ShowTitles;
use niri_dock::dock::{DockWindowData, DockWorkspaceData};
use niri_dock::icon_cache::{update_cache_status, IconCache, IconStatus};
use niri_dock::icons::IconKey;
use niri_dock::layout_rules::{
    decimal_string, fallback_char, group_by_workspace, has_title, icons_enabled, icons_to_reconcile,
    run_focused, workspace_tag_name,
};

fn lwin(id: u64, ws: Option<u64>, focused: bool) -> DockWindowData {
    DockWindowData {
        id,
        workspace_id: ws,
        app_id: None,
        title: None,
        is_focused: focused,
        is_floating: false,
        is_urgent: false,
    }
}

#[test]
fn titles_by_setting() {
    assert!(has_title(ShowTitles::Always, false));
    assert!(has_title(ShowTitles::Only, false));
    assert!(has_title(ShowTitles::Focused, true));
    assert!(!has_title(ShowTitles::Focused, false));
    assert!(!has_title(ShowTitles::Never, true));
}

#[test]
fn icons_hidden_with_titles_only_or_no_size() {
    assert!(icons_enabled(ShowTitles::Always, true));
    assert!(!icons_enabled(ShowTitles::Only, true));
    assert!(!icons_enabled(ShowTitles::Never, false));
}

#[test]
fn fallback_text_choices() {
    assert_eq!(fallback_char(&Some("★".to_string()), &Some("kitty".to_string())), "★");
    assert_eq!(fallback_char(&Some("/a.png".to_string()), &Some("kitty".to_string())), "K");
    assert_eq!(fallback_char(&None, &Some("ßeta".to_string())), "SS");
    assert_eq!(fallback_char(&None, &Some(String::new())), "");
    assert_eq!(fallback_char(&None, &None), "");
}

#[test]
fn decimal_notation() {
    assert_eq!(decimal_string(0), "0");
    assert_eq!(decimal_string(7), "7");
    assert_eq!(decimal_string(10), "10");
    assert_eq!(decimal_string(255), "255");
    assert_eq!(decimal_string(u64::MAX), u64::MAX.to_string());
}

#[test]
fn tag_name_is_name_or_index() {
    let mut w = DockWorkspaceData {
        id: 4,
        idx: 12,
        name: None,
        output: None,
        is_active: false,
        is_focused: false,
    };
    assert_eq!(workspace_tag_name(Some(&w)), Some("12".to_string()));
    w.name = Some("web".to_string());
    assert_eq!(workspace_tag_name(Some(&w)), Some("web".to_string()));
    assert_eq!(workspace_tag_name(None), None);
}

#[test]
fn runs_of_same_workspace() {
    let ws = vec![
        lwin(1, Some(1), false),
        lwin(2, Some(1), true),
        lwin(3, Some(2), false),
        lwin(4, None, false),
        lwin(5, None, false),
        lwin(6, Some(1), false),
    ];
    let runs = group_by_workspace(&ws);
    assert_eq!(runs, vec![(0, 2), (2, 3), (3, 5), (5, 6)]);
    assert!(run_focused(&ws, 0, 2));
    assert!(!run_focused(&ws, 2, 3));
    assert!(group_by_workspace(&Vec::new()).is_empty());
    assert_eq!(group_by_workspace(&vec![lwin(9, Some(3), false)]), vec![(0, 1)]);
}

fn app_win(id: u64, app: Option<&str>) -> DockWindowData {
    DockWindowData {
        id,
        workspace_id: Some(1),
        app_id: app.map(|s| s.to_string()),
        title: None,
        is_focused: false,
        is_floating: false,
        is_urgent: false,
    }
}

fn rkey(app: &str) -> IconKey {
    IconKey { app_id: app.to_string(), size: 24, theme: None, fallback: None }
}

#[test]
fn reconcile_ready_icons_without_surface_once() {
    let mut cache = IconCache::new();
    let ready = || IconStatus::Ready { pixels: vec![0; 4], width: 1, height: 1, fallback: false };
    update_cache_status(&mut cache, rkey("kitty"), ready());
    update_cache_status(&mut cache, rkey("foot"), ready());
    update_cache_status(&mut cache, rkey(""), ready());
    update_cache_status(&mut cache, rkey("mpv"), IconStatus::Loading);
    let windows = vec![
        app_win(1, Some("kitty")),
        app_win(2, Some("mpv")),
        app_win(3, Some("kitty")),
        app_win(4, Some("foot")),
        app_win(5, None),
        app_win(6, Some("firefox")),
    ];
    let have = vec![rkey("foot")];
    let r = icons_to_reconcile(&windows, 24, &None, &None, &have, &cache);
    let apps: Vec<String> = r.iter().map(|k| k.app_id.clone()).collect();
    assert_eq!(apps, vec!["kitty".to_string(), "".to_string()]);
    assert!(icons_to_reconcile(&windows, 32, &None, &None, &have, &cache).is_empty());
}
