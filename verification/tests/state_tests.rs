use niri_dock::cache::DataCache;
use niri_dock::model::{Event, WindowInfo, WorkspaceInfo};
use niri_dock::workspace::{
    filter_empty_workspace, get_workspace_by_index, get_workspace_data, get_workspace_data_from_slice,
    WorkspaceData,
};

fn ws(id: u64, idx: u8, output: &str, active: bool, focused: bool, win: Option<u64>) -> WorkspaceInfo {
    WorkspaceInfo {
        id,
        idx,
        name: None,
        output: Some(output.to_string()),
        is_active: active,
        is_focused: focused,
        active_window_id: win,
    }
}

fn win(id: u64, ws: u64, app: &str, focused: bool) -> WindowInfo {
    WindowInfo {
        id,
        title: Some(format!("title {}", id)),
        app_id: Some(app.to_string()),
        workspace_id: Some(ws),
        is_focused: focused,
        is_floating: false,
        is_urgent: false,
        pos_in_scrolling_layout: None,
    }
}

fn two_output_cache() -> DataCache {
    let mut c = DataCache::new();
    c.apply_event(
        &Event::WorkspacesChanged {
            workspaces: vec![
                ws(10, 2, "DP-1", false, false, None),
                ws(11, 1, "DP-1", true, true, Some(1)),
                ws(12, 3, "DP-1", false, false, Some(2)),
                ws(20, 1, "HDMI-A-1", true, false, None),
            ],
        },
        true,
    );
    c
}

#[test]
fn workspaces_changed_replaces_all() {
    let mut c = two_output_cache();
    assert_eq!(c.workspaces.len(), 4);
    let load = c.apply_event(&Event::WorkspacesChanged { workspaces: vec![ws(5, 1, "X", true, true, None)] }, true);
    assert!(!load);
    assert_eq!(c.workspaces.len(), 1);
    assert!(c.workspaces.get(5).is_some());
    assert!(c.workspaces.get(10).is_none());
}

#[test]
fn workspace_activation_moves_active_on_its_output() {
    let mut c = two_output_cache();
    c.apply_event(&Event::WorkspaceActivated { id: 12, focused: true }, true);
    assert!(c.workspaces.get(12).unwrap().is_active);
    assert!(c.workspaces.get(12).unwrap().is_focused);
    assert!(!c.workspaces.get(11).unwrap().is_active);
    assert!(!c.workspaces.get(11).unwrap().is_focused);
    assert!(c.workspaces.get(20).unwrap().is_active);
}

#[test]
fn workspace_activation_unfocused() {
    let mut c = two_output_cache();
    c.apply_event(&Event::WorkspaceActivated { id: 10, focused: false }, true);
    assert!(c.workspaces.get(10).unwrap().is_active);
    assert!(!c.workspaces.get(10).unwrap().is_focused);
    assert!(!c.workspaces.get(11).unwrap().is_active);
}

#[test]
fn unknown_workspace_activation_changes_nothing() {
    let mut c = two_output_cache();
    c.apply_event(&Event::WorkspaceActivated { id: 99, focused: true }, true);
    assert!(c.workspaces.get(11).unwrap().is_active);
    assert!(c.workspaces.get(11).unwrap().is_focused);
}

#[test]
fn window_events_ignored_when_not_followed() {
    let mut c = DataCache::new();
    let load = c.apply_event(&Event::WindowsChanged { windows: vec![win(1, 11, "a", false)] }, false);
    assert!(!load);
    assert!(c.windows.is_empty());
    let load = c.apply_event(&Event::WindowOpenedOrChanged { window: win(2, 11, "b", true) }, false);
    assert!(!load);
    assert!(c.windows.is_empty());
}

#[test]
fn opened_focused_window_takes_focus() {
    let mut c = DataCache::new();
    assert!(c.apply_event(&Event::WindowsChanged { windows: vec![win(1, 11, "a", true), win(2, 11, "b", false)] }, true));
    assert!(c.apply_event(&Event::WindowOpenedOrChanged { window: win(3, 11, "c", true) }, true));
    assert!(!c.windows.get(1).unwrap().is_focused);
    assert!(!c.windows.get(2).unwrap().is_focused);
    assert!(c.windows.get(3).unwrap().is_focused);
    assert_eq!(c.windows.len(), 3);
}

#[test]
fn opened_unfocused_window_keeps_focus() {
    let mut c = DataCache::new();
    c.apply_event(&Event::WindowsChanged { windows: vec![win(1, 11, "a", true)] }, true);
    c.apply_event(&Event::WindowOpenedOrChanged { window: win(2, 11, "b", false) }, true);
    assert!(c.windows.get(1).unwrap().is_focused);
}

#[test]
fn focus_change_focuses_one_window() {
    let mut c = DataCache::new();
    c.apply_event(&Event::WindowsChanged { windows: vec![win(1, 11, "a", true), win(2, 11, "b", false)] }, true);
    c.apply_event(&Event::WindowFocusChanged { id: Some(2) }, true);
    assert!(!c.windows.get(1).unwrap().is_focused);
    assert!(c.windows.get(2).unwrap().is_focused);
    c.apply_event(&Event::WindowFocusChanged { id: None }, true);
    assert!(c.windows.get(2).unwrap().is_focused);
}

#[test]
fn window_closed_and_urgency() {
    let mut c = DataCache::new();
    c.apply_event(&Event::WindowsChanged { windows: vec![win(1, 11, "a", true), win(2, 11, "b", false)] }, true);
    c.apply_event(&Event::WindowUrgencyChanged { id: 2, is_urgent: true }, true);
    assert!(c.windows.get(2).unwrap().is_urgent);
    c.apply_event(&Event::WindowUrgencyChanged { id: 7, is_urgent: true }, true);
    assert_eq!(c.windows.len(), 2);
    c.apply_event(&Event::WindowClosed { id: 1 }, true);
    assert!(c.windows.get(1).is_none());
    assert_eq!(c.windows.len(), 1);
}

#[test]
fn layout_changes_apply_to_known_windows() {
    let mut c = DataCache::new();
    c.apply_event(&Event::WindowsChanged { windows: vec![win(1, 11, "a", true)] }, true);
    c.apply_event(&Event::WindowLayoutsChanged { changes: vec![(1, Some((2, 1))), (9, Some((1, 1)))] }, true);
    assert_eq!(c.windows.get(1).unwrap().pos_in_scrolling_layout, Some((2, 1)));
    assert_eq!(c.windows.len(), 1);
}

#[test]
fn filter_keeps_focused_busy_and_named() {
    let mut named = ws(4, 4, "DP-1", false, false, None);
    named.name = Some("music".to_string());
    let v = vec![
        ws(1, 1, "DP-1", false, false, None),
        ws(2, 2, "DP-1", true, true, None),
        ws(3, 3, "DP-1", false, false, Some(7)),
        named,
    ];
    let r = filter_empty_workspace(&v);
    let ids: Vec<u64> = r.iter().map(|w| w.id).collect();
    assert_eq!(ids, vec![2, 3, 4]);
}

#[test]
fn workspace_data_positions() {
    let v = vec![
        ws(1, 1, "DP-1", false, false, None),
        ws(2, 2, "DP-1", true, true, Some(3)),
        ws(3, 3, "DP-1", false, false, Some(7)),
    ];
    let d = get_workspace_data_from_slice(&v, true);
    assert_eq!(d, WorkspaceData { workspace_count: 3, focus: 1, active: 1 });
    let d = get_workspace_data_from_slice(&v, false);
    assert_eq!(d, WorkspaceData { workspace_count: 2, focus: 0, active: 0 });
}

#[test]
fn workspace_data_without_focus() {
    let v = vec![ws(1, 1, "DP-1", false, false, Some(1)), ws(2, 2, "DP-1", true, false, Some(3))];
    let d = get_workspace_data_from_slice(&v, true);
    assert_eq!(d, WorkspaceData { workspace_count: 2, focus: -1, active: 1 });
}

#[test]
fn workspace_data_empty_list() {
    let d = get_workspace_data_from_slice(&Vec::new(), false);
    assert_eq!(d, WorkspaceData { workspace_count: 0, focus: -1, active: -1 });
}

#[test]
fn workspace_data_default() {
    assert_eq!(WorkspaceData::default(), WorkspaceData { workspace_count: 1, focus: 0, active: 0 });
}

#[test]
fn workspace_data_sorted_by_index_per_output() {
    let c = two_output_cache();
    let d = get_workspace_data(&c, &"DP-1".to_string(), true);
    assert_eq!(d, WorkspaceData { workspace_count: 3, focus: 0, active: 0 });
    let d = get_workspace_data(&c, &"HDMI-A-1".to_string(), true);
    assert_eq!(d, WorkspaceData { workspace_count: 1, focus: -1, active: 0 });
    let d = get_workspace_data(&c, &"none".to_string(), true);
    assert_eq!(d, WorkspaceData { workspace_count: 0, focus: -1, active: -1 });
}

#[test]
fn workspace_by_index_follows_shown_order() {
    let c = two_output_cache();
    let out = "DP-1".to_string();
    assert_eq!(get_workspace_by_index(&c, &out, true, 0).map(|w| w.id), Some(11));
    assert_eq!(get_workspace_by_index(&c, &out, true, 1).map(|w| w.id), Some(10));
    assert_eq!(get_workspace_by_index(&c, &out, true, 2).map(|w| w.id), Some(12));
    assert_eq!(get_workspace_by_index(&c, &out, true, 3).map(|w| w.id), None);
    assert_eq!(get_workspace_by_index(&c, &out, false, 1).map(|w| w.id), Some(12));
    assert_eq!(get_workspace_by_index(&c, &out, false, 2).map(|w| w.id), None);
}

#[test]
fn workspace_without_output_counts_as_empty_name() {
    let mut c = DataCache::new();
    let mut w = ws(1, 1, "x", true, true, None);
    w.output = None;
    c.apply_event(&Event::WorkspacesChanged { workspaces: vec![w] }, false);
    let d = get_workspace_data(&c, &String::new(), true);
    assert_eq!(d.workspace_count, 1);
}
