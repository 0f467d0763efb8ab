use std::sync::{Arc, RwLock};

use niri_dock::dock::DockWindowData;
use niri_dock::dock_input::{click_action, discrete_scroll_delta, scroll_focus_target, BTN_LEFT, BTN_MIDDLE};
use niri_dock::handlers::{DockHandler, NiriAction, NiriDockHandler};
use niri_dock::icon_cache::IconCache;

fn dwin(id: u64, focused: bool) -> DockWindowData {
    DockWindowData {
        id,
        workspace_id: Some(1),
        app_id: None,
        title: None,
        is_focused: focused,
        is_floating: false,
        is_urgent: false,
    }
}

fn handler() -> DockHandler {
    DockHandler::Niri(NiriDockHandler::new(3, Arc::new(RwLock::new(IconCache::new()))))
}

#[test]
fn click_left_focuses_middle_closes() {
    let h = handler();
    assert_eq!(click_action(&h, BTN_LEFT, 9), Some(NiriAction::FocusWindow { id: 9 }));
    assert_eq!(click_action(&h, BTN_MIDDLE, 9), Some(NiriAction::CloseWindow { id: Some(9) }));
    assert_eq!(click_action(&h, 273, 9), None);
    assert_eq!(BTN_LEFT, 272);
    assert_eq!(BTN_MIDDLE, 274);
}

#[test]
fn scroll_delta_prefers_vertical() {
    assert_eq!(discrete_scroll_delta(2, -1), Some(2));
    assert_eq!(discrete_scroll_delta(0, -1), Some(-1));
    assert_eq!(discrete_scroll_delta(0, 0), None);
}

#[test]
fn scroll_moves_from_focused_window() {
    let ws = vec![dwin(1, false), dwin(2, true), dwin(3, false)];
    assert_eq!(scroll_focus_target(&ws, None, 1), Some(3));
    assert_eq!(scroll_focus_target(&ws, None, -1), Some(1));
    assert_eq!(scroll_focus_target(&ws, None, 2), Some(1));
}

#[test]
fn scroll_wraps_around_both_ways() {
    let ws = vec![dwin(1, false), dwin(2, false), dwin(3, true)];
    assert_eq!(scroll_focus_target(&ws, None, 1), Some(1));
    let ws = vec![dwin(1, true), dwin(2, false), dwin(3, false)];
    assert_eq!(scroll_focus_target(&ws, None, -1), Some(3));
    assert_eq!(scroll_focus_target(&ws, None, -7), Some(3));
    assert_eq!(scroll_focus_target(&ws, None, 7), Some(2));
}

#[test]
fn scroll_counts_from_last_target() {
    let ws = vec![dwin(1, true), dwin(2, false), dwin(3, false)];
    assert_eq!(scroll_focus_target(&ws, Some(2), 1), Some(3));
    assert_eq!(scroll_focus_target(&ws, Some(99), 1), Some(2));
}

#[test]
fn scroll_without_focus_starts_at_first() {
    let ws = vec![dwin(1, false), dwin(2, false)];
    assert_eq!(scroll_focus_target(&ws, None, 1), Some(2));
    assert_eq!(scroll_focus_target(&ws, None, 0), Some(1));
}

#[test]
fn scroll_on_empty_dock_does_nothing() {
    assert_eq!(scroll_focus_target(&Vec::new(), Some(1), 1), None);
}

#[test]
fn scroll_extreme_deltas() {
    let ws = vec![dwin(1, true), dwin(2, false), dwin(3, false)];
    assert_eq!(scroll_focus_target(&ws, None, i32::MAX), Some(ws[(i32::MAX as usize) % 3].id));
    assert_eq!(scroll_focus_target(&ws, None, i32::MIN), Some(ws[((i32::MIN as i64).rem_euclid(3)) as usize].id));
}
