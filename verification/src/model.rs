//! The compositor's windows and workspaces as the dock reads them, and the
//! events that change them.
use vstd::prelude::*;

use crate::idvec::Keyed;
use crate::order::SortKey;

verus! {

/// The characters of an optional string.
pub open spec fn ostr(o: Option<String>) -> Option<Seq<char>> {
    match o {
        Some(s) => Some(s@),
        None => None,
    }
}

/// The characters of an optional string, the empty sequence for `None`.
pub open spec fn str_or_empty(o: Option<String>) -> Seq<char> {
    match o {
        Some(s) => s@,
        None => Seq::empty(),
    }
}

/// Compares two optional strings by their characters.
pub fn opt_str_eq(a: &Option<String>, b: &Option<String>) -> (r: bool)
    ensures
        r == (ostr(*a) == ostr(*b)),
{
    match (a, b) {
        (Some(x), Some(y)) => x.eq(y),
        (None, None) => true,
        _ => false,
    }
}

/// A copy of an optional string.
pub fn clone_opt_str(a: &Option<String>) -> (r: Option<String>)
    ensures
        r == *a,
{
    match a {
        Some(x) => Some(x.clone()),
        None => None,
    }
}

/// A value that can be copied field by field.
pub trait Duplicate: Sized {
    fn duplicate(&self) -> (r: Self)
        ensures
            r == *self,
    ;
}

/// A window as the compositor reports it, reduced to what the dock reads.
#[derive(Debug)]
pub struct WindowInfo {
    pub id: u64,
    pub title: Option<String>,
    pub app_id: Option<String>,
    pub workspace_id: Option<u64>,
    pub is_focused: bool,
    pub is_floating: bool,
    pub is_urgent: bool,
    /// Column and row of the window in the scrolling layout, if it is tiled there.
    pub pos_in_scrolling_layout: Option<(usize, usize)>,
}

impl Keyed for WindowInfo {
    open spec fn key(&self) -> u64 {
        self.id
    }

    fn get_key(&self) -> (k: u64) {
        self.id
    }
}

impl Duplicate for WindowInfo {
    fn duplicate(&self) -> (r: Self) {
        WindowInfo {
            id: self.id,
            title: clone_opt_str(&self.title),
            app_id: clone_opt_str(&self.app_id),
            workspace_id: self.workspace_id,
            is_focused: self.is_focused,
            is_floating: self.is_floating,
            is_urgent: self.is_urgent,
            pos_in_scrolling_layout: self.pos_in_scrolling_layout,
        }
    }
}

/// A workspace as the compositor reports it, reduced to what the dock reads.
#[derive(Debug)]
pub struct WorkspaceInfo {
    pub id: u64,
    /// Index of the workspace on its output, from 1.
    pub idx: u8,
    pub name: Option<String>,
    pub output: Option<String>,
    pub is_active: bool,
    pub is_focused: bool,
    pub active_window_id: Option<u64>,
}

impl Keyed for WorkspaceInfo {
    open spec fn key(&self) -> u64 {
        self.id
    }

    fn get_key(&self) -> (k: u64) {
        self.id
    }
}

impl Duplicate for WorkspaceInfo {
    fn duplicate(&self) -> (r: Self) {
        WorkspaceInfo {
            id: self.id,
            idx: self.idx,
            name: clone_opt_str(&self.name),
            output: clone_opt_str(&self.output),
            is_active: self.is_active,
            is_focused: self.is_focused,
            active_window_id: self.active_window_id,
        }
    }
}

/// `a` comes before `b` in the order of `Option<u64>`: `None` first.
pub open spec fn opt_id_lt(a: Option<u64>, b: Option<u64>) -> bool {
    match (a, b) {
        (None, Some(_)) => true,
        (Some(x), Some(y)) => x < y,
        _ => false,
    }
}

/// `a` comes before `b` in the order of `Option<(usize, usize)>`: `None`
/// first, pairs by their first and then their second element.
pub open spec fn opt_pos_lt(a: Option<(usize, usize)>, b: Option<(usize, usize)>) -> bool {
    match (a, b) {
        (None, Some(_)) => true,
        (Some(x), Some(y)) => x.0 < y.0 || (x.0 == y.0 && x.1 < y.1),
        _ => false,
    }
}

fn opt_id_less(a: Option<u64>, b: Option<u64>) -> (r: bool)
    ensures
        r == opt_id_lt(a, b),
{
    match (a, b) {
        (None, Some(_)) => true,
        (Some(x), Some(y)) => x < y,
        _ => false,
    }
}

fn opt_pos_less(a: Option<(usize, usize)>, b: Option<(usize, usize)>) -> (r: bool)
    ensures
        r == opt_pos_lt(a, b),
{
    match (a, b) {
        (None, Some(_)) => true,
        (Some(x), Some(y)) => x.0 < y.0 || (x.0 == y.0 && x.1 < y.1),
        _ => false,
    }
}

/// Windows are ordered by workspace, then by position in the scrolling
/// layout, then by id.
impl SortKey for WindowInfo {
    open spec fn before(&self, other: &Self) -> bool {
        ||| opt_id_lt(self.workspace_id, other.workspace_id)
        ||| self.workspace_id == other.workspace_id && opt_pos_lt(
            self.pos_in_scrolling_layout,
            other.pos_in_scrolling_layout,
        )
        ||| self.workspace_id == other.workspace_id && self.pos_in_scrolling_layout
            == other.pos_in_scrolling_layout && self.id < other.id
    }

    fn is_before(&self, other: &Self) -> (b: bool) {
        opt_id_less(self.workspace_id, other.workspace_id) || (self.workspace_id == other.workspace_id
            && opt_pos_less(self.pos_in_scrolling_layout, other.pos_in_scrolling_layout)) || (
        self.workspace_id == other.workspace_id && self.pos_in_scrolling_layout
            == other.pos_in_scrolling_layout && self.id < other.id)
    }

    proof fn before_irreflexive(a: Self) {
    }

    proof fn before_transitive(a: Self, b: Self, c: Self) {
    }

    proof fn before_total(a: Self, b: Self) {
    }
}

/// Workspaces are ordered by index, then by id.
impl SortKey for WorkspaceInfo {
    open spec fn before(&self, other: &Self) -> bool {
        self.idx < other.idx || (self.idx == other.idx && self.id < other.id)
    }

    fn is_before(&self, other: &Self) -> (b: bool) {
        self.idx < other.idx || (self.idx == other.idx && self.id < other.id)
    }

    proof fn before_irreflexive(a: Self) {
    }

    proof fn before_transitive(a: Self, b: Self, c: Self) {
    }

    proof fn before_total(a: Self, b: Self) {
    }
}

/// An event of the compositor's event stream that the dock follows.
#[derive(Debug)]
#[allow(inconsistent_fields)]
pub enum Event {
    WorkspacesChanged { workspaces: Vec<WorkspaceInfo> },
    WorkspaceActivated { id: u64, focused: bool },
    WindowsChanged { windows: Vec<WindowInfo> },
    WindowOpenedOrChanged { window: WindowInfo },
    WindowClosed { id: u64 },
    WindowFocusChanged { id: Option<u64> },
    /// New layout positions of windows, in the order they are applied.
    WindowLayoutsChanged { changes: Vec<(u64, Option<(usize, usize)>)> },
    WindowUrgencyChanged { id: u64, is_urgent: bool },
}

} // verus!
