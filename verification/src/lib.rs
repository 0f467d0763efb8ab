//! Verified core of a compositor dock: window and workspace bookkeeping,
//! icon cache decisions and the discrete parts of the dock layout.
pub mod icons;
pub mod icon_cache;
pub mod desktop;
pub mod lookup;
pub mod handlers;
pub mod niri_dock;
pub mod dock_input;
pub mod layout_rules;
pub mod idvec;
pub mod laws;
pub mod manager;
pub mod model;
pub mod order;
pub mod cache;
pub mod config;
pub mod dock;
pub mod workspace;
pub mod text;
