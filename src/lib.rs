//! Core state and decisions of a tiling window manager: managed clients,
//! monitors with their tag views, the tile and monocle layouts, the focus
//! stack, the status bar plan and the routing of display events.

pub mod bar;
pub mod client;
pub mod events;
pub mod geometry;
pub mod layout;
pub mod lists;
pub mod monitor;
pub mod wm;
