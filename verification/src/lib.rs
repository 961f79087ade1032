//! Verified layout and configuration logic of the COSMIC panel and dock.
//!
//! The `dock_*` modules hold the dock: its configuration, the hiding and
//! placing of its surfaces, its surfaces' and popups' events, what a frame
//! redraws, and its clients. The `panel_*` modules, with `even_layout` and
//! `applet_launch`, hold the panel: its geometry and overflow handling, its
//! visibility and stacking, its popups, configuration changes, outputs and
//! applets.

pub mod dock_config;
pub mod dock_space;
pub mod dock_top_level;
pub mod dock_clients;
pub mod dock_render;

pub mod panel_space;
pub mod panel_layout;
pub mod panel_geometry;
pub mod even_layout;
pub mod panel_visibility;
pub mod panel_stack;
pub mod panel_pointer;
pub mod panel_popup;
pub mod panel_config;
pub mod panel_update;
pub mod panel_output;
pub mod panel_entries;
pub mod panel_container;
pub mod panel_maximize;
pub mod panel_minimize;
pub mod applet_launch;

pub mod sorting;
