//! Selection, ordering and activation logic of the niri window switcher overlay.
//!
//! The overlay shows the open windows of the compositor in most-recently-used
//! order and lets the user cycle through them with a held shortcut. This crate
//! holds the decisions the overlay takes: where the selection moves, how
//! shortcut presses that arrive while the window list is still loading are
//! remembered and replayed, in which order the windows are shown, and when a
//! window is confirmed. Drawing and talking to the compositor are left to the
//! caller, which hands plain values in and performs the actions that come back.

pub mod selection;
pub mod window_list;
pub mod windows;
pub mod window_cache;
pub mod overlay;
