//! Verified core logic of the Halley compositor's cursor, layer-window and
//! layer-shell control paths.

pub mod cursor_sprite;
pub mod text;
pub mod layer_window;
pub mod layer_ipc;
pub mod layer_cli;
pub mod config;
pub mod cursor_theme;
pub mod cursor_manager;
pub mod foreign_toplevel;
pub mod dynamic_cursor;
