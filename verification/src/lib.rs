//! Wisp: clipboard history, tagged memo snippets and network lookups.

pub mod assets;
pub mod clip;
pub mod clip_write;
pub mod clipboard_view;
pub mod config;
pub mod data_dir;
pub mod delivery_laws;
pub mod history_laws;
pub mod home_view;
pub mod hotkey;
pub mod ico;
pub mod ip;
pub mod ip_addr;
pub mod ip_laws;
pub mod ip_view;
pub mod like;
pub mod memo;
pub mod memo_laws;
pub mod memo_service;
pub mod memo_store;
pub mod memo_view;
pub mod order;
pub mod page_laws;
pub mod paste;
pub mod path;
pub mod path_laws;
pub mod picture;
pub mod picture_laws;
pub mod recording_laws;
pub mod retry;
pub mod rounding;
pub mod selection;
pub mod service;
pub mod settings_laws;
pub mod settings_view;
pub mod shell;
pub mod store;
pub mod store_laws;
pub mod text;
pub mod text_laws;
pub mod theme;
pub mod watcher;
pub mod wisp_view;
