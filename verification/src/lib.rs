//! Verified core of a local file search launcher.

pub mod domain;
pub mod text;
pub mod path;
pub mod sorting;
pub mod mounts;
pub mod wire;
pub mod ipc;
pub mod ipc_laws;
pub mod hotkey;
pub mod matching;
pub mod query;
pub mod query_laws;
pub mod index;
pub mod daemon;
pub mod cli;
pub mod launcher;
pub mod clipboard;
pub mod keymap;
pub mod config;
pub mod autostart;
pub mod tray;
