//! Session sidebar logic for a terminal multiplexer: colour and style
//! parsing, tmux-style format strings, width-aware text truncation, the
//! scrolling window over the session list and the plugin state machine.

pub mod color;
pub mod config;
pub mod format;
pub mod layout;
pub mod number;
pub mod render;
pub mod session;
pub mod state;
pub mod styled;
pub mod text;
pub mod visible;
pub mod width;
