//! The verified core of remux, a terminal session shared between the local
//! screen and any number of browsers.

pub mod ansi;
pub mod archive;
pub mod base64;
pub mod cloudflared;
pub mod config;
pub mod debug;
pub mod dialog;
pub mod drawing;
pub mod escape;
pub mod files;
pub mod input;
pub mod local;
pub mod modal;
pub mod outer;
pub mod protocol;
pub mod reactions;
pub mod render;
pub mod session;
pub mod shared_session;
pub mod sync;
pub mod terminal;
pub mod text;
pub mod tunnel;
pub mod uninstall;
pub mod update;
pub mod vt;
