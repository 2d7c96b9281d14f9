//! Asset pipeline for an image viewer: format identification from leading
//! bytes, header-only metadata probing, deterministic discovery planning,
//! full and thumbnail decoding with geometric transforms, a memory-weighted
//! cache with an oversized side list, and a two-lane load scheduler.

pub mod cache;
pub mod config;
pub mod decode;
pub mod discovery;
pub mod events;
pub mod format;
pub mod image_item;
pub mod keybinds;
pub mod loader;
pub mod pixels;
pub mod probe;
pub mod script_handler;
pub mod status_bar;
pub mod strutil;
pub mod utils;
