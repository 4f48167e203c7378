//! Verified core of the tapHLE iPhone OS emulator's host-side logic.

pub mod app_bundle;
pub mod audio;
pub mod audio_toolbox;
pub mod bundle;
pub mod bytes;
pub mod core_animation;
pub mod core_foundation;
pub mod core_graphics;
pub mod corrupt;
pub mod debug;
pub mod foundation;
pub mod frameworks;
pub mod mem;
pub mod objc;
pub mod of_archive;
pub mod of_dashboard;
pub mod openfeint;
pub mod plist_model;
pub mod text;
pub mod window;
