//! Wallpaper rotation, settings and picker logic.

pub mod config;
pub mod laws;
pub mod rotation;
pub mod settings;
pub mod sources;
pub mod state;
pub mod text;
pub mod wallpaper;
pub mod wallpaper_picker;
