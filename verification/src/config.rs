//! The configuration that the sources, the settings window and the picker read.

use vstd::prelude::*;

verus! {

/// What the desktop shows.
#[derive(Debug, Clone, Copy, PartialEq, Eq, Structural)]
pub enum RendererMode {
    Image,
    Shader,
}

/// The file format of rendered images.
#[derive(Debug, Clone, Copy, PartialEq, Eq, Structural)]
pub enum OutputFormat {
    Png,
    Jpg,
}

/// The part of the desktop that a shader covers.
#[derive(Debug, Clone, Copy, PartialEq, Eq, Structural)]
pub enum ShaderDesktopScope {
    Virtual,
    Primary,
}

/// The color space that a shader renders in.
#[derive(Debug, Clone, Copy, PartialEq, Eq, Structural)]
pub enum ShaderColorSpace {
    Unorm,
    Srgb,
}

/// One place that wallpapers come from. Paths are held as text.
#[derive(Debug, Clone)]
pub enum SourceConfig {
    File { path: String },
    Directory { path: String, recursive: bool, extensions: Option<Vec<String>> },
    Rss { url: String, max_items: usize },
    Wallhaven {
        query: Option<String>,
        categories: Option<String>,
        purity: Option<String>,
        sorting: Option<String>,
        top_range: Option<String>,
        atleast: Option<String>,
        max_items: usize,
        api_key: Option<String>,
    },
}

/// Image rotation; the timers are in seconds.
#[derive(Debug, Clone)]
pub struct ImageConfig {
    pub timer: u64,
    pub remote_update_timer: u64,
    pub format: OutputFormat,
    pub jpeg_quality: u8,
    pub sources: Vec<SourceConfig>,
}

/// The self updater; the interval is in seconds.
#[derive(Debug, Clone)]
pub struct UpdaterConfig {
    pub enabled: bool,
    pub check_interval: u64,
    pub feed_url: String,
}

/// The shader renderer.
#[derive(Debug, Clone)]
pub struct ShaderConfig {
    pub name: String,
    pub target_fps: u32,
    pub resolution: u32,
    pub mouse_enabled: bool,
    pub desktop_scope: ShaderDesktopScope,
    pub color_space: ShaderColorSpace,
}

/// The whole configuration.
#[derive(Debug, Clone)]
pub struct AuraConfig {
    pub renderer: RendererMode,
    pub image: ImageConfig,
    pub updater: UpdaterConfig,
    pub shader: Option<ShaderConfig>,
    pub log_level: String,
    pub cache_dir: String,
    pub state_file: String,
    pub proxy: Option<String>,
}

} // verus!
