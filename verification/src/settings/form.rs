//! What the settings window shows, and how configuration values become form values.

use crate::config::{
    AuraConfig, OutputFormat, RendererMode, ShaderColorSpace, ShaderDesktopScope, SourceConfig,
};
use crate::text::{decimal_text, join, same_text, split};
use vstd::prelude::*;
use vstd::string::*;

verus! {

/// The Wallhaven part of the settings window.
#[derive(Debug, Clone)]
pub struct WallhavenForm {
    pub enabled: bool,
    pub query: String,
    pub cat_general: bool,
    pub cat_people: bool,
    pub cat_anime: bool,
    pub purity_sfw: bool,
    pub purity_sketchy: bool,
    pub purity_nsfw: bool,
    pub sorting_index: i32,
    pub top_range_index: i32,
    pub atleast_index: i32,
    pub max_items: i32,
    pub api_key: String,
}

/// Every value that the settings window edits or shows.
#[derive(Debug, Clone)]
pub struct SettingsForm {
    pub renderer_index: i32,
    pub image_timer_secs: i32,
    pub remote_update_secs: i32,
    pub format_index: i32,
    pub jpeg_quality: i32,
    pub sources_summary: String,
    pub updater_enabled: bool,
    pub updater_interval_secs: i32,
    pub feed_url: String,
    pub shader_name: String,
    pub shader_fps: i32,
    pub shader_resolution: i32,
    pub shader_mouse_enabled: bool,
    pub shader_scope_index: i32,
    pub shader_color_space_index: i32,
    pub log_level_index: i32,
    pub cache_dir: String,
    pub state_file: String,
    pub proxy_url: String,
    pub wallhaven: WallhavenForm,
}

pub open spec fn renderer_name(index: i32) -> Seq<char> {
    if index == 1 {
        "shader"@
    } else {
        "image"@
    }
}

/// The configuration keyword of a renderer choice.
pub fn renderer_str(index: i32) -> (r: &'static str)
    ensures
        r@ == renderer_name(index),
{
    match index {
        1 => "shader",
        _ => "image",
    }
}

pub open spec fn format_name(index: i32) -> Seq<char> {
    if index == 1 {
        "jpg"@
    } else {
        "png"@
    }
}

/// The configuration keyword of an output format choice.
pub fn format_str(index: i32) -> (r: &'static str)
    ensures
        r@ == format_name(index),
{
    match index {
        1 => "jpg",
        _ => "png",
    }
}

pub open spec fn scope_name(index: i32) -> Seq<char> {
    if index == 1 {
        "primary"@
    } else {
        "virtual"@
    }
}

/// The configuration keyword of a shader scope choice.
pub fn scope_str(index: i32) -> (r: &'static str)
    ensures
        r@ == scope_name(index),
{
    match index {
        1 => "primary",
        _ => "virtual",
    }
}

pub open spec fn color_space_name(index: i32) -> Seq<char> {
    if index == 1 {
        "srgb"@
    } else {
        "unorm"@
    }
}

/// The configuration keyword of a color space choice.
pub fn color_space_str(index: i32) -> (r: &'static str)
    ensures
        r@ == color_space_name(index),
{
    match index {
        1 => "srgb",
        _ => "unorm",
    }
}

pub open spec fn log_level_name(index: i32) -> Seq<char> {
    if index == 0 {
        "error"@
    } else if index == 1 {
        "warn"@
    } else if index == 3 {
        "debug"@
    } else if index == 4 {
        "trace"@
    } else {
        "info"@
    }
}

/// The configuration keyword of a log level choice.
pub fn log_level_str(index: i32) -> (r: &'static str)
    ensures
        r@ == log_level_name(index),
{
    match index {
        0 => "error",
        1 => "warn",
        3 => "debug",
        4 => "trace",
        _ => "info",
    }
}

pub open spec fn log_level_choice(level: Seq<char>) -> i32 {
    if level == "error"@ {
        0
    } else if level == "warn"@ {
        1
    } else if level == "debug"@ {
        3
    } else if level == "trace"@ {
        4
    } else {
        2
    }
}

/// The choice for a log level; an unknown level counts as `info`.
pub fn log_level_index(level: &str) -> (r: i32)
    ensures
        r == log_level_choice(level@),
{
    if same_text(level, "error") {
        0
    } else if same_text(level, "warn") {
        1
    } else if same_text(level, "debug") {
        3
    } else if same_text(level, "trace") {
        4
    } else {
        2
    }
}

pub open spec fn sorting_name(index: i32) -> Seq<char> {
    if index == 1 {
        "relevance"@
    } else if index == 2 {
        "random"@
    } else if index == 3 {
        "views"@
    } else if index == 4 {
        "favorites"@
    } else if index == 5 {
        "toplist"@
    } else {
        "date_added"@
    }
}

/// The Wallhaven keyword of a sorting choice.
pub fn sorting_str(index: i32) -> (r: &'static str)
    ensures
        r@ == sorting_name(index),
{
    match index {
        1 => "relevance",
        2 => "random",
        3 => "views",
        4 => "favorites",
        5 => "toplist",
        _ => "date_added",
    }
}

pub open spec fn sorting_choice(sorting: Option<Seq<char>>) -> i32 {
    if sorting == Some("relevance"@) {
        1
    } else if sorting == Some("random"@) {
        2
    } else if sorting == Some("views"@) {
        3
    } else if sorting == Some("favorites"@) {
        4
    } else if sorting == Some("toplist"@) {
        5
    } else {
        0
    }
}

pub open spec fn top_range_name(index: i32) -> Seq<char> {
    if index == 0 {
        "1d"@
    } else if index == 1 {
        "3d"@
    } else if index == 2 {
        "1w"@
    } else if index == 4 {
        "3M"@
    } else if index == 5 {
        "6M"@
    } else if index == 6 {
        "1y"@
    } else {
        "1M"@
    }
}

/// The Wallhaven keyword of a toplist range choice.
pub fn top_range_str(index: i32) -> (r: &'static str)
    ensures
        r@ == top_range_name(index),
{
    match index {
        0 => "1d",
        1 => "3d",
        2 => "1w",
        4 => "3M",
        5 => "6M",
        6 => "1y",
        _ => "1M",
    }
}

pub open spec fn top_range_choice(top_range: Option<Seq<char>>) -> i32 {
    if top_range == Some("1d"@) {
        0
    } else if top_range == Some("3d"@) {
        1
    } else if top_range == Some("1w"@) {
        2
    } else if top_range == Some("3M"@) {
        4
    } else if top_range == Some("6M"@) {
        5
    } else if top_range == Some("1y"@) {
        6
    } else {
        3
    }
}

pub open spec fn atleast_name(index: i32) -> Seq<char> {
    if index == 1 {
        "1920x1080"@
    } else if index == 2 {
        "2560x1440"@
    } else if index == 3 {
        "3840x2160"@
    } else {
        ""@
    }
}

/// The Wallhaven keyword of a minimum resolution choice, empty for no minimum.
pub fn atleast_str(index: i32) -> (r: &'static str)
    ensures
        r@ == atleast_name(index),
{
    match index {
        1 => "1920x1080",
        2 => "2560x1440",
        3 => "3840x2160",
        _ => "",
    }
}

pub open spec fn atleast_choice(atleast: Option<Seq<char>>) -> i32 {
    if atleast == Some("1920x1080"@) {
        1
    } else if atleast == Some("2560x1440"@) {
        2
    } else if atleast == Some("3840x2160"@) {
        3
    } else {
        0
    }
}

/// Whether an optional text is there and equals `text`.
pub(crate) fn is_text(value: &Option<String>, text: &str) -> (r: bool)
    ensures
        r == (crate::text::opt_text(*value) == Some(text@)),
{
    match value {
        Some(value) => same_text(value.as_str(), text),
        None => false,
    }
}

/// The choice for a Wallhaven sorting.
pub fn sorting_index(sorting: &Option<String>) -> (r: i32)
    ensures
        r == sorting_choice(crate::text::opt_text(*sorting)),
{
    if is_text(sorting, "relevance") {
        1
    } else if is_text(sorting, "random") {
        2
    } else if is_text(sorting, "views") {
        3
    } else if is_text(sorting, "favorites") {
        4
    } else if is_text(sorting, "toplist") {
        5
    } else {
        0
    }
}

/// The choice for a toplist range.
pub fn top_range_index(top_range: &Option<String>) -> (r: i32)
    ensures
        r == top_range_choice(crate::text::opt_text(*top_range)),
{
    if is_text(top_range, "1d") {
        0
    } else if is_text(top_range, "3d") {
        1
    } else if is_text(top_range, "1w") {
        2
    } else if is_text(top_range, "3M") {
        4
    } else if is_text(top_range, "6M") {
        5
    } else if is_text(top_range, "1y") {
        6
    } else {
        3
    }
}

/// The choice for a minimum resolution.
pub fn atleast_index(atleast: &Option<String>) -> (r: i32)
    ensures
        r == atleast_choice(crate::text::opt_text(*atleast)),
{
    if is_text(atleast, "1920x1080") {
        1
    } else if is_text(atleast, "2560x1440") {
        2
    } else if is_text(atleast, "3840x2160") {
        3
    } else {
        0
    }
}

pub open spec fn i32_seconds(secs: u64) -> i32 {
    if secs > i32::MAX {
        i32::MAX
    } else {
        secs as i32
    }
}

/// A number of seconds as the form shows it, capped at the largest `i32`.
pub fn secs_to_i32(secs: u64) -> (r: i32)
    ensures
        r == i32_seconds(secs),
{
    if secs > i32::MAX as u64 {
        i32::MAX
    } else {
        secs as i32
    }
}

/// The names of a comma separated list: trimmed, in lower case, without empty ones.
pub open spec fn list_names(value: Option<Seq<char>>) -> Seq<Seq<char>> {
    match value {
        Some(text) => crate::text::split_on(text, ',').map_values(
            |part: Seq<char>| crate::text::ascii_lowered(crate::text::trimmed(part)),
        ).filter(|part: Seq<char>| part.len() > 0),
        None => Seq::<Seq<char>>::empty(),
    }
}

/// Splits a comma separated list into its names.
pub fn parse_list(value: &Option<String>) -> (r: Vec<String>)
    ensures
        crate::text::texts(r@) == list_names(crate::text::opt_text(*value)),
{
    let mut r: Vec<String> = Vec::new();
    match value {
        None => {
            assert(crate::text::texts(r@) =~= Seq::<Seq<char>>::empty());
            r
        },
        Some(text) => {
            let parts = split(text.as_str(), ',');
            let ghost lower = |part: Seq<char>|
                crate::text::ascii_lowered(crate::text::trimmed(part));
            let ghost names = crate::text::split_on(text@, ',').map_values(lower);
            let ghost kept = |part: Seq<char>| part.len() > 0;
            let mut i: usize = 0;
            assert(names.take(0) =~= Seq::<Seq<char>>::empty());
            proof {
                reveal(Seq::filter);
            }
            assert(crate::text::texts(r@) =~= Seq::<Seq<char>>::empty());
            while i < parts.len()
                invariant
                    i <= parts@.len(),
                    crate::text::texts(parts@) == crate::text::split_on(text@, ','),
                    lower == (|part: Seq<char>|
                        crate::text::ascii_lowered(crate::text::trimmed(part))),
                    kept == (|part: Seq<char>| part.len() > 0),
                    names == crate::text::split_on(text@, ',').map_values(lower),
                    crate::text::texts(r@) == names.take(i as int).filter(kept),
                decreases parts@.len() - i,
            {
                let name = parts[i].as_str().trim().to_ascii_lowercase();
                proof {
                    reveal(Seq::filter);
                    assert(names.take(i + 1).drop_last() =~= names.take(i as int));
                    assert(crate::text::texts(parts@)[i as int] == parts@[i as int]@);
                    assert(name@ == names[i as int]);
                }
                let ghost before = crate::text::texts(r@);
                if !name.as_str().is_empty() {
                    r.push(name);
                    assert(crate::text::texts(r@) =~= before.push(name@));
                }
                i += 1;
            }
            assert(names.take(i as int) =~= names);
            r
        },
    }
}

/// Whether a list holds a name.
pub(crate) fn list_has(list: &Vec<String>, name: &str) -> (r: bool)
    ensures
        r == crate::text::texts(list@).contains(name@),
{
    let mut i: usize = 0;
    while i < list.len()
        invariant
            i <= list@.len(),
            forall|j: int| 0 <= j < i ==> crate::text::texts(list@)[j] != name@,
        decreases list@.len() - i,
    {
        if same_text(list[i].as_str(), name) {
            assert(crate::text::texts(list@)[i as int] == name@);
            return true;
        }
        i += 1;
    }
    false
}

/// The first Wallhaven source, if there is one.
pub open spec fn first_wallhaven(sources: Seq<SourceConfig>) -> Option<SourceConfig>
    decreases sources.len(),
{
    if sources.len() == 0 {
        None
    } else if sources[0] is Wallhaven {
        Some(sources[0])
    } else {
        first_wallhaven(sources.skip(1))
    }
}

/// Whether the Wallhaven part of the form shows `sources`: the first Wallhaven source, or the
/// defaults of a disabled source.
pub open spec fn shows_wallhaven(form: WallhavenForm, sources: Seq<SourceConfig>) -> bool {
    match first_wallhaven(sources) {
        Some(
            SourceConfig::Wallhaven {
                query,
                categories,
                purity,
                sorting,
                top_range,
                atleast,
                max_items,
                api_key,
            },
        ) => {
            let cats = list_names(crate::text::opt_text(categories));
            let purities = list_names(crate::text::opt_text(purity));
            &&& form.enabled
            &&& form.query@ == crate::text::text_or(query, Seq::<char>::empty())
            &&& form.cat_general == cats.contains("general"@)
            &&& form.cat_people == cats.contains("people"@)
            &&& form.cat_anime == cats.contains("anime"@)
            &&& form.purity_sfw == purities.contains("sfw"@)
            &&& form.purity_sketchy == purities.contains("sketchy"@)
            &&& form.purity_nsfw == purities.contains("nsfw"@)
            &&& form.sorting_index == sorting_choice(crate::text::opt_text(sorting))
            &&& form.top_range_index == top_range_choice(crate::text::opt_text(top_range))
            &&& form.atleast_index == atleast_choice(crate::text::opt_text(atleast))
            &&& form.max_items == if max_items > 1000 {
                1000int
            } else {
                max_items as int
            }
            &&& form.api_key@ == crate::text::text_or(api_key, Seq::<char>::empty())
        },
        _ => {
            &&& !form.enabled
            &&& form.query@ == Seq::<char>::empty()
            &&& form.cat_general && form.cat_people && form.cat_anime
            &&& form.purity_sfw && !form.purity_sketchy && !form.purity_nsfw
            &&& form.sorting_index == 0
            &&& form.top_range_index == 3
            &&& form.atleast_index == 0
            &&& form.max_items == 24
            &&& form.api_key@ == Seq::<char>::empty()
        },
    }
}

/// A copy of an optional text, empty where it is absent.
pub(crate) fn text_or_empty(value: &Option<String>) -> (r: String)
    ensures
        r@ == crate::text::text_or(*value, Seq::<char>::empty()),
{
    match value {
        Some(text) => text.clone(),
        None => String::new(),
    }
}

/// The form values of the Wallhaven part for a list of sources.
pub fn wallhaven_form(sources: &Vec<SourceConfig>) -> (r: WallhavenForm)
    ensures
        shows_wallhaven(r, sources@),
{
    let mut i: usize = 0;
    assert(sources@.skip(0) =~= sources@);
    while i < sources.len()
        invariant
            i <= sources@.len(),
            first_wallhaven(sources@) == first_wallhaven(sources@.skip(i as int)),
        decreases sources@.len() - i,
    {
        assert(sources@.skip(i as int).skip(1) =~= sources@.skip(i + 1));
        match &sources[i] {
            SourceConfig::Wallhaven {
                query,
                categories,
                purity,
                sorting,
                top_range,
                atleast,
                max_items,
                api_key,
            } => {
                let cats = parse_list(categories);
                let purities = parse_list(purity);
                return WallhavenForm {
                    enabled: true,
                    query: text_or_empty(query),
                    cat_general: list_has(&cats, "general"),
                    cat_people: list_has(&cats, "people"),
                    cat_anime: list_has(&cats, "anime"),
                    purity_sfw: list_has(&purities, "sfw"),
                    purity_sketchy: list_has(&purities, "sketchy"),
                    purity_nsfw: list_has(&purities, "nsfw"),
                    sorting_index: sorting_index(sorting),
                    top_range_index: top_range_index(top_range),
                    atleast_index: atleast_index(atleast),
                    max_items: if *max_items > 1000 {
                        1000
                    } else {
                        *max_items as i32
                    },
                    api_key: text_or_empty(api_key),
                };
            },
            _ => {},
        }
        i += 1;
    }
    WallhavenForm {
        enabled: false,
        query: String::new(),
        cat_general: true,
        cat_people: true,
        cat_anime: true,
        purity_sfw: true,
        purity_sketchy: false,
        purity_nsfw: false,
        sorting_index: 0,
        top_range_index: 3,
        atleast_index: 0,
        max_items: 24,
        api_key: String::new(),
    }
}

/// Whether two forms agree outside of the Wallhaven part.
pub open spec fn same_apart_from_wallhaven(a: SettingsForm, b: SettingsForm) -> bool {
    a == (SettingsForm { wallhaven: a.wallhaven, ..b })
}

/// Shows the Wallhaven source of a configuration in the form.
pub fn fill_wallhaven_from_config(form: &mut SettingsForm, config: &AuraConfig)
    ensures
        same_apart_from_wallhaven(*final(form), *old(form)),
        shows_wallhaven(final(form).wallhaven, config.image.sources@),
{
    form.wallhaven = wallhaven_form(&config.image.sources);
}

pub open spec fn renderer_choice(renderer: RendererMode) -> i32 {
    match renderer {
        RendererMode::Image => 0,
        RendererMode::Shader => 1,
    }
}

pub open spec fn format_choice(format: OutputFormat) -> i32 {
    match format {
        OutputFormat::Png => 0,
        OutputFormat::Jpg => 1,
    }
}

pub open spec fn scope_choice(scope: ShaderDesktopScope) -> i32 {
    match scope {
        ShaderDesktopScope::Virtual => 0,
        ShaderDesktopScope::Primary => 1,
    }
}

pub open spec fn color_space_choice(color_space: ShaderColorSpace) -> i32 {
    match color_space {
        ShaderColorSpace::Unorm => 0,
        ShaderColorSpace::Srgb => 1,
    }
}

/// Whether the shader part of the form shows the shader of a configuration; without one it is
/// as in `before`.
pub open spec fn shows_shader(
    form: SettingsForm,
    before: SettingsForm,
    config: AuraConfig,
) -> bool {
    match config.shader {
        Some(shader) => {
            &&& form.shader_name@ == shader.name@
            &&& form.shader_fps == shader.target_fps as i32
            &&& form.shader_resolution == shader.resolution as i32
            &&& form.shader_mouse_enabled == shader.mouse_enabled
            &&& form.shader_scope_index == scope_choice(shader.desktop_scope)
            &&& form.shader_color_space_index == color_space_choice(shader.color_space)
        },
        None => {
            &&& form.shader_name == before.shader_name
            &&& form.shader_fps == before.shader_fps
            &&& form.shader_resolution == before.shader_resolution
            &&& form.shader_mouse_enabled == before.shader_mouse_enabled
            &&& form.shader_scope_index == before.shader_scope_index
            &&& form.shader_color_space_index == before.shader_color_space_index
        },
    }
}

/// Whether the form shows a configuration. What it showed `before` stays where the
/// configuration says nothing.
pub open spec fn shows_config(
    form: SettingsForm,
    before: SettingsForm,
    config: AuraConfig,
) -> bool {
    &&& form.renderer_index == renderer_choice(config.renderer)
    &&& form.image_timer_secs == i32_seconds(config.image.timer)
    &&& form.remote_update_secs == i32_seconds(config.image.remote_update_timer)
    &&& form.format_index == format_choice(config.image.format)
    &&& form.jpeg_quality == config.image.jpeg_quality
    &&& form.sources_summary@ == summary(config.image.sources@)
    &&& form.updater_enabled == config.updater.enabled
    &&& form.updater_interval_secs == i32_seconds(config.updater.check_interval)
    &&& form.feed_url@ == config.updater.feed_url@
    &&& shows_shader(form, before, config)
    &&& form.log_level_index == log_level_choice(config.log_level@)
    &&& form.cache_dir@ == config.cache_dir@
    &&& form.state_file@ == config.state_file@
    &&& form.proxy_url@ == crate::text::text_or(config.proxy, Seq::<char>::empty())
    &&& shows_wallhaven(form.wallhaven, config.image.sources@)
}

/// Shows a configuration in the form.
pub fn fill_ui_from_config(form: &mut SettingsForm, config: &AuraConfig)
    ensures
        shows_config(*final(form), *old(form), *config),
{
    form.renderer_index = match config.renderer {
        RendererMode::Image => 0,
        RendererMode::Shader => 1,
    };
    form.image_timer_secs = secs_to_i32(config.image.timer);
    form.remote_update_secs = secs_to_i32(config.image.remote_update_timer);
    form.format_index = match config.image.format {
        OutputFormat::Png => 0,
        OutputFormat::Jpg => 1,
    };
    form.jpeg_quality = config.image.jpeg_quality as i32;
    form.sources_summary = source_summary(&config.image.sources);
    form.updater_enabled = config.updater.enabled;
    form.updater_interval_secs = secs_to_i32(config.updater.check_interval);
    form.feed_url = config.updater.feed_url.clone();
    if let Some(shader) = &config.shader {
        form.shader_name = shader.name.clone();
        form.shader_fps = shader.target_fps as i32;
        form.shader_resolution = shader.resolution as i32;
        form.shader_mouse_enabled = shader.mouse_enabled;
        form.shader_scope_index = match shader.desktop_scope {
            ShaderDesktopScope::Virtual => 0,
            ShaderDesktopScope::Primary => 1,
        };
        form.shader_color_space_index = match shader.color_space {
            ShaderColorSpace::Unorm => 0,
            ShaderColorSpace::Srgb => 1,
        };
    }
    form.log_level_index = log_level_index(config.log_level.as_str());
    form.cache_dir = config.cache_dir.clone();
    form.state_file = config.state_file.clone();
    form.proxy_url = text_or_empty(&config.proxy);
    fill_wallhaven_from_config(form, config);
}

/// The extension list of a directory source in brackets.
pub open spec fn extension_note(extensions: Option<Vec<String>>) -> Seq<char> {
    match extensions {
        Some(values) => " ("@ + crate::text::joined(crate::text::texts(values@), ", "@) + ")"@,
        None => Seq::<char>::empty(),
    }
}

/// The line that describes the source with the given number.
pub open spec fn source_line(number: nat, source: SourceConfig) -> Seq<char> {
    match source {
        SourceConfig::File { path } => crate::text::decimal(number) + ". 文件: "@ + path@,
        SourceConfig::Directory { path, recursive, extensions } => crate::text::decimal(number)
            + ". 目录: "@ + path@ + extension_note(extensions) + "（递归: "@ + (if recursive {
            "是"@
        } else {
            "否"@
        }) + "）"@,
        SourceConfig::Rss { url, max_items } => crate::text::decimal(number) + ". RSS: "@ + url@
            + "（最多 "@ + crate::text::decimal(max_items as nat) + " 项）"@,
        SourceConfig::Wallhaven { query, categories, purity, sorting, max_items, .. } =>
        crate::text::decimal(number) + ". Wallhaven: "@ + shown_query(query) + "（"@
            + crate::text::text_or(categories, "全部"@) + " / "@ + crate::text::text_or(
            purity,
            "sfw"@,
        ) + " / "@ + crate::text::text_or(sorting, "date_added"@) + "，最多 "@
            + crate::text::decimal(max_items as nat) + " 项）"@,
    }
}

/// The query of a Wallhaven source as the summary shows it.
pub open spec fn shown_query(query: Option<String>) -> Seq<char> {
    let text = crate::text::text_or(query, Seq::<char>::empty());
    if text.len() == 0 {
        "全部"@
    } else {
        text
    }
}

/// The lines for `sources`, numbered from one.
pub open spec fn source_lines(sources: Seq<SourceConfig>) -> Seq<Seq<char>> {
    Seq::new(sources.len(), |i: int| source_line((i + 1) as nat, sources[i]))
}

/// The summary of `sources`: a line each, or a remark that there are none.
pub open spec fn summary(sources: Seq<SourceConfig>) -> Seq<char> {
    if sources.len() == 0 {
        "（无来源）"@
    } else {
        crate::text::joined(source_lines(sources), "\n"@)
    }
}

fn describe_source(number: u64, source: &SourceConfig) -> (r: String)
    ensures
        r@ == source_line(number as nat, *source),
{
    let mut line = decimal_text(number);
    match source {
        SourceConfig::File { path } => {
            line.append(". 文件: ");
            line.append(path.as_str());
        },
        SourceConfig::Directory { path, recursive, extensions } => {
            line.append(". 目录: ");
            line.append(path.as_str());
            let mut note = String::new();
            if let Some(values) = extensions {
                note.append(" (");
                note.append(join(values, ", ").as_str());
                note.append(")");
                assert(note@ =~= extension_note(*extensions));
            }
            line.append(note.as_str());
            line.append("（递归: ");
            line.append(
                if *recursive {
                    "是"
                } else {
                    "否"
                },
            );
            line.append("）");
        },
        SourceConfig::Rss { url, max_items } => {
            line.append(". RSS: ");
            line.append(url.as_str());
            line.append("（最多 ");
            line.append(decimal_text(*max_items as u64).as_str());
            line.append(" 项）");
        },
        SourceConfig::Wallhaven { query, categories, purity, sorting, max_items, .. } => {
            line.append(". Wallhaven: ");
            let text = text_or_empty(query);
            if text.as_str().is_empty() {
                line.append("全部");
            } else {
                line.append(text.as_str());
            }
            line.append("（");
            line.append(text_or_default(categories, "全部"));
            line.append(" / ");
            line.append(text_or_default(purity, "sfw"));
            line.append(" / ");
            line.append(text_or_default(sorting, "date_added"));
            line.append("，最多 ");
            line.append(decimal_text(*max_items as u64).as_str());
            line.append(" 项）");
        },
    }
    line
}

/// An optional text, or a default where it is absent.
pub(crate) fn text_or_default<'a>(value: &'a Option<String>, default: &'a str) -> (r: &'a str)
    ensures
        r@ == crate::text::text_or(*value, default@),
{
    match value {
        Some(text) => text.as_str(),
        None => default,
    }
}

/// Describes the configured sources, one line each.
pub fn source_summary(sources: &Vec<SourceConfig>) -> (r: String)
    ensures
        r@ == summary(sources@),
{
    if sources.len() == 0 {
        return "（无来源）".to_owned();
    }
    let mut lines: Vec<String> = Vec::new();
    let mut i: usize = 0;
    while i < sources.len()
        invariant
            i <= sources.len(),
            crate::text::texts(lines@) == source_lines(sources@).take(i as int),
        decreases sources@.len() - i,
    {
        let line = describe_source(i as u64 + 1, &sources[i]);
        let ghost before = crate::text::texts(lines@);
        lines.push(line);
        assert(crate::text::texts(lines@) =~= before.push(line@));
        assert(source_lines(sources@).take(i + 1) =~= source_lines(sources@).take(i as int).push(
            line@,
        ));
        i += 1;
    }
    assert(source_lines(sources@).take(i as int) =~= source_lines(sources@));
    join(&lines, "\n")
}

} // verus!
