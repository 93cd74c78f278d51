use aura::config::{
    AuraConfig, ImageConfig, OutputFormat, RendererMode, ShaderColorSpace, ShaderConfig,
    ShaderDesktopScope, SourceConfig, UpdaterConfig,
};
use aura::settings::form::{
    atleast_index, atleast_str, color_space_str, fill_ui_from_config, fill_wallhaven_from_config,
    format_str, log_level_index, log_level_str, parse_list, renderer_str, scope_str, secs_to_i32,
    sorting_index, sorting_str, source_summary, top_range_index, top_range_str, wallhaven_form,
    SettingsForm, WallhavenForm,
};
use aura::settings::save::{apply_form, save_config_from_ui, save_wallhaven_to_root};
use aura::settings::window::{file_opened, opened, reloaded, saved};
use aura::settings::{
    ensure_object, set_in_object_bool, set_in_object_number, set_in_object_string,
    set_object_bool, set_object_number, set_object_string, SettingsError,
};
use aura::sources::wallhaven::{normalize_categories, normalize_purity};

fn field<'a>(root: &'a hcl::Value, path: &[&str]) -> Option<&'a hcl::Value> {
    let mut current = root;
    for key in path {
        current = current.as_object()?.get(*key)?;
    }
    Some(current)
}

#[test]
fn hcl_roundtrip_updates_fields_and_preserves_unknown_keys() {
    let text = r#"
renderer = "image"

image {
    timer = 300
    remoteUpdateTimer = 3600
    format = "png"
    jpeg_quality = 90
    sources = [
        {
            type = "directory"
            path = "C:/Pictures"
            recursive = true
        }
    ]
    custom_unknown = "keep-me"
}

updater {
    enabled = true
    checkInterval = 21600
    feedUrl = "https://example.com/feed"
}

log_level = "info"
unknown_root_key = 42
"#;
    let mut root: hcl::Value = hcl::from_str(text).expect("parse should succeed");
    set_object_string(&mut root, "", "renderer", "shader").expect("set renderer");
    set_object_number(&mut root, "image", "timer", 600).expect("set timer");
    set_object_string(&mut root, "image", "format", "jpg").expect("set format");
    set_object_bool(&mut root, "updater", "enabled", false).expect("set updater");
    set_object_string(&mut root, "", "log_level", "debug").expect("set log level");
    let shader = ensure_object(&mut root, "shader").expect("ensure shader");
    set_in_object_string(shader, "name", "silk").expect("set shader name");
    set_in_object_number(shader, "target_fps", 30).expect("set shader fps");

    let out = hcl::to_string(&root).expect("serialize should succeed");
    let reparsed: hcl::Value = hcl::from_str(&out).expect("reparse should succeed");

    assert_eq!(field(&reparsed, &["renderer"]).and_then(|v| v.as_str()), Some("shader"));
    assert_eq!(field(&reparsed, &["image", "timer"]).and_then(|v| v.as_u64()), Some(600));
    assert_eq!(field(&reparsed, &["image", "format"]).and_then(|v| v.as_str()), Some("jpg"));
    assert_eq!(
        field(&reparsed, &["image", "custom_unknown"]).and_then(|v| v.as_str()),
        Some("keep-me"),
        "unknown image key must survive a round trip"
    );
    assert_eq!(
        field(&reparsed, &["updater", "enabled"]).and_then(|v| v.as_bool()),
        Some(false)
    );
    assert_eq!(field(&reparsed, &["log_level"]).and_then(|v| v.as_str()), Some("debug"));
    assert_eq!(field(&reparsed, &["shader", "name"]).and_then(|v| v.as_str()), Some("silk"));
    assert_eq!(
        field(&reparsed, &["shader", "target_fps"]).and_then(|v| v.as_u64()),
        Some(30)
    );
    assert_eq!(field(&reparsed, &["unknown_root_key"]).and_then(|v| v.as_u64()), Some(42));
    assert!(field(&reparsed, &["image", "sources"]).is_some_and(|v| v.is_array()));
}

fn find_wallhaven_entry<'a>(root: &'a hcl::Value) -> Option<&'a hcl::Map<String, hcl::Value>> {
    let sources = root.as_object()?.get("image")?.as_object()?.get("sources")?.as_array()?;
    sources.iter().find_map(|value| {
        let map = value.as_object()?;
        if map.get("type")?.as_str() == Some("wallhaven") {
            Some(map)
        } else {
            None
        }
    })
}

fn wallhaven(enabled: bool) -> WallhavenForm {
    WallhavenForm {
        enabled,
        query: "aurora".to_string(),
        cat_general: true,
        cat_people: false,
        cat_anime: true,
        purity_sfw: true,
        purity_sketchy: false,
        purity_nsfw: false,
        sorting_index: 5,
        top_range_index: 3,
        atleast_index: 1,
        max_items: 10,
        api_key: String::new(),
    }
}

#[test]
fn wallhaven_save_writes_entry_when_enabled() {
    let mut ui = wallhaven(true);
    let mut root: hcl::Value = hcl::from_str(
        r#"image = { sources = [ { type = "rss", url = "https://example.com/feed" } ] }"#,
    )
    .expect("parse should succeed");
    save_wallhaven_to_root(&mut root, &ui).expect("save should succeed");

    let entry = find_wallhaven_entry(&root).expect("wallhaven entry should exist");
    assert_eq!(entry.get("type").and_then(|v| v.as_str()), Some("wallhaven"));
    assert_eq!(entry.get("query").and_then(|v| v.as_str()), Some("aurora"));
    assert_eq!(entry.get("categories").and_then(|v| v.as_str()), Some("general,anime"));
    assert_eq!(entry.get("purity").and_then(|v| v.as_str()), Some("sfw"));
    assert_eq!(entry.get("sorting").and_then(|v| v.as_str()), Some("toplist"));
    assert_eq!(entry.get("topRange").and_then(|v| v.as_str()), Some("1M"));
    assert_eq!(entry.get("atleast").and_then(|v| v.as_str()), Some("1920x1080"));
    assert_eq!(entry.get("maxItems").and_then(|v| v.as_u64()), Some(10));
    assert!(!entry.contains_key("apiKey"));

    // RSS entry must be untouched
    let sources = root
        .as_object()
        .and_then(|m| m.get("image"))
        .and_then(|m| m.as_object())
        .and_then(|m| m.get("sources"))
        .and_then(|v| v.as_array())
        .expect("sources array");
    assert_eq!(sources.len(), 2);

    // now disable: wallhaven entry is removed, rss stays
    ui.enabled = false;
    save_wallhaven_to_root(&mut root, &ui).expect("save should succeed");
    assert!(find_wallhaven_entry(&root).is_none());
    let sources = root
        .as_object()
        .and_then(|m| m.get("image"))
        .and_then(|m| m.as_object())
        .and_then(|m| m.get("sources"))
        .and_then(|v| v.as_array())
        .expect("sources array");
    assert_eq!(sources.len(), 1);
    assert_eq!(
        sources[0].as_object().and_then(|m| m.get("type")).and_then(|v| v.as_str()),
        Some("rss")
    );
}

#[test]
fn existing_wallhaven_entry_is_updated_in_place() {
    let mut root: hcl::Value = hcl::from_str(
        r#"image = { sources = [
            { type = "file", path = "a.png" },
            { type = "wallhaven", topRange = "1y", apiKey = "old", note = "mine", query = "x" },
            { type = "rss", url = "https://example.com" },
            { type = "wallhaven", query = "second" }
        ] }"#,
    )
    .unwrap();
    let mut form = wallhaven(true);
    form.sorting_index = 1;
    form.query = "  ".to_string();
    form.cat_general = false;
    form.cat_anime = false;
    form.atleast_index = 0;
    form.max_items = 5000;
    save_wallhaven_to_root(&mut root, &form).unwrap();
    let sources = field(&root, &["image", "sources"]).unwrap().as_array().unwrap();
    assert_eq!(sources.len(), 3);
    let kinds: Vec<&str> = sources
        .iter()
        .map(|source| field(source, &["type"]).unwrap().as_str().unwrap())
        .collect();
    assert_eq!(kinds, vec!["file", "wallhaven", "rss"]);
    let entry = sources[1].as_object().unwrap();
    assert_eq!(entry.get("note").and_then(|v| v.as_str()), Some("mine"));
    assert_eq!(entry.get("sorting").and_then(|v| v.as_str()), Some("relevance"));
    assert_eq!(entry.get("maxItems").and_then(|v| v.as_u64()), Some(1000));
    assert_eq!(entry.get("purity").and_then(|v| v.as_str()), Some("sfw"));
    for gone in ["topRange", "apiKey", "query", "categories", "atleast"] {
        assert!(!entry.contains_key(gone), "{gone}");
    }
}

#[test]
fn disabled_wallhaven_adds_nothing() {
    let mut root: hcl::Value = hcl::from_str("image {}\n").unwrap();
    save_wallhaven_to_root(&mut root, &wallhaven(false)).unwrap();
    assert!(field(&root, &["image", "sources"]).is_none());
    save_wallhaven_to_root(&mut root, &wallhaven(true)).unwrap();
    assert_eq!(field(&root, &["image", "sources"]).unwrap().as_array().unwrap().len(), 1);
}

fn form() -> SettingsForm {
    SettingsForm {
        renderer_index: 1,
        image_timer_secs: 60,
        remote_update_secs: 120,
        format_index: 1,
        jpeg_quality: 80,
        sources_summary: String::new(),
        updater_enabled: true,
        updater_interval_secs: 7200,
        feed_url: "https://example.com/feed".to_string(),
        shader_name: "silk".to_string(),
        shader_fps: 30,
        shader_resolution: 100,
        shader_mouse_enabled: false,
        shader_scope_index: 1,
        shader_color_space_index: 1,
        log_level_index: 3,
        cache_dir: String::new(),
        state_file: String::new(),
        proxy_url: "  http://localhost:8080 ".to_string(),
        wallhaven: wallhaven(true),
    }
}

fn text_at<'a>(root: &'a hcl::Value, path: &[&str]) -> Option<&'a str> {
    field(root, path).and_then(|value| value.as_str())
}

#[test]
fn the_whole_form_is_saved() {
    let text = r#"
other = [1, 2.5, null, { a = "b" }]
proxy = "old"
image {
    mine = true
    sources = []
}
block "label" {
    x = 1
}
"#;
    let saved = save_config_from_ui(&form(), text).unwrap();
    let root: hcl::Value = hcl::from_str(&saved).unwrap();
    assert_eq!(text_at(&root, &["renderer"]), Some("shader"));
    assert_eq!(text_at(&root, &["log_level"]), Some("debug"));
    assert_eq!(text_at(&root, &["proxy"]), Some("http://localhost:8080"));
    assert_eq!(field(&root, &["image", "timer"]).unwrap().as_u64(), Some(60));
    assert_eq!(field(&root, &["image", "remoteUpdateTimer"]).unwrap().as_u64(), Some(120));
    assert_eq!(text_at(&root, &["image", "format"]), Some("jpg"));
    assert_eq!(field(&root, &["image", "jpeg_quality"]).unwrap().as_u64(), Some(80));
    assert_eq!(field(&root, &["image", "mine"]).unwrap().as_bool(), Some(true));
    assert_eq!(text_at(&root, &["shader", "name"]), Some("silk"));
    assert_eq!(field(&root, &["shader", "target_fps"]).unwrap().as_u64(), Some(30));
    assert_eq!(field(&root, &["shader", "resolution"]).unwrap().as_u64(), Some(100));
    assert_eq!(field(&root, &["shader", "mouse_enabled"]).unwrap().as_bool(), Some(false));
    assert_eq!(text_at(&root, &["shader", "desktop_scope"]), Some("primary"));
    assert_eq!(text_at(&root, &["shader", "color_space"]), Some("srgb"));
    assert_eq!(field(&root, &["updater", "enabled"]).unwrap().as_bool(), Some(true));
    assert_eq!(field(&root, &["updater", "checkInterval"]).unwrap().as_u64(), Some(7200));
    assert_eq!(text_at(&root, &["updater", "feedUrl"]), Some("https://example.com/feed"));
    assert!(find_wallhaven_entry(&root).is_some());
    let before: hcl::Value = hcl::from_str(text).unwrap();
    assert_eq!(field(&root, &["other"]), field(&before, &["other"]));
    assert_eq!(field(&root, &["block"]), field(&before, &["block"]));
}

#[test]
fn saving_twice_changes_nothing() {
    let once = save_config_from_ui(&form(), "x = 1\n").unwrap();
    let twice = save_config_from_ui(&form(), &once).unwrap();
    assert_eq!(once, twice);
}

#[test]
fn an_empty_proxy_removes_the_key() {
    let mut form = form();
    form.proxy_url = " \t ".to_string();
    let saved = save_config_from_ui(&form, "proxy = \"http://old\"\nlast = 1\n").unwrap();
    let root: hcl::Value = hcl::from_str(&saved).unwrap();
    assert!(field(&root, &["proxy"]).is_none());
    assert_eq!(field(&root, &["last"]).unwrap().as_u64(), Some(1));
}

#[test]
fn saved_text_reads_back_as_the_saved_document() {
    let mut odd = form();
    odd.shader_name = "say \"hi\" \\ ${name} and %{if} $ % {} \u{1F600}\ttab\nline".to_string();
    odd.feed_url = "$%a$${b} $$${c}".to_string();
    odd.image_timer_secs = -5;
    odd.wallhaven.query = "${x}".to_string();
    odd.wallhaven.api_key = "back\\slash".to_string();
    let deep = format!("deep = {}1{}\n", "[".repeat(64), "]".repeat(64));
    let deep_objects = format!("deep = {}1{}\n", "{ a = ".repeat(64), " }".repeat(64));
    let texts = [
        "a = 1\n".to_string(),
        "f = [0.1, -2.5, 1e300, 12345678901234567890, -9223372036854775808, 0]\n".to_string(),
        "s = \"tab\\t quote\\\" uni\\u00e9 nl\\n $${a} %%{b}\"\n".to_string(),
        "o = { \"odd key\" = 1, plain = null, nested = { list = [[], {}] } }\n".to_string(),
        "größe = 1\n変数 = { größe = 2 }\n".to_string(),
        "s = \"$$$${a} $$$${b} $%$${c}\"\n".to_string(),
        "block \"größe\" { a = 1 }\n".to_string(),
        deep,
        deep_objects,
    ];
    for text in texts {
        for form in [&odd, &form()] {
            let before: hcl::Value = hcl::from_str(&text).unwrap();
            let expected = apply_form(before, form).unwrap();
            let saved = save_config_from_ui(form, &text).unwrap();
            let back: hcl::Value = hcl::from_str(&saved).unwrap();
            assert_eq!(back, expected, "{text}");
        }
    }
}

#[test]
fn documents_that_do_not_fit_are_refused() {
    let form = form();
    for text in ["= nothing", "a = \n", "a = 1\nb = [1,\n"] {
        let expected = hcl::from_str::<hcl::Value>(text).unwrap_err().to_string();
        let error = save_config_from_ui(&form, text).unwrap_err();
        assert_eq!(
            error.message("C:/aura.hcl"),
            format!("failed to parse config file C:/aura.hcl: {expected}")
        );
        match error {
            SettingsError::Unparsable { reason } => assert_eq!(reason, expected),
            other => panic!("unexpected {other:?}"),
        }
    }
    match save_config_from_ui(&form, "image = 3\n") {
        Err(SettingsError::NotAnObject { key }) => assert_eq!(key, "image"),
        other => panic!("unexpected {other:?}"),
    }
    match save_config_from_ui(&form, "updater = []\n") {
        Err(SettingsError::NotAnObject { key }) => assert_eq!(key, "updater"),
        other => panic!("unexpected {other:?}"),
    }
    assert!(matches!(
        save_config_from_ui(&form, "image = { sources = 1 }\n"),
        Err(SettingsError::SourcesNotArray)
    ));
    let mut list = hcl::Value::Array(Vec::new());
    assert!(matches!(
        apply_form(list.clone(), &form),
        Err(SettingsError::RootNotObject)
    ));
    assert!(matches!(
        set_object_number(&mut list, "", "a", 1),
        Err(SettingsError::RootNotObject)
    ));
}

#[test]
fn an_unprintable_document_is_refused() {
    // Only identifiers come from parsing, so the key is put in directly.
    let mut root: hcl::Value = hcl::from_str("a = 1\n").unwrap();
    root.as_object_mut().unwrap().insert("not an identifier".to_string(), hcl::Value::from(1));
    let reason = hcl::to_string(&root).unwrap_err().to_string();
    assert_eq!(
        SettingsError::Unprintable { reason: reason.clone() }.message("aura.hcl"),
        format!("failed to serialize config: {reason}")
    );
}

#[test]
fn objects_are_created_where_they_are_missing() {
    let mut root: hcl::Value = hcl::from_str("a = 1\n").unwrap();
    set_object_bool(&mut root, "new", "flag", true).unwrap();
    assert_eq!(field(&root, &["new", "flag"]).unwrap().as_bool(), Some(true));
    set_object_bool(&mut root, "", "flag", false).unwrap();
    assert_eq!(field(&root, &["flag"]).unwrap().as_bool(), Some(false));
    let map = ensure_object(&mut root, "new").unwrap();
    set_in_object_bool(map, "other", false).unwrap();
    assert_eq!(map.len(), 2);
    assert!(ensure_object(&mut root, "a").is_err());
    let keys: Vec<&String> = root.as_object().unwrap().keys().collect();
    assert_eq!(keys, vec!["a", "new", "flag"]);
}

#[test]
fn choices_read_back() {
    for index in 0..5 {
        assert_eq!(log_level_index(log_level_str(index)), index);
    }
    for index in 0..6 {
        assert_eq!(sorting_index(&Some(sorting_str(index).to_string())), index);
    }
    for index in 0..7 {
        assert_eq!(top_range_index(&Some(top_range_str(index).to_string())), index);
    }
    for index in 0..4 {
        assert_eq!(atleast_index(&Some(atleast_str(index).to_string())), index);
    }
    assert_eq!(log_level_index("loud"), 2);
    assert_eq!(log_level_str(99), "info");
    assert_eq!((sorting_index(&None), top_range_index(&None), atleast_index(&None)), (0, 3, 0));
    assert_eq!((sorting_str(-1), top_range_str(-1), atleast_str(-1)), ("date_added", "1M", ""));
    assert_eq!((renderer_str(0), renderer_str(1)), ("image", "shader"));
    assert_eq!((format_str(0), format_str(1)), ("png", "jpg"));
    assert_eq!((scope_str(0), scope_str(1)), ("virtual", "primary"));
    assert_eq!((color_space_str(0), color_space_str(1)), ("unorm", "srgb"));
}

#[test]
fn stored_lists_read_back_as_the_ticks() {
    for bits in 0..8 {
        let mut form = wallhaven(true);
        form.cat_general = bits & 1 != 0;
        form.cat_people = bits & 2 != 0;
        form.cat_anime = bits & 4 != 0;
        form.purity_sfw = bits & 4 != 0;
        form.purity_sketchy = bits & 2 != 0;
        form.purity_nsfw = bits & 1 != 0;
        let mut root: hcl::Value = hcl::from_str("a = 1\n").unwrap();
        save_wallhaven_to_root(&mut root, &form).unwrap();
        let entry = find_wallhaven_entry(&root).unwrap();
        let list = |key: &str| -> Vec<String> {
            parse_list(&entry.get(key).and_then(|v| v.as_str()).map(String::from))
        };
        let categories = list("categories");
        assert_eq!(categories.contains(&"general".to_string()), form.cat_general);
        assert_eq!(categories.contains(&"people".to_string()), form.cat_people);
        assert_eq!(categories.contains(&"anime".to_string()), form.cat_anime);
        let purities = list("purity");
        assert_eq!(purities.contains(&"sfw".to_string()), form.purity_sfw);
        assert_eq!(purities.contains(&"sketchy".to_string()), form.purity_sketchy);
        assert_eq!(purities.contains(&"nsfw".to_string()), form.purity_nsfw);
    }
}

#[test]
fn stored_lists_become_the_flags_of_the_ticks() {
    for bits in 1..8 {
        let mut form = wallhaven(true);
        form.cat_general = bits & 4 != 0;
        form.cat_people = bits & 2 != 0;
        form.cat_anime = bits & 1 != 0;
        form.purity_sfw = bits & 4 != 0;
        form.purity_sketchy = bits & 2 != 0;
        form.purity_nsfw = bits & 1 != 0;
        let mut root: hcl::Value = hcl::from_str("a = 1\n").unwrap();
        save_wallhaven_to_root(&mut root, &form).unwrap();
        let entry = find_wallhaven_entry(&root).unwrap();
        let text = |key: &str| entry.get(key).and_then(|v| v.as_str()).unwrap();
        assert_eq!(normalize_categories(text("categories")), format!("{bits:03b}"));
        assert_eq!(normalize_purity(text("purity")), format!("{bits:03b}"));
    }
}

/// The form that is shown after a form was saved.
fn shown_after_saving(form: &WallhavenForm) -> WallhavenForm {
    let mut root: hcl::Value = hcl::from_str("a = 1\n").unwrap();
    save_wallhaven_to_root(&mut root, form).unwrap();
    let entry = find_wallhaven_entry(&root).unwrap();
    let text = |key: &str| entry.get(key).and_then(|v| v.as_str()).map(String::from);
    let source = SourceConfig::Wallhaven {
        query: text("query"),
        categories: text("categories"),
        purity: text("purity"),
        sorting: text("sorting"),
        top_range: text("topRange"),
        atleast: text("atleast"),
        max_items: entry.get("maxItems").and_then(|v| v.as_u64()).unwrap() as usize,
        api_key: text("apiKey"),
    };
    wallhaven_form(&vec![source])
}

#[test]
fn the_range_is_saved_for_the_top_list_only() {
    let mut form = wallhaven(true);
    form.top_range_index = 6;
    for sorting in 0..6 {
        form.sorting_index = sorting;
        let shown = shown_after_saving(&form);
        let range = if sorting == 5 { 6 } else { 3 };
        assert_eq!((shown.sorting_index, shown.top_range_index), (sorting, range));
    }
}

#[test]
fn a_saved_source_shows_the_same_form() {
    let mut form = wallhaven(true);
    form.query = " northern lights ".to_string();
    form.purity_nsfw = true;
    form.top_range_index = 6;
    form.api_key = "secret ".to_string();
    let shown = shown_after_saving(&form);
    assert!(shown.enabled);
    assert_eq!(shown.query, "northern lights");
    assert_eq!((shown.cat_general, shown.cat_people, shown.cat_anime), (true, false, true));
    assert_eq!(
        (shown.purity_sfw, shown.purity_sketchy, shown.purity_nsfw),
        (true, false, true)
    );
    assert_eq!((shown.sorting_index, shown.top_range_index, shown.atleast_index), (5, 6, 1));
    assert_eq!(shown.max_items, 10);
    assert_eq!(shown.api_key, "secret");
}

#[test]
fn lists_are_trimmed_and_folded() {
    assert_eq!(
        parse_list(&Some(" General ,,ANIME\t, é ".to_string())),
        vec!["general".to_string(), "anime".to_string(), "é".to_string()]
    );
    assert!(parse_list(&None).is_empty());
    assert!(parse_list(&Some(" , ".to_string())).is_empty());
}

#[test]
fn long_times_are_capped() {
    assert_eq!(secs_to_i32(0), 0);
    assert_eq!(secs_to_i32(2_147_483_647), i32::MAX);
    assert_eq!(secs_to_i32(2_147_483_648), i32::MAX);
    assert_eq!(secs_to_i32(u64::MAX), i32::MAX);
}

fn config(sources: Vec<SourceConfig>, shader: Option<ShaderConfig>) -> AuraConfig {
    AuraConfig {
        renderer: RendererMode::Shader,
        image: ImageConfig {
            timer: 300,
            remote_update_timer: u64::MAX,
            format: OutputFormat::Jpg,
            jpeg_quality: 90,
            sources,
        },
        updater: UpdaterConfig {
            enabled: true,
            check_interval: 21600,
            feed_url: "https://example.com/feed".to_string(),
        },
        shader,
        log_level: "trace".to_string(),
        cache_dir: "cache".to_string(),
        state_file: "state.json".to_string(),
        proxy: Some("http://proxy".to_string()),
    }
}

fn wallhaven_source() -> SourceConfig {
    SourceConfig::Wallhaven {
        query: None,
        categories: Some("People, anime".to_string()),
        purity: None,
        sorting: Some("views".to_string()),
        top_range: Some("1y".to_string()),
        atleast: Some("2560x1440".to_string()),
        max_items: 4000,
        api_key: Some("key".to_string()),
    }
}

#[test]
fn the_form_shows_the_configuration() {
    let mut shown = form();
    let shader = ShaderConfig {
        name: "waves".to_string(),
        target_fps: 60,
        resolution: 50,
        mouse_enabled: true,
        desktop_scope: ShaderDesktopScope::Virtual,
        color_space: ShaderColorSpace::Unorm,
    };
    fill_ui_from_config(&mut shown, &config(vec![wallhaven_source()], Some(shader)));
    assert_eq!(shown.renderer_index, 1);
    assert_eq!(shown.image_timer_secs, 300);
    assert_eq!(shown.remote_update_secs, i32::MAX);
    assert_eq!(shown.format_index, 1);
    assert_eq!(shown.jpeg_quality, 90);
    assert_eq!(shown.updater_interval_secs, 21600);
    assert_eq!(shown.shader_name, "waves");
    assert_eq!((shown.shader_fps, shown.shader_resolution), (60, 50));
    assert!(shown.shader_mouse_enabled);
    assert_eq!((shown.shader_scope_index, shown.shader_color_space_index), (0, 0));
    assert_eq!(shown.log_level_index, 4);
    assert_eq!((shown.cache_dir.as_str(), shown.state_file.as_str()), ("cache", "state.json"));
    assert_eq!(shown.proxy_url, "http://proxy");
    let panel = &shown.wallhaven;
    assert!(panel.enabled);
    assert_eq!(panel.query, "");
    assert_eq!((panel.cat_general, panel.cat_people, panel.cat_anime), (false, true, true));
    assert_eq!(
        (panel.purity_sfw, panel.purity_sketchy, panel.purity_nsfw),
        (false, false, false)
    );
    assert_eq!((panel.sorting_index, panel.top_range_index, panel.atleast_index), (3, 6, 2));
    assert_eq!(panel.max_items, 1000);
    assert_eq!(panel.api_key, "key");
}

#[test]
fn a_missing_shader_leaves_its_fields() {
    let mut shown = form();
    fill_ui_from_config(&mut shown, &config(Vec::new(), None));
    assert_eq!(shown.shader_name, "silk");
    assert_eq!(shown.sources_summary, "（无来源）");
    let panel = wallhaven_form(&Vec::new());
    assert!(!panel.enabled && panel.cat_general && panel.cat_people && panel.cat_anime);
    assert!(panel.purity_sfw && !panel.purity_sketchy && !panel.purity_nsfw);
    assert_eq!((panel.sorting_index, panel.top_range_index, panel.atleast_index), (0, 3, 0));
    assert_eq!(panel.max_items, 24);
    let mut filled = form();
    fill_wallhaven_from_config(&mut filled, &config(Vec::new(), None));
    assert!(!filled.wallhaven.enabled);
    assert_eq!(filled.renderer_index, 1);
}

#[test]
fn an_untouched_form_saves_the_configuration() {
    let mut shown = form();
    fill_ui_from_config(&mut shown, &config(Vec::new(), None));
    let saved = save_config_from_ui(&shown, "x = 1\n").unwrap();
    let root: hcl::Value = hcl::from_str(&saved).unwrap();
    assert_eq!(text_at(&root, &["renderer"]), Some("shader"));
    assert_eq!(field(&root, &["image", "timer"]).unwrap().as_u64(), Some(300));
    assert_eq!(text_at(&root, &["image", "format"]), Some("jpg"));
    assert_eq!(text_at(&root, &["log_level"]), Some("trace"));
}

#[test]
fn sources_are_summed_up() {
    let sources = vec![
        SourceConfig::File { path: "a.png".to_string() },
        SourceConfig::Directory {
            path: "pics".to_string(),
            recursive: true,
            extensions: Some(vec!["jpg".to_string(), "png".to_string()]),
        },
        SourceConfig::Directory { path: "more".to_string(), recursive: false, extensions: None },
        SourceConfig::Rss { url: "https://example.com".to_string(), max_items: 12 },
        wallhaven_source(),
        SourceConfig::Wallhaven {
            query: Some("sea".to_string()),
            categories: None,
            purity: Some("sfw,nsfw".to_string()),
            sorting: None,
            top_range: None,
            atleast: None,
            max_items: 7,
            api_key: None,
        },
    ];
    assert_eq!(
        source_summary(&sources),
        "1. 文件: a.png\n\
         2. 目录: pics (jpg, png)（递归: 是）\n\
         3. 目录: more（递归: 否）\n\
         4. RSS: https://example.com（最多 12 项）\n\
         5. Wallhaven: 全部（People, anime / sfw / views，最多 4000 项）\n\
         6. Wallhaven: sea（全部 / sfw,nsfw / date_added，最多 7 项）"
    );
}

#[test]
fn the_window_says_how_it_went() {
    assert!(opened(true).status.is_none());
    assert_eq!(opened(false).status.as_deref(), Some("配置解析失败，显示默认值。"));
    let ok = saved(&Ok(()));
    assert_eq!(ok.status.as_deref(), Some("已保存并重载配置。"));
    assert!(ok.reload);
    let failed = saved(&Err("disk full".to_string()));
    assert_eq!(failed.status.as_deref(), Some("保存失败: disk full"));
    assert!(!failed.reload);
    assert_eq!(reloaded(&Ok(())).status.as_deref(), Some("已重新载入配置。"));
    assert_eq!(reloaded(&Err("e".to_string())).status.as_deref(), Some("重载失败: e"));
    assert!(file_opened(&Ok(())).status.is_none());
    assert_eq!(
        file_opened(&Err("e".to_string())).status.as_deref(),
        Some("打开配置文件失败: e")
    );
}

#[test]
fn settings_errors_say_what_happened() {
    let unparsable = SettingsError::Unparsable { reason: "why".to_string() };
    assert_eq!(unparsable.message("a.hcl"), "failed to parse config file a.hcl: why");
    assert_eq!(SettingsError::RootNotObject.message("a.hcl"), "config root is not an object");
    let error = SettingsError::NotAnObject { key: "image".to_string() };
    assert_eq!(error.message("a.hcl"), "config key 'image' is not an object");
    assert_eq!(SettingsError::SourcesNotArray.message("a.hcl"), "image.sources is not an array");
}
