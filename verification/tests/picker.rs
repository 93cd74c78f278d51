use aura::config::SourceConfig;
use aura::sources::wallhaven::{normalize_categories, normalize_purity};
use aura::wallpaper_picker::fetch::{
    build_fetch_request, cache_dir_failed, fetch_finished, fetch_started, runtime_failed,
    Downloads,
};
use aura::wallpaper_picker::grid::{format_bytes, sort_entries, PickerEntry};
use aura::wallpaper_picker::scan::{
    collect_local_images, is_supported_image, probe_entry, scan_targets, supported_extension,
    thumbnail_name, thumbnail_pixels, walk_depth, Batch, Pixel, Probe, Scan, PROGRESS_BATCH,
};
use aura::wallpaper_picker::state::{monitor_chip_width, PickerState, TrayEvent};

fn test_state(entries: Vec<PickerEntry>, favorites: Vec<String>) -> PickerState {
    let mut state =
        PickerState::new(vec!["显示器 1".into(), "显示器 2".into()], &favorites);
    state.entries = entries;
    state
}

fn make_entry(name: &str, width: u32, height: u32, bytes: u64, modified: u64) -> PickerEntry {
    PickerEntry {
        path: format!("aura-picker-filter-test/wallpaper-{name}"),
        name: name.to_string(),
        thumb_path: format!("aura-picker-filter-test/thumb-{name}.png"),
        local: false,
        width,
        height,
        bytes,
        modified,
    }
}

/// The picker must apply search / source / resolution / sort filters.
#[test]
fn picker_window_filters_entries() {
    let mut remote_large = make_entry("aurora.png", 3840, 2160, 4_000_000, 300);
    let mut remote_small = make_entry("beach.png", 1280, 720, 120_000, 100);
    let mut local_image = make_entry("trip.png", 2560, 1440, 900_000, 200);
    remote_large.local = false;
    remote_small.local = false;
    local_image.local = true;

    let mut state = test_state(
        vec![remote_large, remote_small, local_image],
        vec!["aura-picker-filter-test/wallpaper-beach.png".to_string()],
    );

    // Everything, newest first.
    assert_eq!(state.entries.len(), 3);
    let cells = state.refresh_cells();
    assert_eq!(cells.len(), 3);
    assert_eq!(cells[0].name, "aurora.png");

    // Search narrows by name.
    state.search_changed("beach");
    assert_eq!(state.refresh_cells().len(), 1);

    // Favorites-only keeps the single favorited entry.
    state.search_changed("");
    state.favorites_toggled(true);
    let cells = state.refresh_cells();
    assert_eq!(cells.len(), 1);
    assert!(cells[0].favorited);

    // Local-only source filter.
    state.favorites_toggled(false);
    state.source_changed(2);
    let cells = state.refresh_cells();
    assert_eq!(cells.len(), 1);
    assert!(cells[0].local);

    // Minimum resolution of 1440p drops the 720p image but keeps 4K.
    state.source_changed(0);
    state.filter.min_height = 1440;
    assert_eq!(state.refresh_cells().len(), 2);

    // Sorting by file size puts the 4 MB image first.
    state.filter.min_height = 0;
    state.sort_changed(5);
    assert_eq!(state.refresh_cells()[0].name, "aurora.png");

    // No match clears the grid.
    state.sort_changed(2);
    state.search_changed("no-match");
    assert_eq!(state.refresh_cells().len(), 0);
}

fn pixels(names: &[&str]) -> f32 {
    let names: Vec<String> = names.iter().map(|name| name.to_string()).collect();
    monitor_chip_width(&names) as f32 / 10.0
}

#[test]
fn monitor_chip_width_covers_the_widest_label() {
    assert_eq!(pixels(&[]), 96.0, "empty input keeps the floor");
    assert_eq!(pixels(&[""]), 96.0);

    // A device name is wider than the floor...
    let device = pixels(&["LEN160-3.2K"]);
    assert!(device > 96.0 && device < 140.0, "unexpected width {device}");

    // ...and CJK glyphs occupy a full cell, not an ASCII one.
    assert!(
        pixels(&["显示器屏幕名称"]) > pixels(&["abcdefg"]),
        "CJK glyphs must not be measured like ASCII"
    );

    // The widest label sets the shared width.
    assert_eq!(pixels(&["短", "LEN160-3.2K"]), pixels(&["LEN160-3.2K"]));
}

#[test]
fn chip_widths_are_exact() {
    let width = |name: &str| monitor_chip_width(&vec![name.to_string()]);
    assert_eq!(width("LEN160-3.2K"), 11 * 68 + 300);
    assert_eq!(width("显示器 12345"), 3 * 120 + 6 * 68 + 300);
    assert_eq!(width("\u{7F}\u{80}0123456789"), 11 * 68 + 120 + 300);
    assert_eq!(width("123456789"), 960);
}

/// The display chooser must round-trip through the monitor model.
#[test]
fn picker_monitor_selection_round_trips() {
    let mut state = test_state(Vec::new(), Vec::new());

    assert_eq!(state.monitor_chips().len(), 2);
    assert_eq!(state.selected_monitor_count(), 0);

    state.monitors = vec![true, true];
    assert_eq!(state.selected_monitor_count(), 2);
    assert!(state.monitor_chips()[0].selected);
}

/// Every fetch-panel combination must map to a valid Wallhaven query.
#[test]
fn fetch_request_maps_panel_controls() {
    let request = build_fetch_request(&None, "  aurora ".into(), 48, 2, 1, 4, 2);

    assert_eq!(request.query.as_deref(), Some("aurora"));
    assert_eq!(request.categories, "people");
    assert_eq!(request.purity, "110");
    assert_eq!(request.sorting, "favorites");
    assert_eq!(request.atleast.as_deref(), Some("2560x1440"));
    assert_eq!(request.max_items, 48);

    // Blank query means "no keyword" and the count is clamped.
    let fallback = build_fetch_request(&None, "   ".into(), 5000, 0, 0, 0, 0);
    assert!(fallback.query.is_none());
    assert_eq!(fallback.categories, "general,people,anime");
    assert_eq!(fallback.purity, "100");
    assert_eq!(fallback.sorting, "random");
    assert!(fallback.atleast.is_none());
    assert_eq!(fallback.max_items, 96);
}

#[test]
fn fetch_request_takes_the_users_own_settings() {
    let own = Some(SourceConfig::Wallhaven {
        query: Some("ignored".to_string()),
        categories: None,
        purity: None,
        sorting: None,
        top_range: Some("1y".to_string()),
        atleast: None,
        max_items: 1,
        api_key: Some("key".to_string()),
    });
    let request = build_fetch_request(&own, String::new(), -3, 1, 2, 2, 3);
    assert_eq!(request.top_range, "1y");
    assert_eq!(request.api_key.as_deref(), Some("key"));
    assert_eq!(request.max_items, 1);
    match request.source_config() {
        SourceConfig::Wallhaven { query, categories, purity, sorting, top_range, .. } => {
            assert_eq!(query, None);
            assert_eq!(categories.as_deref(), Some("general"));
            assert_eq!(purity.as_deref(), Some("111"));
            assert_eq!(sorting.as_deref(), Some("toplist"));
            assert_eq!(top_range.as_deref(), Some("1y"));
        }
        other => panic!("unexpected source {other:?}"),
    }
    let file = Some(SourceConfig::File { path: "a".to_string() });
    let request = build_fetch_request(&file, String::new(), 5, 3, 0, 1, 1);
    assert_eq!(request.top_range, "1M");
    assert_eq!(request.api_key, None);
    assert_eq!(request.categories, "anime");
    assert_eq!(request.sorting, "date_added");
    assert_eq!(build_fetch_request(&None, String::new(), 5, 0, 0, 3, 0).sorting, "views");
}

#[test]
fn every_panel_choice_is_a_valid_query() {
    for choice in -1..6 {
        let request = build_fetch_request(&None, String::new(), choice, choice, choice, choice, choice);
        let flags = match choice {
            1 => "100",
            2 => "010",
            3 => "001",
            _ => "111",
        };
        assert_eq!(normalize_categories(&request.categories), flags);
        assert_eq!(normalize_purity(&request.purity), request.purity);
        assert!((1..=96).contains(&request.max_items));
    }
}

fn float_text(bytes: u64) -> String {
    const KB: f64 = 1024.0;
    let value = bytes as f64;
    if value >= KB * KB * KB {
        format!("{:.1} GB", value / (KB * KB * KB))
    } else if value >= KB * KB {
        format!("{:.1} MB", value / (KB * KB))
    } else if value >= KB {
        format!("{:.0} KB", value / KB)
    } else {
        format!("{bytes} B")
    }
}

#[test]
fn sizes_are_rounded_like_floats() {
    assert_eq!(format_bytes(0), "0 B");
    assert_eq!(format_bytes(1023), "1023 B");
    assert_eq!(format_bytes(1024), "1 KB");
    assert_eq!(format_bytes(1536), "2 KB");
    assert_eq!(format_bytes(2560), "2 KB");
    assert_eq!(format_bytes(1_048_575), "1024 KB");
    assert_eq!(format_bytes(4_000_000), "3.8 MB");
    assert_eq!(format_bytes(1_610_612_736), "1.5 GB");
    assert_eq!(format_bytes(u64::MAX), "17179869184.0 GB");
    let mut samples: Vec<u64> = Vec::new();
    for shift in 0..64 {
        let base = 1u64 << shift;
        for delta in [0i64, 1, -1, 3, -7, 511, 512, 513, 104_857, 104_858] {
            samples.push(base.wrapping_add(delta as u64));
            samples.push(base.wrapping_add(base / 2).wrapping_add(delta as u64));
            samples.push(base.wrapping_add(base / 4).wrapping_add(delta as u64));
        }
    }
    let mut state: u64 = 0x9E37_79B9_7F4A_7C15;
    for _ in 0..20_000 {
        state = state.wrapping_mul(6_364_136_223_846_793_005).wrapping_add(1);
        samples.push(state >> (state % 60));
    }
    for halves in 0..400u64 {
        samples.push(halves * 512 + 1024);
        samples.push(halves * 52_428 + 1_048_576);
        samples.push(1_048_576 + halves * 262_144);
        samples.push((1 << 30) + halves * (1 << 28));
    }
    for bytes in samples {
        assert_eq!(format_bytes(bytes), float_text(bytes), "{bytes}");
    }
}

#[test]
fn cells_describe_their_image() {
    let state = test_state(vec![make_entry("a.png", 1080, 1920, 2048, 5)], Vec::new());
    let cells = state.refresh_cells();
    assert_eq!(cells[0].meta, "1080×1920 · 2 KB");
    assert_eq!(cells[0].path, "aura-picker-filter-test/wallpaper-a.png");
    assert_eq!(cells[0].thumb_path, "aura-picker-filter-test/thumb-a.png.png");
    assert!(!cells[0].favorited && !cells[0].local);
    assert_eq!(state.entries[0].longest_edge(), 1920);
    assert_eq!(state.entries[0].meta_text(), "1080×1920 · 2 KB");
}

#[test]
fn search_ignores_case_and_looks_at_the_path() {
    let mut state = test_state(
        vec![
            make_entry("ÉTÉ Photo.PNG", 10, 10, 1, 1),
            make_entry("other.png", 10, 10, 1, 2),
        ],
        Vec::new(),
    );
    state.search_changed("été");
    assert_eq!(state.refresh_cells().len(), 1);
    state.search_changed("FILTER-TEST");
    assert_eq!(state.refresh_cells().len(), 2);
    state.search_changed("photo.pngx");
    assert_eq!(state.refresh_cells().len(), 0);
    state.search_changed(" ");
    assert_eq!(state.refresh_cells().len(), 1);
    state.search_changed("");
    assert_eq!(state.refresh_cells().len(), 2);
}

#[test]
fn every_order_is_stable() {
    let entries = vec![
        make_entry("b", 100, 50, 10, 1),
        make_entry("A", 50, 100, 20, 1),
        make_entry("c", 200, 10, 10, 3),
        make_entry("a", 10, 10, 30, 2),
        make_entry("B", 100, 1, 10, 1),
    ];
    assert_eq!(sort_entries(&entries, 0), vec![1, 3, 0, 4, 2]);
    assert_eq!(sort_entries(&entries, 1), vec![2, 0, 4, 1, 3]);
    assert_eq!(sort_entries(&entries, 2), vec![2, 3, 0, 1, 4]);
    assert_eq!(sort_entries(&entries, 3), vec![0, 1, 4, 3, 2]);
    assert_eq!(sort_entries(&entries, 4), vec![2, 1, 0, 4, 3]);
    assert_eq!(sort_entries(&entries, 5), vec![3, 1, 0, 2, 4]);
    assert_eq!(sort_entries(&entries, 99), vec![1, 3, 0, 4, 2]);
    assert!(sort_entries(&Vec::new(), 0).is_empty());
}

#[test]
fn resolution_choices_set_the_minimum_edge() {
    let mut state = test_state(Vec::new(), Vec::new());
    for (index, edge) in [(0, 0), (1, 1080), (2, 1440), (3, 2160), (4, 0), (-1, 0)] {
        state.min_resolution_changed(index);
        assert_eq!(state.filter.min_height, edge);
    }
    assert_eq!(state.filter.sort_index, 2);
}

#[test]
fn remote_only_filter_and_portrait_images() {
    let mut local = make_entry("l", 10, 4000, 1, 1);
    local.local = true;
    let mut state = test_state(vec![local, make_entry("r", 10, 20, 1, 2)], Vec::new());
    state.source_changed(1);
    assert_eq!(state.refresh_cells()[0].name, "r");
    state.source_changed(0);
    state.min_resolution_changed(3);
    assert_eq!(state.refresh_cells()[0].name, "l");
}

fn describe(event: &TrayEvent) -> String {
    match event {
        TrayEvent::ApplyWallpaper { path } => format!("apply {path}"),
        TrayEvent::ApplyWallpaperToMonitor { path, monitor } => format!("{monitor} {path}"),
        TrayEvent::AddFavorite { path } => format!("favorite {path}"),
        TrayEvent::RemoveWallpaper { path } => format!("remove {path}"),
        TrayEvent::ReloadSettings => "reload".to_string(),
    }
}

#[test]
fn images_go_to_the_ticked_displays() {
    let names: Vec<String> = (0..4).map(|n| n.to_string()).collect();
    let mut state = PickerState::new(names, &Vec::new());
    let events = |state: &PickerState| -> Vec<String> {
        state.apply_to_selection("x.png").iter().map(describe).collect()
    };
    assert_eq!(events(&state), vec!["apply x.png"]);
    state.toggle_monitor(3);
    state.toggle_monitor(1);
    state.toggle_monitor(4);
    state.toggle_monitor(-1);
    assert_eq!(events(&state), vec!["1 x.png", "3 x.png"]);
    assert_eq!(state.selected_monitor_count(), 2);
    state.toggle_monitor(3);
    assert_eq!(events(&state), vec!["1 x.png"]);
    state.select_all_monitors(true);
    assert_eq!(state.selected_monitor_count(), 4);
    state.select_all_monitors(false);
    assert_eq!(events(&state), vec!["apply x.png"]);
    assert_eq!(describe(&state.apply_all("y")), "apply y");
    assert_eq!(describe(&state.apply_to_monitor("y", 2)), "2 y");
}

#[test]
fn favorites_toggle() {
    let mut state = test_state(vec![make_entry("a", 1, 1, 1, 1)], Vec::new());
    let path = state.entries[0].path.clone();
    assert_eq!(describe(&state.add_favorite(&path)), format!("favorite {path}"));
    assert!(state.refresh_cells()[0].favorited);
    state.add_favorite(&path);
    assert!(!state.refresh_cells()[0].favorited);
}

#[test]
fn deleted_images_are_gone() {
    let mut state = test_state(
        vec![
            make_entry("a", 1, 1, 1, 1),
            make_entry("b", 1, 1, 1, 1),
            make_entry("a", 1, 1, 1, 1),
        ],
        vec!["aura-picker-filter-test/wallpaper-a".to_string()],
    );
    let event = state.confirm_delete("aura-picker-filter-test/wallpaper-a");
    assert_eq!(describe(&event), "remove aura-picker-filter-test/wallpaper-a");
    assert_eq!(state.entries.len(), 1);
    assert_eq!(state.entries[0].name, "b");
    assert!(!state.favorites.contains("aura-picker-filter-test/wallpaper-a"));
}

#[test]
fn image_files_are_told_by_their_extension() {
    for path in ["a.jpg", "b/c.JPEG", "x.y.png", "a.webp", "dir.d/a.bmp", "/a.GiF", "..png"] {
        assert!(is_supported_image(path), "{path}");
    }
    for path in ["a", ".png", "a.txt", "a.png.txt", "dir.png/a", "a.", "", ".", "..", "a.jpg2"] {
        assert!(!is_supported_image(path), "{path}");
    }
    for path in ["a.png/", "a.png/.", "a.png/.//", "12:30.png", "/home/u/12:30.png", "C:a.png"] {
        assert!(is_supported_image(path), "{path}");
    }
    for path in ["/", "//", "./", "a.png/..", "dir/.png", "C:", "C:a", "a.png:stream"] {
        assert!(!is_supported_image(path), "{path}");
    }
    assert!(supported_extension(&Some("PNG".to_string())));
    assert!(!supported_extension(&Some("svg".to_string())));
    assert!(!supported_extension(&None));
}

#[test]
fn images_behind_backslashes_are_told_by_their_extension() {
    for path in [
        r"C:\pics\a.jpg",
        r"C:\my.pics\a.b.PNG",
        r"C:pics\a.gif",
        r"pics\a.webp",
        r"C:\pics/a.bmp",
        r"\pics\12:30.jpeg",
        r"\\nas\pics\a.jpg",
        r"//nas/pics/deep/a.jpg",
        r"\\?\C:\pics\a.jpg",
        r"\\?\UNC\nas\pics\a.jpg",
    ] {
        assert!(is_supported_image(path), "{path}");
    }
    for path in [
        r"C:\pics\README",
        r"C:\my.pics\README",
        r"C:\pics.png\README",
        r"C:\pics\a.txt",
        r"pics\a.png.txt",
        r"C:\pics\..",
        r"\\nas\pics\README",
        r"\\nas\pics.png\deep\README",
        r"\\?\C:\pics.png\README",
    ] {
        assert!(!is_supported_image(path), "{path}");
    }
    let sources = vec![
        SourceConfig::Directory { path: "C:\\p".to_string(), recursive: true, extensions: None },
        SourceConfig::File { path: r"\\nas\pics\one.png".to_string() },
    ];
    let found = vec![vec![
        r"C:\p\a.png".to_string(),
        r"C:\p\README".to_string(),
        r"C:\p\v1.2\LICENSE".to_string(),
        r"C:\p\v1.2\b.Gif".to_string(),
    ]];
    assert_eq!(
        collect_local_images(&sources, &found),
        vec![
            r"C:\p\a.png".to_string(),
            r"C:\p\v1.2\b.Gif".to_string(),
            r"\\nas\pics\one.png".to_string(),
        ]
    );
}

#[test]
fn local_images_come_source_by_source() {
    let sources = vec![
        SourceConfig::Directory { path: "d".to_string(), recursive: true, extensions: None },
        SourceConfig::File { path: "one.png".to_string() },
        SourceConfig::File { path: "one.txt".to_string() },
        SourceConfig::Rss { url: "https://example.com/a.png".to_string(), max_items: 1 },
        SourceConfig::Directory { path: "e".to_string(), recursive: false, extensions: None },
    ];
    let found = vec![
        vec!["d/a.png".to_string(), "d/readme".to_string(), "d/b.gif".to_string()],
        vec!["ignored.png".to_string()],
        Vec::new(),
        vec!["ignored.png".to_string()],
    ];
    assert_eq!(
        collect_local_images(&sources, &found),
        vec!["d/a.png".to_string(), "d/b.gif".to_string(), "one.png".to_string()]
    );
    assert_eq!(walk_depth(true), None);
    assert_eq!(walk_depth(false), Some(1));
    let targets = scan_targets(&vec!["l".to_string()], &vec!["r1".to_string(), "r2".to_string()]);
    let listed: Vec<(&str, bool)> =
        targets.iter().map(|target| (target.path.as_str(), target.local)).collect();
    assert_eq!(listed, vec![("l", true), ("r1", false), ("r2", false)]);
}

#[test]
fn scanned_images_reach_the_grid_in_batches() {
    for count in [0usize, 1, 5, 6, 7, 12, 13] {
        let mut state = test_state(vec![make_entry("stale", 1, 1, 1, 1)], Vec::new());
        let mut scan = Scan::start();
        let mut batches: Vec<Batch> = Vec::new();
        for n in 0..count {
            if let Some(batch) = scan.add(make_entry(&format!("e{n}"), 1, 1, 1, 1)) {
                batches.push(batch);
            }
        }
        assert_eq!(scan.total, count);
        batches.push(scan.finish());
        assert_eq!(batches.len(), count / PROGRESS_BATCH + 1);
        for (at, batch) in batches.into_iter().enumerate() {
            assert_eq!(batch.reset, at == 0);
            assert_eq!(batch.done, at == count / PROGRESS_BATCH);
            state.merge_batch(batch.entries, batch.reset);
        }
        let names: Vec<String> = state.entries.iter().map(|entry| entry.name.clone()).collect();
        let expected: Vec<String> = (0..count).map(|n| format!("e{n}")).collect();
        assert_eq!(names, expected);
    }
}

#[test]
fn probes_become_entries() {
    let probe = |path: &str, modified: Option<u64>| Probe {
        path: path.to_string(),
        thumb_path: "t".to_string(),
        local: true,
        width: 3,
        height: 4,
        bytes: 5,
        modified,
    };
    let entry = probe_entry(probe("..", None));
    assert_eq!((entry.name.as_str(), entry.modified, entry.local), ("", 0, true));
    let entry = probe_entry(probe("pics/n.png", Some(9)));
    assert_eq!((entry.path.as_str(), entry.name.as_str()), ("pics/n.png", "n.png"));
    assert_eq!((entry.modified, entry.width, entry.height, entry.bytes), (9, 3, 4, 5));
    assert_eq!(probe_entry(probe("pics/n.png//./", None)).name, "n.png");
    assert_eq!(probe_entry(probe("/", None)).name, "");
}

#[test]
fn thumbnails_are_named_by_digest() {
    assert_eq!(
        thumbnail_name(""),
        "af1349b9f5f9a1a6a0404dea36dcc9499bcb25c9adc112b7cc9a93cae41f3262.png"
    );
    assert_eq!(
        thumbnail_name("abc"),
        "6437b3ac38465133ffb63b75273a8db548c558465d79db03fd359c6cd5bd9d85.png"
    );
}

#[test]
fn thumbnail_bytes_become_pixels() {
    let buffer: Vec<u8> = (1..=9).collect();
    let black = Pixel { r: 0, g: 0, b: 0, a: 0 };
    assert_eq!(
        thumbnail_pixels(3, 1, &buffer),
        vec![
            Pixel { r: 1, g: 2, b: 3, a: 4 },
            Pixel { r: 5, g: 6, b: 7, a: 8 },
            black,
        ]
    );
    assert_eq!(thumbnail_pixels(1, 1, &buffer).len(), 1);
    assert!(thumbnail_pixels(0, 7, &buffer).is_empty());
}

#[test]
fn fetching_reports_its_progress() {
    let started = fetch_started();
    assert!(started.fetching);
    assert_eq!(started.status, "正在查询 Wallhaven…");
    let failed = cache_dir_failed("no space");
    assert!(!failed.fetching);
    assert_eq!(failed.status, "无法准备缓存目录：no space");
    assert_eq!(runtime_failed("e").status, "无法启动下载运行时：e");

    let mut downloads = Downloads::start(3);
    assert_eq!(downloads.downloaded_one().status, "已下载 1/3 张…");
    let second = downloads.downloaded_one();
    assert!(second.fetching);
    assert_eq!(second.status, "已下载 2/3 张…");

    let end = fetch_finished(Ok(downloads));
    assert!(end.rescan && !end.shown.fetching);
    assert_eq!(end.shown.status, "完成：新下载 2 张，正在刷新列表…");
    let end = fetch_finished(Ok(Downloads::start(0)));
    assert!(!end.rescan);
    assert_eq!(end.shown.status, "没有匹配的壁纸，换个关键词或分类试试");
    let end = fetch_finished(Err("timeout".to_string()));
    assert!(!end.rescan && !end.shown.fetching);
    assert_eq!(
        end.shown.status,
        "拉取失败：timeout（若站点无法直连，请在设置里配置 proxy）"
    );
}
