use aura::wallpaper::windows::{
    display_pnp_id, edid_descriptor_name, edid_registry_key, monitor_names_for, wide_null,
    wide_to_string, ReportedMonitor, WallpaperPlan, WindowsWallpaperBackend,
};
use aura::wallpaper::{
    counted_names, default_backend, monitor_label, BackendKind, Platform,
    UnsupportedWallpaperBackend, WallpaperBackend, WallpaperError,
};

/// EDID name descriptors must be read exactly as panels emit them.
#[test]
fn edid_descriptor_name_prefers_monitor_name_over_free_form() {
    // Lenovo-style: two free-form descriptors, brand first, model last.
    let mut edid = vec![0u8; 128];
    edid[54..72].copy_from_slice(&edid_descriptor(0xFE, "LENOVO"));
    edid[72..90].copy_from_slice(&edid_descriptor(0xFE, "LEN160-3.2K"));
    assert_eq!(edid_descriptor_name(&edid).as_deref(), Some("LEN160-3.2K"));

    // A real monitor-name descriptor outranks the free-form string.
    let mut edid = vec![0u8; 128];
    edid[54..72].copy_from_slice(&edid_descriptor(0xFE, "XIAOMI"));
    edid[90..108].copy_from_slice(&edid_descriptor(0xFC, "P27QBD-RG"));
    assert_eq!(edid_descriptor_name(&edid).as_deref(), Some("P27QBD-RG"));

    // Panels that publish nothing usable (or no EDID at all) yield None.
    assert_eq!(edid_descriptor_name(&[0u8; 128]), None);
    assert_eq!(edid_descriptor_name(&[]), None);
}

#[test]
fn monitor_names_fall_back_when_the_device_path_cannot_be_resolved() {
    // A panel whose EDID cannot be read still exposes its panel id.
    let monitors = vec![
        wide_null(r"\\?\DISPLAY#AURA00#0&0&0&0&0000#{00000000-0000-0000-0000-000000000000}"),
        wide_null(r"\\?\DISPLAY#AURA01#0&0&0&0&0000#{00000000-0000-0000-0000-000000000000}"),
    ];
    assert_eq!(monitor_names_for(&monitors, &Vec::new()), vec!["AURA00", "AURA01"]);

    // Only a path with no usable segment drops to the index label.
    assert_eq!(
        monitor_names_for(&vec![Vec::new(), vec![0]], &vec![None, None]),
        vec!["显示器 1", "显示器 2"]
    );
}

fn edid_descriptor(kind: u8, text: &str) -> [u8; 18] {
    let mut descriptor = [0x20u8; 18]; // space padded
    descriptor[0..4].copy_from_slice(&[0x00, 0x00, 0x00, kind]);
    descriptor[4] = 0x00;
    descriptor[5..5 + text.len()].copy_from_slice(text.as_bytes());
    descriptor[5 + text.len()] = 0x0A;
    descriptor
}

#[test]
fn first_monitor_name_wins_and_blank_ones_are_skipped() {
    let mut edid = vec![0u8; 128];
    edid[54..72].copy_from_slice(&edid_descriptor(0xFC, "   "));
    edid[72..90].copy_from_slice(&edid_descriptor(0xFC, "FIRST"));
    edid[90..108].copy_from_slice(&edid_descriptor(0xFC, "SECOND"));
    edid[108..126].copy_from_slice(&edid_descriptor(0xFE, "FREE"));
    assert_eq!(edid_descriptor_name(&edid).as_deref(), Some("FIRST"));
}

#[test]
fn descriptors_that_are_cut_off_or_timings_are_ignored() {
    let mut edid = vec![0u8; 128];
    edid[108..126].copy_from_slice(&edid_descriptor(0xFC, "LAST"));
    assert_eq!(edid_descriptor_name(&edid[..126]).as_deref(), Some("LAST"));
    assert_eq!(edid_descriptor_name(&edid[..125]), None);
    edid[108] = 1;
    assert_eq!(edid_descriptor_name(&edid), None);
    edid[108] = 0;
    edid[111] = 0xFD;
    assert_eq!(edid_descriptor_name(&edid), None);
}

#[test]
fn descriptor_text_is_decoded_leniently() {
    let mut edid = vec![0u8; 128];
    edid[57] = 0xFC;
    for (at, byte) in [b' ', 0xC3, 0xA9, b'A', 0xFF, b'B'].iter().enumerate() {
        edid[59 + at] = *byte;
    }
    edid[65] = 0x0A;
    edid[66] = b'Z';
    assert_eq!(edid_descriptor_name(&edid).as_deref(), Some("éA\u{FFFD}B"));
    for at in 59..72 {
        edid[at] = b'x';
    }
    assert_eq!(edid_descriptor_name(&edid).as_deref(), Some("xxxxxxxxxxxxx"));
}

#[test]
fn wide_strings_read_back() {
    for text in ["a", "显示器 2", "x\u{1F600}y\u{10FFFF}", "\u{D7FF}\u{E000}\u{FFFF}\u{10000}"] {
        let wide = wide_null(text);
        let expected: Vec<u16> = text.encode_utf16().chain(std::iter::once(0)).collect();
        assert_eq!(wide, expected);
        assert_eq!(wide_to_string(&wide).as_deref(), Some(text));
    }
    assert_eq!(wide_null(""), vec![0]);
    assert_eq!(wide_to_string(&[0, 65]), None);
    assert_eq!(wide_to_string(&[65, 0, 66]).as_deref(), Some("A"));
    assert_eq!(wide_to_string(&[65, 66]).as_deref(), Some("AB"));
}

#[test]
fn unpaired_surrogates_are_replaced() {
    assert_eq!(wide_to_string(&[0xD83D, 0x41]).as_deref(), Some("\u{FFFD}A"));
    assert_eq!(wide_to_string(&[0xDE00, 0xD83D]).as_deref(), Some("\u{FFFD}\u{FFFD}"));
    assert_eq!(
        wide_to_string(&[0xD83D, 0xD83D, 0xDE00]).as_deref(),
        Some("\u{FFFD}\u{1F600}")
    );
}

#[test]
fn device_paths_name_the_registry_key() {
    let path = r"\\?\DISPLAY#LEN8BA1#4&2c6c98d4&0&UID8388688#{e6f07b5f}";
    assert_eq!(display_pnp_id(path).as_deref(), Some("LEN8BA1"));
    assert_eq!(
        edid_registry_key(path).as_deref(),
        Some(
            r"SYSTEM\CurrentControlSet\Enum\DISPLAY\LEN8BA1\4&2c6c98d4&0&UID8388688\Device Parameters"
        )
    );
    assert_eq!(display_pnp_id("no segments"), None);
    assert_eq!(display_pnp_id("a##b"), None);
    assert_eq!(edid_registry_key("a#b"), None);
    assert_eq!(edid_registry_key("a#b#"), None);
    assert_eq!(edid_registry_key("a##c"), None);
}

#[test]
fn names_come_from_the_edid_block_first() {
    let mut edid = vec![0u8; 128];
    edid[54..72].copy_from_slice(&edid_descriptor(0xFC, "PANEL"));
    let monitors = vec![
        wide_null("D#ID0#inst#x"),
        wide_null("D#ID1"),
        wide_null("D"),
        wide_null("D#ID3#inst#x"),
    ];
    let edids = vec![Some(edid.clone()), Some(edid.clone()), Some(edid), Some(Vec::new())];
    assert_eq!(
        monitor_names_for(&monitors, &edids),
        vec!["PANEL", "ID1", "显示器 3", "ID3"]
    );
}

fn entry(path: Option<&str>, left: i32, right: i32) -> ReportedMonitor {
    ReportedMonitor {
        path_status: 0,
        path: path.map(|text| text.encode_utf16().collect()),
        rect_status: 0,
        left,
        top: 0,
        right,
        bottom: 10,
    }
}

#[test]
fn pseudo_displays_are_skipped() {
    let backend = WindowsWallpaperBackend::default();
    let mut refused = entry(Some("refused"), 0, 10);
    refused.path_status = -1;
    let mut unplaced = entry(Some("unplaced"), 0, 10);
    unplaced.rect_status = -2147467259;
    let mut flat = entry(Some("flat"), 0, 10);
    flat.bottom = 0;
    let reported = vec![
        entry(Some("one"), 0, 1920),
        entry(None, 0, 1920),
        entry(Some("legacy"), 5, 5),
        refused,
        unplaced,
        flat,
        entry(Some("two"), -1920, 0),
    ];
    assert_eq!(
        backend.real_monitor_ids(&reported),
        vec![wide_null("one"), wide_null("two")]
    );
}

#[test]
fn wallpapers_wrap_around() {
    let backend = WindowsWallpaperBackend::default();
    match backend.plan_wallpapers(2, 5) {
        Ok(WallpaperPlan::PerMonitor { choices }) => assert_eq!(choices, vec![0, 1, 0, 1, 0]),
        other => panic!("unexpected plan {other:?}"),
    }
    assert!(matches!(backend.plan_wallpapers(3, 0), Ok(WallpaperPlan::WholeDesktop)));
    assert!(matches!(backend.plan_wallpapers(0, 2), Err(WallpaperError::NoWallpapers)));
}

#[test]
fn an_update_fails_only_when_every_display_failed() {
    let backend = WindowsWallpaperBackend::default();
    assert!(backend.conclude(&vec![false, true]).is_ok());
    assert!(matches!(
        backend.conclude(&vec![false, false]),
        Err(WallpaperError::AllMonitorsFailed)
    ));
    assert!(backend.check_monitor(1, 2).is_ok());
    let error = backend.check_monitor(2, 2).unwrap_err();
    assert_eq!(error.message(), "monitor index 2 out of range (2 displays)");
}

#[test]
fn every_platform_has_its_backend() {
    assert_eq!(default_backend(Platform::Windows), BackendKind::Windows);
    assert_eq!(default_backend(Platform::Linux), BackendKind::Linux);
    assert_eq!(default_backend(Platform::Macos), BackendKind::Mac);
    assert_eq!(default_backend(Platform::Other), BackendKind::Unsupported);
}

#[test]
fn counted_displays_are_numbered() {
    assert_eq!(counted_names(Ok(3)).unwrap(), vec!["显示器 1", "显示器 2", "显示器 3"]);
    assert!(counted_names(Ok(0)).unwrap().is_empty());
    let refused = WallpaperError::Platform { message: "no displays".to_string() };
    assert_eq!(counted_names(Err(refused)).unwrap_err().message(), "no displays");
}

#[test]
fn unsupported_backend_refuses() {
    let backend = UnsupportedWallpaperBackend;
    let error = backend.set_wallpaper("a.png").unwrap_err();
    assert_eq!(error.message(), "wallpaper updates require Windows, GNOME, or KDE Plasma");
    assert_eq!(backend.monitor_count().unwrap(), 1);
    assert_eq!(backend.monitor_names().unwrap(), vec!["显示器 1"]);
    assert!(matches!(
        backend.set_wallpapers(&vec!["a.png".to_string()]),
        Err(WallpaperError::Unsupported)
    ));
    let error = backend.set_wallpapers(&Vec::new()).unwrap_err();
    assert_eq!(error.message(), "no wallpapers provided");
    assert!(matches!(
        backend.set_wallpaper_for_monitor("a.png", 0),
        Err(WallpaperError::Unsupported)
    ));
    assert!(matches!(
        backend.set_wallpaper_for_monitor("a.png", 1),
        Err(WallpaperError::MonitorOutOfRange { index: 1, count: 1 })
    ));
}

#[test]
fn errors_say_what_happened() {
    assert_eq!(
        WallpaperError::AllMonitorsFailed.message(),
        "all per-monitor wallpaper updates failed"
    );
    let platform = WallpaperError::Platform { message: "refused".to_string() };
    assert_eq!(platform.message(), "refused");
    assert_eq!(monitor_label(11), "显示器 12");
}
