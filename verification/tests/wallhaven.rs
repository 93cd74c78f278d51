use aura::config::SourceConfig;
use aura::sources::wallhaven::{
    normalize_categories, normalize_flag, normalize_purity, page_contents, read_page, FoundImage,
    Refresh, WallhavenError, WallhavenSource,
};
use aura::sources::{Location, Origin, SourceKind};

/// Human-readable config values must reach the API as bit flags, otherwise
/// Wallhaven ignores them and silently returns every category.
#[test]
fn normalises_human_readable_category_and_purity_values() {
    assert_eq!(normalize_categories("general,people,anime"), "111");
    assert_eq!(normalize_categories("general,anime"), "101");
    assert_eq!(normalize_categories("people"), "010");
    assert_eq!(
        normalize_categories("unknown-name"),
        "111",
        "unknown names fall back to all"
    );
    assert_eq!(normalize_categories(""), "111");
    assert_eq!(normalize_categories("111"), "111");
    assert_eq!(normalize_categories("001"), "001");

    assert_eq!(normalize_purity("sfw"), "100");
    assert_eq!(normalize_purity("sfw,sketchy"), "110");
    assert_eq!(normalize_purity("sketchy,nsfw"), "011");
    assert_eq!(normalize_purity(""), "100", "an empty purity stays safe for work");
    assert_eq!(normalize_purity("110"), "110");
}

/// The search URL must carry the normalised flags.
#[test]
fn search_url_uses_normalised_flags() {
    let source = WallhavenSource::new(&wallhaven_config(), "wh".to_string()).unwrap();
    let url = source.search_url(3).unwrap();

    assert!(url.contains("categories=111"), "url was {url}");
    assert!(url.contains("purity=100"), "url was {url}");
    assert!(url.contains("page=3"), "url was {url}");
}

fn wallhaven_config() -> SourceConfig {
    SourceConfig::Wallhaven {
        query: Some("aurora".to_string()),
        categories: None,
        purity: None,
        sorting: Some("toplist".to_string()),
        top_range: Some("1M".to_string()),
        atleast: Some("1920x1080".to_string()),
        max_items: 5,
        api_key: None,
    }
}

fn json_page(total: usize) -> String {
    let mut items = Vec::new();
    for index in 0..total {
        items.push(format!(
            r#"{{"id":"w{index}","path":"https://w.wallhaven.cc/full/ab/w{index}.jpg"}}"#
        ));
    }
    format!(
        r#"{{"data":[{}],"meta":{{"last_page":1}}}}"#,
        items.join(",")
    )
}

fn found(urls: Vec<String>) -> Vec<FoundImage> {
    urls.into_iter()
        .map(|url| FoundImage { id: format!("id:{url}"), url, modified: None })
        .collect()
}

#[test]
fn refresh_fetches_candidates_from_api_and_does_not_download_images() {
    let source = WallhavenSource::new(&wallhaven_config(), "wh".to_string()).unwrap();
    let mut refresh = Refresh::start(&source);
    assert_eq!(refresh.page, 1);
    let (urls, last_page) = read_page(json_page(4).as_bytes(), refresh.page).unwrap();
    let wanted = refresh.wanted(&urls);
    assert!(!refresh.add_page(found(wanted), last_page));

    assert_eq!(refresh.candidates.len(), 4);
    for candidate in &refresh.candidates {
        assert_eq!(candidate.origin, Origin::Rss);
        assert!(!candidate.id.is_empty());
        assert!(!candidate.is_local());
    }
    match &refresh.candidates[2].location {
        Location::Remote { url, download_dir } => {
            assert_eq!(url, "https://w.wallhaven.cc/full/ab/w2.jpg");
            assert_eq!(download_dir, "wh");
        }
        Location::Local { .. } => panic!("remote image expected"),
    }
}

#[test]
fn refresh_honours_max_items() {
    let source = WallhavenSource::new(&wallhaven_config(), "wh".to_string()).unwrap();
    let mut refresh = Refresh::start(&source);
    let (urls, last_page) = read_page(json_page(24).as_bytes(), 1).unwrap();
    let wanted = refresh.wanted(&urls);
    // max_items = 5, page supplies 24 -> only 5 kept
    refresh.add_page(found(wanted), last_page);
    assert_eq!(refresh.candidates.len(), 5);
}

#[test]
fn search_url_includes_all_parameters() {
    let source = WallhavenSource::new(&wallhaven_config(), "C:/tmp/wh".to_string()).unwrap();
    let url = url::Url::parse(&source.search_url(2).unwrap()).unwrap();
    let params: std::collections::HashMap<String, String> =
        url.query_pairs().into_owned().collect();
    assert_eq!(params.get("q").map(String::as_str), Some("aurora"));
    // Wallhaven only honours the bit-flag form, so the human-readable
    // config values are normalised before they reach the query string.
    assert_eq!(params.get("categories").map(String::as_str), Some("111"));
    assert_eq!(params.get("purity").map(String::as_str), Some("100"));
    assert_eq!(params.get("sorting").map(String::as_str), Some("toplist"));
    assert_eq!(params.get("topRange").map(String::as_str), Some("1M"));
    assert_eq!(params.get("atleast").map(String::as_str), Some("1920x1080"));
    assert_eq!(params.get("page").map(String::as_str), Some("2"));
    assert!(!params.contains_key("apikey"));
}

#[test]
fn plain_search_address_is_exact() {
    let source = WallhavenSource::new(&wallhaven_config(), "wh".to_string()).unwrap();
    assert_eq!(
        source.search_url(7).unwrap(),
        "https://wallhaven.cc/api/v1/search?q=aurora&categories=111&purity=100&sorting=toplist\
         &topRange=1M&atleast=1920x1080&page=7"
    );
}

#[test]
fn search_terms_are_encoded() {
    let config = SourceConfig::Wallhaven {
        query: Some("  night & Été ".to_string()),
        categories: Some("anime".to_string()),
        purity: Some("sketchy".to_string()),
        sorting: None,
        top_range: None,
        atleast: Some(String::new()),
        max_items: 1,
        api_key: Some(" k/1 ".to_string()),
    };
    let source = WallhavenSource::new(&config, "wh".to_string()).unwrap();
    assert_eq!(
        source.search_url(1).unwrap(),
        "https://wallhaven.cc/api/v1/search?q=night+%26+%C3%89t%C3%A9&categories=001&purity=010\
         &sorting=date_added&apikey=k%2F1&page=1"
    );
    let pairs = source.query_params(1);
    assert_eq!(pairs[0], ("q".to_string(), "night & Été".to_string()));
    assert_eq!(pairs.last().unwrap(), &("page".to_string(), "1".to_string()));
}

#[test]
fn other_bases_are_normalised_and_bad_ones_refused() {
    let source = WallhavenSource::new(&wallhaven_config(), "wh".to_string())
        .unwrap()
        .with_api_base("HTTP://LocalHost:80/x?keep=1#part");
    let address = source.search_url(1).unwrap();
    assert_eq!(source.api_base, "HTTP://LocalHost:80/x?keep=1#part");
    assert!(address.starts_with("http://localhost/x?keep=1&q=aurora&"), "{address}");
    assert!(address.ends_with("&page=1#part/search"), "{address}");

    let bad = WallhavenSource::new(&wallhaven_config(), "wh".to_string())
        .unwrap()
        .with_api_base("not a base");
    let error = bad.search_url(1).unwrap_err();
    assert_eq!(error.reason(), Some("relative URL without a base"));
    assert_eq!(error.message(), format!("invalid wallhaven api base {}", bad.api_base));
}

#[test]
fn only_wallhaven_sources_are_accepted() {
    let other = SourceConfig::Rss { url: "https://example.com".to_string(), max_items: 3 };
    let error = WallhavenSource::new(&other, "wh".to_string()).err();
    assert_eq!(error, Some(WallhavenError::NotWallhaven));
    let error = error.unwrap();
    assert_eq!((error.message().as_str(), error.reason()), ("not a wallhaven source", None));
    let source = WallhavenSource::new(&wallhaven_config(), "wh".to_string()).unwrap();
    assert_eq!(source.name(), "wallhaven");
    assert_eq!(source.kind(), SourceKind::Wallhaven);
    assert_eq!(source.categories, "general,people,anime");
    assert_eq!(source.purity, "sfw");
    assert_eq!(source.max_items, 5);
}

#[test]
fn flags_are_trimmed_folded_and_stable() {
    assert_eq!(normalize_categories("  011 "), "011");
    assert_eq!(normalize_categories(" General , ANIME ,, nothing"), "101");
    assert_eq!(normalize_categories("1111"), "111");
    assert_eq!(normalize_categories("012"), "111");
    assert_eq!(normalize_purity("012"), "100");
    assert_eq!(normalize_purity("\u{661}\u{660}"), "100");
    for raw in ["sfw", "sketchy", "nsfw,sfw", "", "000", "junk"] {
        let once = normalize_purity(raw);
        assert_eq!(normalize_purity(&once), once);
        assert_eq!(once.len(), 3);
    }
    assert_eq!(normalize_flag("x", ["x", "x", "y"], true), "100");
    assert_eq!(normalize_flag("", ["", "a", "b"], false), "100");
    assert_eq!(normalize_flag("b", ["", "a", "b"], false), "001");
}

#[test]
fn pages_are_read_leniently() {
    let body = br#"{"data":[{"path":"https://a/1.jpg"},{"path":"  "},{"path":7},{"id":"x"},
        {"path":" https://a/2.jpg "}],"meta":{"last_page":3}}"#;
    let (urls, last_page) = read_page(body, 1).unwrap();
    assert_eq!(urls, vec!["https://a/1.jpg".to_string(), " https://a/2.jpg ".to_string()]);
    assert_eq!(last_page, 3);

    assert_eq!(read_page(b"{}", 4).unwrap(), (Vec::new(), 4));
    assert_eq!(read_page(b"[]", 4).unwrap(), (Vec::new(), 4));
    assert_eq!(read_page(br#"{"data":{},"meta":[]}"#, 4).unwrap(), (Vec::new(), 4));
    assert_eq!(read_page(br#"{"meta":{"last_page":0}}"#, 4).unwrap().1, 1);
    assert_eq!(read_page(br#"{"meta":{"last_page":-2}}"#, 4).unwrap().1, 4);
    assert_eq!(read_page(br#"{"meta":{"last_page":2.5}}"#, 4).unwrap().1, 4);
    assert_eq!(read_page(br#"{"meta":{"last_page":"9"}}"#, 4).unwrap().1, 4);
    assert_eq!(read_page(br#"{"meta":{"last_page":123456}}"#, 4).unwrap().1, 10_000);
    assert_eq!(read_page(b"{}", 20_000).unwrap().1, 10_000);
    assert_eq!(read_page(b"{}", 0).unwrap().1, 1);
    let cut_off = read_page(b"{", 12).unwrap_err();
    assert_eq!(cut_off.message(), "failed to parse wallhaven response (page 12)");
    assert_eq!(cut_off.reason(), Some("EOF while parsing an object at line 1 column 1"));
    assert_eq!(
        read_page(b"", 1),
        Err(WallhavenError::InvalidResponse {
            page: 1,
            reason: "EOF while parsing a value at line 1 column 0".to_string(),
        })
    );
}

#[test]
fn parsed_pages_are_read_directly() {
    let json: serde_json::Value = serde_json::from_str(&json_page(2)).unwrap();
    let (urls, last_page) = page_contents(&json, 9);
    assert_eq!(urls.len(), 2);
    assert_eq!(urls[1], "https://w.wallhaven.cc/full/ab/w1.jpg");
    assert_eq!(last_page, 1);
}

#[test]
fn addresses_have_room_as_far_as_it_is_sure() {
    let source = |base: &str| {
        WallhavenSource::new(&wallhaven_config(), "wh".to_string()).unwrap().with_api_base(base)
    };
    assert!(source("https://wallhaven.cc/api/v1").has_room(1));
    assert!(source("https://example.com/a#b").has_room(1));
    let long = "a".repeat(0x0200_0000);
    assert!(source(&long).has_room(1));
    assert!(!source(&format!("{long}%")).has_room(1));
}

#[test]
fn parameters_stand_in_front_of_a_fragment() {
    let source = WallhavenSource::new(&wallhaven_config(), "wh".to_string())
        .unwrap()
        .with_api_base("https://example.com/a#b");
    let address = source.search_url(3).unwrap();
    assert!(address.starts_with("https://example.com/a?q=aurora&"), "{address}");
    assert!(address.ends_with("&page=3#b/search"), "{address}");
}

#[test]
fn refresh_goes_through_the_pages_until_the_limit() {
    let source = WallhavenSource::new(&wallhaven_config(), "wh".to_string()).unwrap();
    let mut refresh = Refresh::start(&source);
    let page = |n: usize| -> Vec<String> { (0..2).map(|k| format!("u{n}-{k}")).collect() };

    let wanted = refresh.wanted(&page(1));
    assert_eq!(wanted, page(1));
    assert!(refresh.add_page(found(wanted), 9));
    assert_eq!(refresh.page, 2);
    let wanted = refresh.wanted(&page(2));
    assert!(refresh.add_page(found(wanted), 9));
    assert_eq!(refresh.page, 3);
    let wanted = refresh.wanted(&page(3));
    assert_eq!(wanted, vec!["u3-0".to_string()]);
    assert!(!refresh.add_page(found(wanted), 9));
    assert_eq!(refresh.page, 3);
    assert_eq!(refresh.candidates.len(), 5);
    assert_eq!(refresh.candidates[4].id, "id:u3-0");
}

#[test]
fn refresh_stops_at_the_last_page() {
    let source = WallhavenSource::new(&wallhaven_config(), "wh".to_string()).unwrap();
    let mut refresh = Refresh::start(&source);
    assert!(refresh.add_page(Vec::new(), 2));
    assert!(!refresh.add_page(Vec::new(), 2));
    assert!(refresh.candidates.is_empty());
}

#[test]
fn a_limit_of_zero_counts_as_one() {
    let mut source = WallhavenSource::new(&wallhaven_config(), "wh".to_string()).unwrap();
    source.max_items = 0;
    let mut refresh = Refresh::start(&source);
    let wanted = refresh.wanted(&vec!["a".to_string(), "b".to_string()]);
    assert_eq!(wanted, vec!["a".to_string()]);
    assert!(!refresh.add_page(found(wanted), 5));
    assert_eq!(refresh.candidates.len(), 1);
}
