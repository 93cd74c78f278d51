//! The Wallhaven panel of the picker: what its controls search for, and what it says while images
//! are fetched.

use crate::config::SourceConfig;
use crate::text::decimal_text;
use vstd::prelude::*;
use vstd::string::*;

verus! {

/// One in-flight "fetch more from Wallhaven" request built from the panel.
#[derive(Debug)]
pub struct FetchRequest {
    pub query: Option<String>,
    pub categories: String,
    pub purity: String,
    pub sorting: String,
    pub top_range: String,
    pub atleast: Option<String>,
    pub max_items: usize,
    pub api_key: Option<String>,
}

pub open spec fn fetch_categories(category: i32) -> Seq<char> {
    if category == 1 {
        "general"@
    } else if category == 2 {
        "people"@
    } else if category == 3 {
        "anime"@
    } else {
        "general,people,anime"@
    }
}

/// The flags of a purity choice: sfw / sketchy / nsfw.
pub open spec fn fetch_purity(purity: i32) -> Seq<char> {
    if purity == 1 {
        "110"@
    } else if purity == 2 {
        "111"@
    } else {
        "100"@
    }
}

pub open spec fn fetch_sorting(sorting: i32) -> Seq<char> {
    if sorting == 1 {
        "date_added"@
    } else if sorting == 2 {
        "toplist"@
    } else if sorting == 3 {
        "views"@
    } else if sorting == 4 {
        "favorites"@
    } else {
        "random"@
    }
}

pub open spec fn fetch_atleast(atleast: i32) -> Option<Seq<char>> {
    if atleast == 1 {
        Some("1920x1080"@)
    } else if atleast == 2 {
        Some("2560x1440"@)
    } else if atleast == 3 {
        Some("3840x2160"@)
    } else {
        None
    }
}

pub open spec fn fetch_count(count: i32) -> usize {
    if count < 1 {
        1
    } else if count > 96 {
        96
    } else {
        count as usize
    }
}

/// The top range of the user's own Wallhaven source.
pub open spec fn default_top_range(default_wallhaven: Option<SourceConfig>) -> Option<Seq<char>> {
    match default_wallhaven {
        Some(SourceConfig::Wallhaven { top_range, .. }) => crate::text::opt_text(top_range),
        _ => None,
    }
}

/// The API key of the user's own Wallhaven source.
pub open spec fn default_api_key(default_wallhaven: Option<SourceConfig>) -> Option<Seq<char>> {
    match default_wallhaven {
        Some(SourceConfig::Wallhaven { api_key, .. }) => crate::text::opt_text(api_key),
        _ => None,
    }
}

/// Turn the fetch panel controls into a concrete Wallhaven query.
pub fn build_fetch_request(
    default_wallhaven: &Option<SourceConfig>,
    query: String,
    count: i32,
    category: i32,
    purity: i32,
    sorting: i32,
    atleast: i32,
) -> (r: FetchRequest)
    ensures
        crate::text::opt_text(r.query) == if crate::text::trimmed(query@).len() == 0 {
            None
        } else {
            Some(crate::text::trimmed(query@))
        },
        r.categories@ == fetch_categories(category),
        r.purity@ == fetch_purity(purity),
        r.sorting@ == fetch_sorting(sorting),
        r.top_range@ == match default_top_range(*default_wallhaven) {
            Some(top_range) => top_range,
            None => "1M"@,
        },
        crate::text::opt_text(r.atleast) == fetch_atleast(atleast),
        r.max_items == fetch_count(count),
        crate::text::opt_text(r.api_key) == default_api_key(*default_wallhaven),
{
    let (top_range, api_key) = match default_wallhaven {
        Some(SourceConfig::Wallhaven { top_range, api_key, .. }) => (
            match top_range {
                Some(top_range) => top_range.clone(),
                None => "1M".to_owned(),
            },
            api_key.clone(),
        ),
        _ => ("1M".to_owned(), None),
    };
    let query = query.as_str().trim().to_owned();
    FetchRequest {
        query: if query.as_str().is_empty() {
            None
        } else {
            Some(query)
        },
        categories: match category {
            1 => "general".to_owned(),
            2 => "people".to_owned(),
            3 => "anime".to_owned(),
            _ => "general,people,anime".to_owned(),
        },
        purity: match purity {
            1 => "110".to_owned(),
            2 => "111".to_owned(),
            _ => "100".to_owned(),
        },
        sorting: match sorting {
            1 => "date_added".to_owned(),
            2 => "toplist".to_owned(),
            3 => "views".to_owned(),
            4 => "favorites".to_owned(),
            _ => "random".to_owned(),
        },
        top_range,
        atleast: match atleast {
            1 => Some("1920x1080".to_owned()),
            2 => Some("2560x1440".to_owned()),
            3 => Some("3840x2160".to_owned()),
            _ => None,
        },
        max_items: if count < 1 {
            1
        } else if count > 96 {
            96
        } else {
            count as usize
        },
        api_key,
    }
}

impl FetchRequest {
    /// The source that the request searches.
    pub fn source_config(self) -> (r: SourceConfig)
        ensures
            r == (SourceConfig::Wallhaven {
                query: self.query,
                categories: Some(self.categories),
                purity: Some(self.purity),
                sorting: Some(self.sorting),
                top_range: Some(self.top_range),
                atleast: self.atleast,
                max_items: self.max_items,
                api_key: self.api_key,
            }),
    {
        SourceConfig::Wallhaven {
            query: self.query,
            categories: Some(self.categories),
            purity: Some(self.purity),
            sorting: Some(self.sorting),
            top_range: Some(self.top_range),
            atleast: self.atleast,
            max_items: self.max_items,
            api_key: self.api_key,
        }
    }
}

/// Every combination of the panel controls is a query that Wallhaven understands: known
/// categories, a purity flag string, and a limit between 1 and 96.
pub proof fn law_every_panel_choice_is_a_valid_query(category: i32, purity: i32, count: i32)
    ensures
        1 <= fetch_count(count) <= 96,
        crate::sources::wallhaven::is_flags(fetch_purity(purity)),
        crate::sources::wallhaven::normalized_flags(
            fetch_purity(purity),
            crate::sources::wallhaven::purity_names(),
            false,
        ) == fetch_purity(purity),
        crate::sources::wallhaven::normalized_flags(
            fetch_categories(category),
            crate::sources::wallhaven::category_names(),
            true,
        ) == if category == 1 {
            "100"@
        } else if category == 2 {
            "010"@
        } else if category == 3 {
            "001"@
        } else {
            "111"@
        },
{
    reveal_strlit("110");
    reveal_strlit("111");
    reveal_strlit("100");
    reveal_strlit("010");
    reveal_strlit("001");
    let flags = fetch_purity(purity);
    assert(crate::sources::wallhaven::is_flags(flags));
    assert(crate::text::trimmed(flags) == flags) by {
        assert(flags[0] == '1');
        assert(flags[2] == '0' || flags[2] == '1');
    }
    reveal_strlit("general");
    reveal_strlit("people");
    reveal_strlit("anime");
    reveal_strlit(",");
    reveal_strlit("general,people,anime");
    let general = !(category == 2 || category == 3);
    let people = !(category == 1 || category == 3);
    let anime = !(category == 1 || category == 2);
    let names = crate::settings::save::chosen(
        general,
        "general"@,
        people,
        "people"@,
        anime,
        "anime"@,
    );
    reveal_with_fuel(crate::text::joined, 3);
    assert(crate::text::joined(names, ","@) =~= fetch_categories(category));
    crate::settings::laws::lemma_words_become_flags(
        general,
        "general"@,
        people,
        "people"@,
        anime,
        "anime"@,
        true,
    );
    assert(seq![
        crate::sources::wallhaven::flag_char(general),
        crate::sources::wallhaven::flag_char(people),
        crate::sources::wallhaven::flag_char(anime),
    ] =~= if category == 1 {
        "100"@
    } else if category == 2 {
        "010"@
    } else if category == 3 {
        "001"@
    } else {
        "111"@
    });
}

/// What the panel shows: whether a fetch is running, and a line about it.
#[derive(Debug)]
pub struct FetchStatus {
    pub fetching: bool,
    pub status: String,
}

/// The panel when a fetch starts.
pub fn fetch_started() -> (r: FetchStatus)
    ensures
        r.fetching,
        r.status@ == "正在查询 Wallhaven…"@,
{
    FetchStatus { fetching: true, status: "正在查询 Wallhaven…".to_owned() }
}

/// The panel when there is no directory to download to.
pub fn cache_dir_failed(error: &str) -> (r: FetchStatus)
    ensures
        !r.fetching,
        r.status@ == "无法准备缓存目录："@ + error@,
{
    let mut status = "无法准备缓存目录：".to_owned();
    status.append(error);
    FetchStatus { fetching: false, status }
}

/// The panel when nothing can be downloaded at all.
pub fn runtime_failed(error: &str) -> (r: FetchStatus)
    ensures
        !r.fetching,
        r.status@ == "无法启动下载运行时："@ + error@,
{
    let mut status = "无法启动下载运行时：".to_owned();
    status.append(error);
    FetchStatus { fetching: false, status }
}

/// The downloads of a fetch: how many images were found, and how many are there so far.
#[derive(Debug)]
pub struct Downloads {
    pub found: usize,
    pub downloaded: usize,
}

impl Downloads {
    /// The downloads before the first image.
    pub fn start(found: usize) -> (r: Self)
        ensures
            r.found == found,
            r.downloaded == 0,
    {
        Downloads { found, downloaded: 0 }
    }

    /// Counts an image that was downloaded, and says so. Each image found is counted at most once.
    pub fn downloaded_one(&mut self) -> (r: FetchStatus)
        requires
            old(self).downloaded < old(self).found,
        ensures
            final(self).found == old(self).found,
            final(self).downloaded == old(self).downloaded + 1,
            r.fetching,
            r.status@ == "已下载 "@ + crate::text::decimal(final(self).downloaded as nat) + "/"@
                + crate::text::decimal(final(self).found as nat) + " 张…"@,
    {
        self.downloaded = self.downloaded + 1;
        let mut status = "已下载 ".to_owned();
        status.append(decimal_text(self.downloaded as u64).as_str());
        status.append("/");
        status.append(decimal_text(self.found as u64).as_str());
        status.append(" 张…");
        FetchStatus { fetching: true, status }
    }
}

/// How a fetch ended: what the panel shows, and whether there is anything new to scan for, in the
/// grid and in the sources of the rotation.
#[derive(Debug)]
pub struct FetchEnd {
    pub shown: FetchStatus,
    pub rescan: bool,
}

/// The end of a fetch. `outcome` holds the downloads, or what went wrong.
pub fn fetch_finished(outcome: Result<Downloads, String>) -> (r: FetchEnd)
    ensures
        !r.shown.fetching,
        r.rescan <==> outcome is Ok && outcome->Ok_0.found > 0,
        r.shown.status@ == match outcome {
            Ok(downloads) => if downloads.found > 0 {
                "完成：新下载 "@ + crate::text::decimal(downloads.downloaded as nat)
                    + " 张，正在刷新列表…"@
            } else {
                "没有匹配的壁纸，换个关键词或分类试试"@
            },
            Err(error) => "拉取失败："@ + error@ + "（若站点无法直连，请在设置里配置 proxy）"@,
        },
{
    match outcome {
        Ok(downloads) => {
            if downloads.found > 0 {
                let mut status = "完成：新下载 ".to_owned();
                status.append(decimal_text(downloads.downloaded as u64).as_str());
                status.append(" 张，正在刷新列表…");
                FetchEnd { shown: FetchStatus { fetching: false, status }, rescan: true }
            } else {
                let status = "没有匹配的壁纸，换个关键词或分类试试".to_owned();
                FetchEnd { shown: FetchStatus { fetching: false, status }, rescan: false }
            }
        },
        Err(error) => {
            let mut status = "拉取失败：".to_owned();
            status.append(error.as_str());
            status.append("（若站点无法直连，请在设置里配置 proxy）");
            FetchEnd { shown: FetchStatus { fetching: false, status }, rescan: false }
        },
    }
}

} // verus!
