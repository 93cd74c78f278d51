//! What callers of the operations get.

use crate::config::SourceConfig;
use crate::laws::form::{law_defaults_are_shown_without_a_wallhaven_source, shows_values};
use crate::laws::grid::{law_grid_shows_the_visible_images_in_order, shows_images};
use crate::laws::rotation::listed;
use crate::laws::scan::{
    image_extension, image_path, law_every_offered_image_is_collected,
    law_images_are_told_by_their_extension, dot_at,
};
use crate::laws::search::{asks_for, law_query_carries_what_the_search_asks_for};
use crate::rotation::RotationManager;
use crate::settings::form::{wallhaven_form, WallhavenForm};
use crate::settings::window::{file_opened, opened, reloaded, saved, WindowReply};
use crate::sources::wallhaven::{Refresh, WallhavenError, WallhavenSource};
use crate::sources::{ImageCandidate, Location, Origin};
use crate::state::PersistedState;
use crate::text::{decimal, trimmed};
use crate::wallpaper::windows::{WallpaperPlan, WindowsWallpaperBackend};
use crate::wallpaper::{default_backend, BackendKind, Platform, WallpaperError};
use crate::wallpaper_picker::fetch::{
    build_fetch_request, fetch_finished, Downloads, FetchEnd, FetchRequest,
};
use crate::wallpaper_picker::grid::{build_cells, PickerEntry, PickerFilter, WallpaperCell};
use crate::wallpaper_picker::scan::{
    collect_local_images, is_supported_image, probe_entry, scan_targets, thumbnail_pixels,
    walk_depth, Pixel, Probe, ScanTarget,
};
use crate::wallpaper_picker::state::{MonitorChip, PickerState, TrayEvent};
use vstd::hash_set::StringHashSet;
use vstd::prelude::*;

verus! {

/// Every display gets one of the wallpapers: the first ones in their order, and the same again
/// where there are more displays than wallpapers. Only without wallpapers is there no plan, and
/// only without displays is the whole desktop taken for one.
pub proof fn law_wallpapers_are_dealt_out_in_turn(
    backend: &WindowsWallpaperBackend,
    wallpapers: usize,
    monitors: usize,
    r: Result<WallpaperPlan, WallpaperError>,
    i: int,
)
    requires
        call_ensures(
            WindowsWallpaperBackend::plan_wallpapers,
            (backend, wallpapers, monitors),
            r,
        ),
    ensures
        r is Err <==> wallpapers == 0,
        r is Err ==> r->Err_0 is NoWallpapers,
        wallpapers > 0 && monitors == 0 ==> r->Ok_0 is WholeDesktop,
        wallpapers > 0 && monitors > 0 ==> r->Ok_0 is PerMonitor && r->Ok_0->choices@.len()
            == monitors,
        wallpapers > 0 && 0 <= i < monitors && i < wallpapers ==> r->Ok_0->choices@[i] == i,
        wallpapers > 0 && 0 <= i < monitors - wallpapers ==> r->Ok_0->choices@[i + wallpapers]
            == r->Ok_0->choices@[i],
{
    if wallpapers > 0 && 0 <= i < monitors {
        let n = wallpapers as int;
        assert(r->Ok_0->choices@[i] == i % n);
        if i < n {
            vstd::arithmetic::div_mod::lemma_small_mod(i as nat, n as nat);
        }
        if i < monitors - n {
            assert(r->Ok_0->choices@[i + n] == (i + n) % n);
            vstd::arithmetic::div_mod::lemma_mod_add_multiples_vanish(i, n);
        }
    }
}

/// An update counts as done only where a display took its wallpaper.
pub proof fn law_done_updates_reached_a_display(
    backend: &WindowsWallpaperBackend,
    applied: &Vec<bool>,
    r: Result<(), WallpaperError>,
)
    requires
        call_ensures(WindowsWallpaperBackend::conclude, (backend, applied), r),
    ensures
        r is Ok ==> exists|i: int| 0 <= i < applied@.len() && #[trigger] applied@[i],
        r is Err ==> r->Err_0 is AllMonitorsFailed,
{
}

/// A display is refused exactly where there are not so many.
pub proof fn law_displays_out_of_range_are_refused(
    backend: &WindowsWallpaperBackend,
    index: usize,
    count: usize,
    r: Result<(), WallpaperError>,
)
    requires
        call_ensures(WindowsWallpaperBackend::check_monitor, (backend, index, count), r),
    ensures
        r is Ok <==> index < count,
        r is Err ==> r->Err_0 == (WallpaperError::MonitorOutOfRange { index, count }),
{
}

/// Every platform has a backend of its own, but those that are not known.
pub proof fn law_platforms_have_their_backends(platform: Platform, r: BackendKind)
    requires
        call_ensures(default_backend, (platform,), r),
    ensures
        platform == Platform::Windows <==> r == BackendKind::Windows,
        platform == Platform::Linux <==> r == BackendKind::Linux,
        platform == Platform::Macos <==> r == BackendKind::Mac,
        platform == Platform::Other <==> r == BackendKind::Unsupported,
{
}

/// The cells of the grid show every visible image once, and in the order of the filter.
pub proof fn law_built_cells_show_the_visible_images(
    entries: &Vec<PickerEntry>,
    favorites: &StringHashSet,
    filter: &PickerFilter,
    r: Vec<WallpaperCell>,
)
    requires
        call_ensures(build_cells, (entries, favorites, filter), r),
    ensures
        exists|from: Seq<int>| #[trigger]
            shows_images(r@, entries@, favorites@, *filter, from),
{
    law_grid_shows_the_visible_images_in_order(r@, entries@, favorites@, *filter);
}

/// The query parameters of a search are what it asks for, each by the value of its own field.
pub proof fn law_query_parameters_are_what_is_asked_for(
    search: &WallhavenSource,
    page: u32,
    r: Vec<(String, String)>,
)
    requires
        call_ensures(WallhavenSource::query_params, (search, page), r),
    ensures
        forall|k: int|
            0 <= k < r@.len() ==> asks_for(*search, page, (#[trigger] r@[k]).0@, r@[k].1@),
        forall|name: Seq<char>, value: Seq<char>| #[trigger]
            asks_for(*search, page, name, value) ==> exists|k: int|
                0 <= k < r@.len() && (#[trigger] r@[k]).0@ == name && r@[k].1@ == value,
        forall|i: int, j: int|
            0 <= i < j < r@.len() ==> (#[trigger] r@[i]).0@ != (#[trigger] r@[j]).0@,
{
    let params = crate::sources::wallhaven::pair_texts(r@);
    law_query_carries_what_the_search_asks_for(*search, page);
    assert forall|k: int| 0 <= k < r@.len() implies asks_for(
        *search,
        page,
        (#[trigger] r@[k]).0@,
        r@[k].1@,
    ) by {
        assert(params[k] == (r@[k].0@, r@[k].1@));
        assert(params.contains(params[k]));
    }
    assert forall|name: Seq<char>, value: Seq<char>| #[trigger]
        asks_for(*search, page, name, value) implies exists|k: int|
        0 <= k < r@.len() && (#[trigger] r@[k]).0@ == name && r@[k].1@ == value by {
        assert(params.contains((name, value)));
        let k = choose|k: int| 0 <= k < params.len() && params[k] == (name, value);
        assert(r@[k].0@ == name && r@[k].1@ == value);
    }
    assert forall|i: int, j: int| 0 <= i < j < r@.len() implies (#[trigger] r@[i]).0@
        != (#[trigger] r@[j]).0@ by {
        assert(params[i].0 == r@[i].0@ && params[j].0 == r@[j].0@);
    }
}

/// The form of a list with a Wallhaven source shows the first one; that of another list is
/// disabled.
pub proof fn law_wallhaven_form_shows_the_first_source(
    sources: &Vec<SourceConfig>,
    r: WallhavenForm,
    at: int,
)
    requires
        call_ensures(wallhaven_form, (sources,), r),
        0 <= at <= sources@.len(),
        forall|i: int| 0 <= i < at ==> !(#[trigger] sources@[i] is Wallhaven),
        at < sources@.len() ==> sources@[at] is Wallhaven,
    ensures
        at < sources@.len() ==> shows_values(r, sources@[at]),
        at == sources@.len() ==> !r.enabled,
{
    law_defaults_are_shown_without_a_wallhaven_source(r, sources@);
    if at < sources@.len() {
        crate::laws::form::law_first_wallhaven_source_is_shown(r, sources@, at);
    }
}

/// Every image that was found for a directory, recursive or not, is collected, and so is the image
/// of a file source.
pub proof fn law_found_images_are_collected(
    sources: &Vec<SourceConfig>,
    found: &Vec<Vec<String>>,
    r: Vec<String>,
    i: int,
    k: int,
)
    requires
        call_ensures(collect_local_images, (sources, found), r),
        0 <= i < sources@.len(),
    ensures
        sources@[i] is Directory && i < found@.len() && 0 <= k < found@[i]@.len() && image_path(
            found@[i]@[k]@,
        ) ==> listed(r@, found@[i]@[k]@),
        sources@[i] matches SourceConfig::File { path } ==> image_path(path@) ==> listed(r@, path@),
{
    let images = crate::text::texts(r@);
    law_every_offered_image_is_collected(sources@, found@, images);
    crate::laws::rotation::lemma_listed(r@);
    if sources@[i] is Directory && i < found@.len() && 0 <= k < found@[i]@.len() && image_path(
        found@[i]@[k]@,
    ) {
        assert(images.contains(found@[i]@[k]@));
    }
    if let SourceConfig::File { path } = sources@[i] {
        if image_path(path@) {
            assert(images.contains(sources@[i]->File_path@));
        }
    }
}

/// A file is taken for an image exactly by its extension.
pub proof fn law_files_are_images_by_their_extension(path: &str, r: bool, start: int, dot: int)
    requires
        call_ensures(is_supported_image, (path,), r),
        dot_at(path@, start, dot),
    ensures
        r <==> image_extension(path@.skip(dot + 1)),
{
    law_images_are_told_by_their_extension(path@, start, dot, r);
}

/// The walk through a directory goes into its directories exactly if the source is recursive.
pub proof fn law_walks_stay_in_the_directory(recursive: bool, r: Option<usize>)
    requires
        call_ensures(walk_depth, (recursive,), r),
    ensures
        r is None <==> recursive,
        r matches Some(depth) ==> depth == 1,
{
}

/// Every image is probed once, the local ones first, each marked with where it comes from.
pub proof fn law_local_images_are_probed_first(
    local: &Vec<String>,
    remote: &Vec<String>,
    r: Vec<ScanTarget>,
    k: int,
)
    requires
        call_ensures(scan_targets, (local, remote), r),
    ensures
        r@.len() == local@.len() + remote@.len(),
        0 <= k < local@.len() ==> r@[k].path@ == local@[k]@ && r@[k].local,
        local@.len() <= k < r@.len() ==> r@[k].path@ == remote@[k - local@.len()]@ && !r@[k].local,
{
    if local@.len() <= k < r@.len() {
        let i = k - local@.len();
        assert(r@[local@.len() + i] == r@[k]);
    }
}

/// An entry of the grid is what probing its file found.
pub proof fn law_entries_are_what_was_probed(probe: Probe, r: PickerEntry)
    requires
        call_ensures(probe_entry, (probe,), r),
    ensures
        r.path@ == probe.path@,
        r.thumb_path@ == probe.thumb_path@,
        r.local == probe.local,
        r.width == probe.width,
        r.height == probe.height,
        r.bytes == probe.bytes,
        probe.modified matches Some(secs) ==> r.modified == secs,
        probe.modified is None ==> r.modified == 0,
{
}

/// The pixels of a thumbnail are its bytes, four by four; what is missing is transparent.
pub proof fn law_thumbnails_show_their_bytes(
    width: u32,
    height: u32,
    buffer: &Vec<u8>,
    r: Vec<Pixel>,
    k: int,
)
    requires
        call_ensures(thumbnail_pixels, (width, height, buffer), r),
    ensures
        r@.len() == width * height,
        0 <= k < r@.len() && 4 * k + 3 < buffer@.len() ==> r@[k].r == buffer@[4 * k] && r@[k].g
            == buffer@[4 * k + 1] && r@[k].b == buffer@[4 * k + 2] && r@[k].a == buffer@[4 * k + 3],
        0 <= k < r@.len() && 4 * k + 3 >= buffer@.len() ==> r@[k].r == 0 && r@[k].g == 0 && r@[k].b
            == 0 && r@[k].a == 0,
{
}

/// A fetch asks for the trimmed text of the panel, and takes over the range and the key of the
/// user's own source.
pub proof fn law_fetch_asks_for_what_the_panel_says(
    source: &Option<SourceConfig>,
    query: String,
    count: i32,
    category: i32,
    purity: i32,
    sorting: i32,
    atleast: i32,
    r: FetchRequest,
)
    requires
        call_ensures(
            build_fetch_request,
            (source, query, count, category, purity, sorting, atleast),
            r,
        ),
    ensures
        trimmed(query@).len() > 0 ==> (r.query matches Some(text) && text@ == trimmed(
            query@,
        )),
        trimmed(query@).len() == 0 ==> r.query is None,
        category == 1 ==> r.categories@ == "general"@,
        category == 2 ==> r.categories@ == "people"@,
        category == 3 ==> r.categories@ == "anime"@,
        category < 1 || category > 3 ==> r.categories@ == "general,people,anime"@,
        purity == 1 ==> r.purity@ == "110"@,
        purity == 2 ==> r.purity@ == "111"@,
        purity < 1 || purity > 2 ==> r.purity@ == "100"@,
        sorting == 1 ==> r.sorting@ == "date_added"@,
        sorting == 2 ==> r.sorting@ == "toplist"@,
        sorting == 3 ==> r.sorting@ == "views"@,
        sorting == 4 ==> r.sorting@ == "favorites"@,
        sorting < 1 || sorting > 4 ==> r.sorting@ == "random"@,
        atleast == 1 ==> (r.atleast matches Some(text) && text@ == "1920x1080"@),
        atleast == 2 ==> (r.atleast matches Some(text) && text@ == "2560x1440"@),
        atleast == 3 ==> (r.atleast matches Some(text) && text@ == "3840x2160"@),
        atleast < 1 || atleast > 3 ==> r.atleast is None,
        1 <= count <= 96 ==> r.max_items == count,
        count < 1 ==> r.max_items == 1,
        count > 96 ==> r.max_items == 96,
        *source matches Some(SourceConfig::Wallhaven { top_range, api_key, .. }) ==> {
            &&& top_range matches Some(text) ==> r.top_range@ == text@
            &&& top_range is None ==> r.top_range@ == "1M"@
            &&& api_key matches Some(text) ==> r.api_key matches Some(own) && own@ == text@
            &&& api_key is None ==> r.api_key is None
        },
        !(*source matches Some(SourceConfig::Wallhaven { .. })) ==> r.top_range@ == "1M"@
            && r.api_key is None,
{
}

/// The search for a fetch has all values of the fetch.
pub proof fn law_fetch_is_searched_for(
    request: FetchRequest,
    source: SourceConfig,
    download_dir: String,
    r: Result<WallhavenSource, WallhavenError>,
)
    requires
        call_ensures(FetchRequest::source_config, (request,), source),
        call_ensures(WallhavenSource::new, (&source, download_dir), r),
    ensures
        r is Ok,
        ({
            let search = r->Ok_0;
            &&& request.query matches Some(text) ==> search.query matches Some(own) && own@ == text@
            &&& request.query is None ==> search.query is None
            &&& search.categories@ == request.categories@
            &&& search.purity@ == request.purity@
            &&& search.sorting@ == request.sorting@
            &&& search.top_range@ == request.top_range@
            &&& request.atleast matches Some(text) ==> search.atleast matches Some(own) && own@
                == text@
            &&& request.atleast is None ==> search.atleast is None
            &&& search.max_items == request.max_items
            &&& request.api_key matches Some(text) ==> search.api_key matches Some(own) && own@
                == text@
            &&& request.api_key is None ==> search.api_key is None
            &&& search.download_dir@ == download_dir@
        }),
{
}

/// A source that is no Wallhaven one cannot be searched for.
pub proof fn law_other_sources_are_not_searched_for(
    source: &SourceConfig,
    download_dir: String,
    r: Result<WallhavenSource, WallhavenError>,
)
    requires
        call_ensures(WallhavenSource::new, (source, download_dir), r),
    ensures
        r is Ok <==> *source is Wallhaven,
        r is Err ==> r->Err_0 is NotWallhaven,
{
}

/// The grid and the sources are scanned again exactly where a fetch found images; the panel says
/// how many were downloaded, or what went wrong.
pub proof fn law_fetches_end_with_what_came_of_them(
    outcome: Result<Downloads, String>,
    r: FetchEnd,
)
    requires
        call_ensures(fetch_finished, (outcome,), r),
    ensures
        !r.shown.fetching,
        r.rescan <==> outcome is Ok && outcome->Ok_0.found > 0,
        r.rescan ==> r.shown.status@ == "完成：新下载 "@ + decimal(
            outcome->Ok_0.downloaded as nat,
        ) + " 张，正在刷新列表…"@,
        outcome matches Err(error) ==> r.shown.status@ == "拉取失败："@ + error@
            + "（若站点无法直连，请在设置里配置 proxy）"@,
        outcome is Ok && !r.rescan ==> r.shown.status@ == "没有匹配的壁纸，换个关键词或分类试试"@,
{
}

/// The main loop reloads the configuration exactly after it was saved; whatever fails is said with
/// its reason, and nothing is said where nothing happened.
pub proof fn law_only_saving_reloads(
    parsed: bool,
    outcome: &Result<(), String>,
    at_start: WindowReply,
    after_save: WindowReply,
    after_reload: WindowReply,
    after_open: WindowReply,
)
    requires
        call_ensures(opened, (parsed,), at_start),
        call_ensures(saved, (outcome,), after_save),
        call_ensures(reloaded, (outcome,), after_reload),
        call_ensures(file_opened, (outcome,), after_open),
    ensures
        after_save.reload <==> *outcome is Ok,
        !at_start.reload && !after_reload.reload && !after_open.reload,
        at_start.status is None <==> parsed,
        after_open.status is None <==> *outcome is Ok,
        after_save.status is Some && after_reload.status is Some,
        *outcome matches Err(error) ==> after_save.status->0@ == "保存失败: "@ + error@
            && after_reload.status->0@ == "重载失败: "@ + error@ && after_open.status->0@
            == "打开配置文件失败: "@ + error@,
{
}

/// The chooser shows every display by its name, ticked where it is ticked; as many displays are
/// counted as selected as there are ticks.
pub proof fn law_chooser_shows_the_ticks(
    state: &PickerState,
    chips: Vec<MonitorChip>,
    count: usize,
    k: int,
)
    requires
        call_ensures(PickerState::monitor_chips, (state,), chips),
        call_ensures(PickerState::selected_monitor_count, (state,), count),
        state.monitor_names@.len() == state.monitors@.len(),
    ensures
        chips@.len() == state.monitors@.len(),
        0 <= k < chips@.len() ==> chips@[k].name@ == state.monitor_names@[k]@ && chips@[k].selected
            == state.monitors@[k],
        count == state.monitors@.filter(|tick: bool| tick).len(),
{
    lemma_ticks(state.monitors@, state.monitors@.len() as int);
    assert(state.monitors@.take(state.monitors@.len() as int) =~= state.monitors@);
}

proof fn lemma_ticks(monitors: Seq<bool>, n: int)
    requires
        0 <= n <= monitors.len(),
    ensures
        crate::wallpaper_picker::state::ticked(monitors, n).len() == monitors.take(n).filter(
            |tick: bool| tick,
        ).len(),
    decreases n,
{
    reveal(Seq::filter);
    if n > 0 {
        lemma_ticks(monitors, n - 1);
        assert(monitors.take(n).drop_last() =~= monitors.take(n - 1));
    }
}

/// An image is applied to the display that is asked for, and to the whole desktop where that is.
pub proof fn law_single_requests_name_their_display(
    state: &PickerState,
    path: &str,
    index: i32,
    one: TrayEvent,
    all: TrayEvent,
)
    requires
        call_ensures(PickerState::apply_to_monitor, (state, path, index), one),
        call_ensures(PickerState::apply_all, (state, path), all),
        index >= 0,
    ensures
        one matches TrayEvent::ApplyWallpaperToMonitor { path: own, monitor } && own@ == path@
            && monitor == index,
        all matches TrayEvent::ApplyWallpaper { path: own } && own@ == path@,
{
}

/// The pool has as many candidates as it lists, and a saved cycle is the one that there is.
pub proof fn law_saved_cycle_is_the_current_one(
    manager: &RotationManager,
    size: usize,
    list: Vec<ImageCandidate>,
    state: PersistedState,
    id: Seq<char>,
)
    requires
        manager.wf(),
        manager@.wf(),
        call_ensures(RotationManager::pool_size, (manager,), size),
        call_ensures(RotationManager::candidates, (manager,), list),
        call_ensures(RotationManager::export_state, (manager,), state),
    ensures
        list@.len() == size,
        state.remaining_queue@.len() == manager@.remaining.len(),
        forall|k: int|
            0 <= k < state.remaining_queue@.len() ==> (#[trigger] state.remaining_queue@[k])@
                == manager@.remaining[k],
        listed(state.shown_ids@, id) <==> manager@.shown.contains(id),
        state.favorites@.len() == 0,
        state.last_image_id is None,
{
    crate::laws::rotation::lemma_listed(state.shown_ids@);
    let shown = crate::text::texts(state.shown_ids@);
    assert(shown.to_set().contains(id) <==> shown.contains(id));
    let queue = crate::text::texts(state.remaining_queue@);
    assert(queue.len() == state.remaining_queue@.len());
    assert forall|k: int| 0 <= k < state.remaining_queue@.len() implies (
    #[trigger] state.remaining_queue@[k])@ == manager@.remaining[k] by {
        assert(queue[k] == state.remaining_queue@[k]@);
    }
}

/// A page gives its first images, as many as there is room for, but at least one.
pub proof fn law_wanted_images_are_the_first_ones(
    refresh: &Refresh,
    urls: &Vec<String>,
    r: Vec<String>,
    k: int,
)
    requires
        call_ensures(Refresh::wanted, (refresh, urls), r),
    ensures
        r@.len() <= urls@.len(),
        0 <= k < r@.len() ==> r@[k]@ == urls@[k]@,
        refresh.candidates@.len() < refresh.max_items ==> refresh.candidates@.len() + r@.len()
            <= refresh.max_items,
        r@.len() < urls@.len() ==> refresh.candidates@.len() + r@.len() >= refresh.max_items,
        urls@.len() > 0 ==> r@.len() > 0,
        refresh.candidates@.len() >= refresh.max_items ==> r@.len() <= 1,
{
    let all = crate::text::texts(urls@);
    let mine = crate::text::texts(r@);
    assert(all.len() == urls@.len() && mine.len() == r@.len());
    if 0 <= k < r@.len() {
        assert(mine[k] == r@[k]@ && all[k] == urls@[k]@);
    }
}

/// A refresh starts at the first page, with nothing, and within the limit of its source; another
/// base changes nothing else of a source.
pub proof fn law_refresh_starts_with_its_source(
    source: WallhavenSource,
    base: &str,
    moved: WallhavenSource,
    refresh: Refresh,
)
    requires
        call_ensures(WallhavenSource::with_api_base, (source, base), moved),
        call_ensures(Refresh::start, (&moved,), refresh),
    ensures
        moved.api_base@ == base@,
        moved.query == source.query,
        moved.categories == source.categories,
        moved.purity == source.purity,
        moved.sorting == source.sorting,
        moved.top_range == source.top_range,
        moved.atleast == source.atleast,
        moved.api_key == source.api_key,
        refresh.page == 1,
        refresh.candidates@.len() == 0,
        refresh.max_items == source.max_items,
        refresh.download_dir@ == source.download_dir@,
{
}

/// Candidates hold what they are made of, and only files of this machine are local.
pub proof fn law_candidates_hold_what_they_are_made_of(
    id: String,
    origin: Origin,
    place: String,
    download_dir: String,
    modified: Option<u64>,
    local: ImageCandidate,
    remote: ImageCandidate,
)
    requires
        call_ensures(ImageCandidate::local, (id, origin, place, modified), local),
        call_ensures(ImageCandidate::rss, (id, place, download_dir, modified), remote),
    ensures
        local.id == id && local.modified == modified && local.origin == origin,
        local.location matches Location::Local { path } && path == place,
        local.local_file(),
        remote.id == id && remote.modified == modified && remote.origin == Origin::Rss,
        remote.location matches Location::Remote { url, download_dir: dir } && url == place && dir
            == download_dir,
        !remote.local_file(),
{
}

} // verus!
