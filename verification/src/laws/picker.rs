//! What the picker window shows and asks for.

use crate::config::SourceConfig;
use crate::wallpaper_picker::fetch::{
    default_api_key, default_top_range, fetch_atleast, fetch_categories, fetch_count, fetch_purity,
    fetch_sorting,
};
use crate::wallpaper_picker::grid::PickerEntry;
use crate::wallpaper_picker::state::{
    apply_requests, label_width, merged, min_edge, requests, same_but_filter,
    same_but_monitors, ticked, toggled, without_path, PickerState, Request, TrayEvent,
};
use vstd::prelude::*;

verus! {

/// An image is applied to every ticked display and to no other, to each once and in their order;
/// without any tick it is applied once, to the whole desktop.
pub proof fn law_image_goes_to_the_ticked_displays(monitors: Seq<bool>, path: Seq<char>)
    requires
        monitors.len() <= usize::MAX,
    ensures
        (forall|k: int| 0 <= k < monitors.len() ==> !#[trigger] monitors[k]) ==> apply_requests(
            monitors,
            path,
        ) == seq![Request::ApplyWallpaper(path)],
        (exists|k: int| 0 <= k < monitors.len() && #[trigger] monitors[k]) ==> {
            &&& forall|k: usize|
                #[trigger] apply_requests(monitors, path).contains(
                    Request::ApplyWallpaperToMonitor(path, k),
                ) <==> k < monitors.len() && monitors[k as int]
            &&& forall|i: int|
                0 <= i < apply_requests(monitors, path).len() ==> (#[trigger] apply_requests(
                    monitors,
                    path,
                )[i] matches Request::ApplyWallpaperToMonitor(of, _) && of == path)
            &&& forall|i: int, j: int|
                0 <= i < j < apply_requests(monitors, path).len() ==> (#[trigger] apply_requests(
                    monitors,
                    path,
                )[i])->ApplyWallpaperToMonitor_1 < (#[trigger] apply_requests(
                    monitors,
                    path,
                )[j])->ApplyWallpaperToMonitor_1
        },
{
    let n = monitors.len() as int;
    let targets = ticked(monitors, n);
    let asked = apply_requests(monitors, path);
    crate::wallpaper_picker::state::law_targets_are_the_ticked_displays(monitors, n);
    if forall|k: int| 0 <= k < monitors.len() ==> !#[trigger] monitors[k] {
        if targets.len() > 0 {
            assert(targets.contains(targets[0]));
            assert(monitors[targets[0] as int]);
        }
    }
    if exists|k: int| 0 <= k < monitors.len() && #[trigger] monitors[k] {
        let k = choose|k: int| 0 <= k < monitors.len() && #[trigger] monitors[k];
        assert(monitors[(k as usize) as int]);
        assert(targets.contains(k as usize));
        assert forall|k: usize|
            #[trigger] asked.contains(Request::ApplyWallpaperToMonitor(path, k)) <==> k
                < monitors.len() && monitors[k as int] by {
            let one = Request::ApplyWallpaperToMonitor(path, k);
            if asked.contains(one) {
                let i = choose|i: int| 0 <= i < asked.len() && asked[i] == one;
                assert(targets[i] == k);
                assert(targets.contains(k));
            }
            if k < monitors.len() && monitors[k as int] {
                assert(targets.contains(k));
                let i = choose|i: int| 0 <= i < targets.len() && targets[i] == k;
                assert(asked[i] == one);
            }
        }
    }
}

/// What an event asks for is what it holds.
pub proof fn law_events_ask_for_what_they_hold(event: TrayEvent)
    ensures
        event matches TrayEvent::ApplyWallpaper { path } ==> event@ == Request::ApplyWallpaper(path@),
        event matches TrayEvent::ApplyWallpaperToMonitor { path, monitor } ==> event@
            == Request::ApplyWallpaperToMonitor(path@, monitor),
        event matches TrayEvent::AddFavorite { path } ==> event@ == Request::AddFavorite(path@),
        event matches TrayEvent::RemoveWallpaper { path } ==> event@ == Request::RemoveWallpaper(
            path@,
        ),
        event is ReloadSettings ==> event@ == Request::ReloadSettings,
{
}

/// The requests of a row of events are those of each event, in their order.
pub proof fn law_every_event_is_a_request(events: Seq<TrayEvent>)
    ensures
        requests(events).len() == events.len(),
        forall|i: int| 0 <= i < events.len() ==> #[trigger] requests(events)[i] == events[i]@,
{
}

/// The favorite button changes whether its own image is a favorite, and no other one.
pub proof fn law_favorite_button_changes_its_own_image(
    favorites: Set<Seq<char>>,
    path: Seq<char>,
    other: Seq<char>,
)
    ensures
        toggled(favorites, path).contains(path) <==> !favorites.contains(path),
        other != path ==> (toggled(favorites, path).contains(other) <==> favorites.contains(other)),
{
}

/// Deleting an image takes every entry with its path out of the grid, and leaves the others as
/// they stand: it does so in each part of a list.
pub proof fn law_deleting_leaves_the_other_images(
    first: Seq<PickerEntry>,
    second: Seq<PickerEntry>,
    image: PickerEntry,
    path: Seq<char>,
)
    ensures
        without_path(first + second, path) == without_path(first, path) + without_path(
            second,
            path,
        ),
        image.path@ == path ==> without_path(seq![image], path).len() == 0,
        image.path@ != path ==> without_path(seq![image], path) == seq![image],
        without_path(Seq::empty(), path).len() == 0,
{
    let keep = |entry: PickerEntry| entry.path@ != path;
    Seq::filter_distributes_over_add(first, second, keep);
    reveal_with_fuel(Seq::filter, 3);
    let one = seq![image];
    let none = Seq::<PickerEntry>::empty();
    assert(one.drop_last() == none);
    assert(one.last() == image);
    assert(without_path(none, path) =~= none);
    if image.path@ == path {
        assert(without_path(one, path) =~= none);
    } else {
        assert(without_path(one, path) =~= none.push(image));
        assert(none.push(image) =~= one);
    }
}

/// A resolution choice asks for images of that height or width at least.
pub proof fn law_resolution_choices(index: i32)
    ensures
        min_edge(1) == 1080,
        min_edge(2) == 1440,
        min_edge(3) == 2160,
        index < 1 || index > 3 ==> min_edge(index) == 0,
{
}

/// Changing the filter leaves the images, the favorites and the displays alone.
pub proof fn law_filter_changes_nothing_else(before: PickerState, after: PickerState)
    requires
        same_but_filter(before, after),
    ensures
        after.entries@ == before.entries@,
        after.favorites@ == before.favorites@,
        after.monitor_names@ == before.monitor_names@,
        after.monitors@ == before.monitors@,
{
}

/// Ticking displays leaves the images, the favorites, the filter and the names alone.
pub proof fn law_ticks_change_nothing_else(before: PickerState, after: PickerState)
    requires
        same_but_monitors(before, after),
    ensures
        after.entries@ == before.entries@,
        after.favorites@ == before.favorites@,
        after.filter == before.filter,
        after.monitor_names@ == before.monitor_names@,
{
}

/// A batch comes behind the images of the grid, or in place of all of them where a scan starts.
pub proof fn law_batches_come_behind_the_grid(
    entries: Seq<PickerEntry>,
    batch: Seq<PickerEntry>,
    k: int,
)
    ensures
        merged(entries, batch, true) == batch,
        merged(entries, batch, false).len() == entries.len() + batch.len(),
        0 <= k < entries.len() ==> merged(entries, batch, false)[k] == entries[k],
        0 <= k < batch.len() ==> merged(entries, batch, false)[entries.len() + k] == batch[k],
{
}

/// A label is as wide as its parts together; an ASCII character takes 6.8 pixels, any other 12.
pub proof fn law_labels_are_as_wide_as_their_characters(a: Seq<char>, b: Seq<char>, c: char)
    ensures
        label_width(a + b) == label_width(a) + label_width(b),
        c <= '\u{7F}' ==> label_width(seq![c]) == 68,
        c > '\u{7F}' ==> label_width(seq![c]) == 120,
        label_width(Seq::empty()) == 0,
    decreases b.len(),
{
    reveal_with_fuel(label_width, 2);
    assert(seq![c].drop_last() =~= Seq::<char>::empty());
    if b.len() == 0 {
        assert(a + b =~= a);
    } else {
        law_labels_are_as_wide_as_their_characters(a, b.drop_last(), c);
        assert((a + b).drop_last() =~= a + b.drop_last());
    }
}

/// What the choices of the fetch panel ask for.
pub proof fn law_fetch_choices_have_their_keywords(index: i32)
    ensures
        fetch_categories(1) == "general"@,
        fetch_categories(2) == "people"@,
        fetch_categories(3) == "anime"@,
        index < 1 || index > 3 ==> fetch_categories(index) == "general,people,anime"@,
        fetch_sorting(1) == "date_added"@,
        fetch_sorting(2) == "toplist"@,
        fetch_sorting(3) == "views"@,
        fetch_sorting(4) == "favorites"@,
        index < 1 || index > 4 ==> fetch_sorting(index) == "random"@,
        fetch_atleast(1) == Some("1920x1080"@),
        fetch_atleast(2) == Some("2560x1440"@),
        fetch_atleast(3) == Some("3840x2160"@),
        index < 1 || index > 3 ==> fetch_atleast(index) is None,
{
}

/// Safe images are always asked for, sketchy ones with the second and the third choice, others
/// with the third one only.
pub proof fn law_fetch_purity_widens(purity: i32)
    ensures
        fetch_purity(purity).len() == 3,
        fetch_purity(purity)[0] == '1',
        fetch_purity(purity)[1] == if purity == 1 || purity == 2 { '1' } else { '0' },
        fetch_purity(purity)[2] == if purity == 2 { '1' } else { '0' },
{
    reveal_strlit("100");
    reveal_strlit("110");
    reveal_strlit("111");
}

/// As many images are fetched as asked for, but at least one and at most 96.
pub proof fn law_fetch_count_is_kept_in_bounds(count: i32)
    ensures
        1 <= count <= 96 ==> fetch_count(count) == count,
        count < 1 ==> fetch_count(count) == 1,
        count > 96 ==> fetch_count(count) == 96,
{
}

/// A fetch takes over the range and the key of the Wallhaven source of the user, and nothing from
/// another source.
pub proof fn law_fetch_takes_over_the_key_of_the_user(source: Option<SourceConfig>)
    ensures
        source matches Some(SourceConfig::Wallhaven { top_range, api_key, .. }) ==> {
            &&& top_range matches Some(text) ==> default_top_range(source) == Some(text@)
            &&& top_range is None ==> default_top_range(source) is None
            &&& api_key matches Some(text) ==> default_api_key(source) == Some(text@)
            &&& api_key is None ==> default_api_key(source) is None
        },
        !(source matches Some(SourceConfig::Wallhaven { .. })) ==> default_top_range(source) is None
            && default_api_key(source) is None,
{
}

} // verus!
