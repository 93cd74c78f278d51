//! The state of the picker and what its controls do to it.

use crate::text::{chars_of, same_text};
use crate::wallpaper_picker::grid::{build_cells, PickerEntry, PickerFilter, WallpaperCell};
use vstd::hash_set::StringHashSet;
use vstd::prelude::*;
use vstd::string::*;

verus! {

/// What the picker asks of the main loop. Paths are held as text.
#[derive(Debug)]
pub enum TrayEvent {
    /// Show an image on the whole desktop.
    ApplyWallpaper { path: String },
    /// Show an image on one display.
    ApplyWallpaperToMonitor { path: String, monitor: usize },
    /// Add an image to the favorites, or take it out again.
    AddFavorite { path: String },
    /// Drop an image.
    RemoveWallpaper { path: String },
    /// Load the configuration and rebuild the sources.
    ReloadSettings,
}

/// The view of a `TrayEvent`.
pub enum Request {
    ApplyWallpaper(Seq<char>),
    ApplyWallpaperToMonitor(Seq<char>, usize),
    AddFavorite(Seq<char>),
    RemoveWallpaper(Seq<char>),
    ReloadSettings,
}

impl View for TrayEvent {
    type V = Request;

    open spec fn view(&self) -> Request {
        match *self {
            TrayEvent::ApplyWallpaper { path } => Request::ApplyWallpaper(path@),
            TrayEvent::ApplyWallpaperToMonitor { path, monitor } => {
                Request::ApplyWallpaperToMonitor(path@, monitor)
            },
            TrayEvent::AddFavorite { path } => Request::AddFavorite(path@),
            TrayEvent::RemoveWallpaper { path } => Request::RemoveWallpaper(path@),
            TrayEvent::ReloadSettings => Request::ReloadSettings,
        }
    }
}

/// One display of the display chooser.
#[derive(Debug)]
pub struct MonitorChip {
    pub name: String,
    pub selected: bool,
}

/// What the picker window shows: the wallpapers, the favorites among them, the filter, and which
/// displays are ticked.
pub struct PickerState {
    pub entries: Vec<PickerEntry>,
    pub favorites: StringHashSet,
    pub filter: PickerFilter,
    pub monitor_names: Vec<String>,
    pub monitors: Vec<bool>,
}

/// The ticked displays among the first `n`, in their order.
pub open spec fn ticked(monitors: Seq<bool>, n: int) -> Seq<usize>
    decreases n,
{
    if n <= 0 {
        Seq::empty()
    } else if monitors[n - 1] {
        ticked(monitors, n - 1).push((n - 1) as usize)
    } else {
        ticked(monitors, n - 1)
    }
}

/// What applying an image to the ticked displays asks for; with no tick, the whole desktop.
pub open spec fn apply_requests(monitors: Seq<bool>, path: Seq<char>) -> Seq<Request> {
    let targets = ticked(monitors, monitors.len() as int);
    if targets.len() == 0 {
        seq![Request::ApplyWallpaper(path)]
    } else {
        targets.map_values(|monitor: usize| Request::ApplyWallpaperToMonitor(path, monitor))
    }
}

/// The view of each event.
pub open spec fn requests(events: Seq<TrayEvent>) -> Seq<Request> {
    events.map_values(|event: TrayEvent| event@)
}

/// A set with an item added, or taken out where it was there.
pub open spec fn toggled(set: Set<Seq<char>>, item: Seq<char>) -> Set<Seq<char>> {
    if set.contains(item) {
        set.remove(item)
    } else {
        set.insert(item)
    }
}

/// The entries with another path.
pub open spec fn without_path(entries: Seq<PickerEntry>, path: Seq<char>) -> Seq<PickerEntry> {
    entries.filter(|entry: PickerEntry| entry.path@ != path)
}

/// The minimum longest edge of a resolution choice.
pub open spec fn min_edge(index: i32) -> u32 {
    if index == 1 {
        1080
    } else if index == 2 {
        1440
    } else if index == 3 {
        2160
    } else {
        0
    }
}

/// Whether two states agree on everything but the filter.
pub open spec fn same_but_filter(a: PickerState, b: PickerState) -> bool {
    &&& a.entries == b.entries
    &&& a.favorites == b.favorites
    &&& a.monitor_names == b.monitor_names
    &&& a.monitors == b.monitors
}

/// Whether two states agree on everything but the ticked displays.
pub open spec fn same_but_monitors(a: PickerState, b: PickerState) -> bool {
    &&& a.entries == b.entries
    &&& a.favorites == b.favorites
    &&& a.filter == b.filter
    &&& a.monitor_names == b.monitor_names
}

impl PickerState {
    /// A picker without wallpapers, with no display ticked.
    pub fn new(monitor_names: Vec<String>, favorites: &Vec<String>) -> (r: Self)
        ensures
            r.entries@.len() == 0,
            r.favorites@ == crate::text::texts(favorites@).to_set(),
            r.filter.search@ == Seq::<char>::empty(),
            !r.filter.favorites_only,
            r.filter.source_index == 0,
            r.filter.min_height == 0,
            r.filter.sort_index == 2,
            r.monitor_names == monitor_names,
            r.monitors@.len() == monitor_names@.len(),
            forall|i: int| 0 <= i < r.monitors@.len() ==> !(#[trigger] r.monitors@[i]),
    {
        let mut marked = StringHashSet::new();
        let mut i: usize = 0;
        let ghost all = crate::text::texts(favorites@);
        while i < favorites.len()
            invariant
                all == crate::text::texts(favorites@),
                i <= favorites@.len(),
                forall|path: Seq<char>| #[trigger]
                    marked@.contains(path) <==> all.take(i as int).contains(path),
            decreases favorites@.len() - i,
        {
            let ghost before = all.take(i as int);
            marked.insert(favorites[i].clone());
            proof {
                assert(all.take(i + 1) =~= before.push(all[i as int]));
                assert forall|path: Seq<char>| #[trigger]
                    marked@.contains(path) <==> all.take(i + 1).contains(path) by {
                    if before.contains(path) {
                        let m = before.index_of(path);
                        assert(before.push(all[i as int])[m] == path);
                    }
                    assert(before.push(all[i as int])[before.len() as int] == all[i as int]);
                }
            }
            i += 1;
        }
        assert(all.take(i as int) =~= all);
        assert(marked@ =~= all.to_set());
        let mut monitors: Vec<bool> = Vec::new();
        let mut k: usize = 0;
        while k < monitor_names.len()
            invariant
                k <= monitor_names@.len(),
                monitors@.len() == k,
                forall|m: int| 0 <= m < k ==> !(#[trigger] monitors@[m]),
            decreases monitor_names@.len() - k,
        {
            monitors.push(false);
            k += 1;
        }
        PickerState {
            entries: Vec::new(),
            favorites: marked,
            filter: PickerFilter::default(),
            monitor_names,
            monitors,
        }
    }

    /// Applies an image to one display.
    pub fn apply_to_monitor(&self, path: &str, monitor_index: i32) -> (r: TrayEvent)
        ensures
            r@ == Request::ApplyWallpaperToMonitor(path@, monitor_index as usize),
    {
        TrayEvent::ApplyWallpaperToMonitor {
            path: path.to_owned(),
            monitor: #[verifier::truncate]
            (monitor_index as usize),
        }
    }

    /// Applies an image to the whole desktop.
    pub fn apply_all(&self, path: &str) -> (r: TrayEvent)
        ensures
            r@ == Request::ApplyWallpaper(path@),
    {
        TrayEvent::ApplyWallpaper { path: path.to_owned() }
    }

    /// Applies an image to every display the user ticked in the display chooser; with no tick,
    /// falls back to the whole desktop. Each display gets a request of its own, so different
    /// displays can keep different images by applying them one after another.
    pub fn apply_to_selection(&self, path: &str) -> (r: Vec<TrayEvent>)
        ensures
            requests(r@) == apply_requests(self.monitors@, path@),
    {
        let mut r: Vec<TrayEvent> = Vec::new();
        let ghost to_request = |monitor: usize|
            Request::ApplyWallpaperToMonitor(path@, monitor);
        let mut i: usize = 0;
        assert(requests(r@) =~= ticked(self.monitors@, 0).map_values(to_request));
        while i < self.monitors.len()
            invariant
                to_request == (|monitor: usize| Request::ApplyWallpaperToMonitor(path@, monitor)),
                i <= self.monitors.len(),
                requests(r@) == ticked(self.monitors@, i as int).map_values(to_request),
            decreases self.monitors@.len() - i,
        {
            let ghost before = requests(r@);
            if self.monitors[i] {
                r.push(TrayEvent::ApplyWallpaperToMonitor { path: path.to_owned(), monitor: i });
                proof {
                    assert(requests(r@) =~= before.push(to_request(i)));
                    assert(ticked(self.monitors@, i as int).push(i).map_values(to_request)
                        =~= before.push(to_request(i)));
                }
            }
            i += 1;
        }
        assert(requests(r@).len() == r@.len());
        if r.len() == 0 {
            r.push(TrayEvent::ApplyWallpaper { path: path.to_owned() });
            assert(requests(r@) =~= seq![Request::ApplyWallpaper(path@)]);
        }
        r
    }

    /// Marks an image as a favorite, or takes the mark away.
    pub fn add_favorite(&mut self, path: &str) -> (r: TrayEvent)
        ensures
            r@ == Request::AddFavorite(path@),
            final(self).favorites@ == toggled(old(self).favorites@, path@),
            final(self).entries == old(self).entries,
            final(self).filter == old(self).filter,
            final(self).monitor_names == old(self).monitor_names,
            final(self).monitors == old(self).monitors,
    {
        if !self.favorites.remove(path) {
            assert(self.favorites@.insert(path@) =~= old(self).favorites@.insert(path@));
            self.favorites.insert(path.to_owned());
        }
        TrayEvent::AddFavorite { path: path.to_owned() }
    }

    /// Drops an image from the grid and from the favorites.
    pub fn confirm_delete(&mut self, path: &str) -> (r: TrayEvent)
        ensures
            r@ == Request::RemoveWallpaper(path@),
            final(self).entries@ == without_path(old(self).entries@, path@),
            final(self).favorites@ == old(self).favorites@.remove(path@),
            final(self).filter == old(self).filter,
            final(self).monitor_names == old(self).monitor_names,
            final(self).monitors == old(self).monitors,
    {
        let ghost all = self.entries@;
        let ghost keep = |entry: PickerEntry| entry.path@ != path@;
        let mut kept: Vec<PickerEntry> = Vec::new();
        let mut i: usize = 0;
        proof {
            reveal(Seq::filter);
            assert(all.take(0).filter(keep) =~= Seq::<PickerEntry>::empty());
        }
        while i < self.entries.len()
            invariant
                i <= self.entries@.len(),
                all == self.entries@,
                *self == *old(self),
                keep == (|entry: PickerEntry| entry.path@ != path@),
                kept@ == all.take(i as int).filter(keep),
            decreases self.entries@.len() - i,
        {
            proof {
                reveal(Seq::filter);
                assert(all.take(i + 1).drop_last() =~= all.take(i as int));
                assert(all.take(i + 1).last() == all[i as int]);
            }
            if !same_text(self.entries[i].path.as_str(), path) {
                kept.push(self.entries[i].clone());
            }
            i += 1;
        }
        assert(all.take(i as int) =~= all);
        self.entries = kept;
        let _ = self.favorites.remove(path);
        TrayEvent::RemoveWallpaper { path: path.to_owned() }
    }

    /// Ticks a display, or takes the tick away; an index without a display does nothing.
    pub fn toggle_monitor(&mut self, index: i32)
        ensures
            same_but_monitors(*old(self), *final(self)),
            final(self).monitors@ == if 0 <= index < old(self).monitors@.len() {
                old(self).monitors@.update(index as int, !old(self).monitors@[index as int])
            } else {
                old(self).monitors@
            },
    {
        if index >= 0 {
            let at: usize = index as usize;
            if at < self.monitors.len() {
                let ticked: bool = self.monitors[at];
                self.monitors.set(at, !ticked);
            }
        }
    }

    /// Ticks every display, or none.
    pub fn select_all_monitors(&mut self, select: bool)
        ensures
            same_but_monitors(*old(self), *final(self)),
            final(self).monitors@.len() == old(self).monitors@.len(),
            forall|i: int|
                0 <= i < final(self).monitors@.len() ==> #[trigger] final(self).monitors@[i]
                    == select,
    {
        let mut i: usize = 0;
        while i < self.monitors.len()
            invariant
                i <= self.monitors@.len(),
                self.monitors@.len() == old(self).monitors@.len(),
                same_but_monitors(*old(self), *self),
                forall|k: int| 0 <= k < i ==> #[trigger] self.monitors@[k] == select,
            decreases self.monitors@.len() - i,
        {
            self.monitors.set(i, select);
            i += 1;
        }
    }

    /// Changes the search text.
    pub fn search_changed(&mut self, text: &str)
        ensures
            same_but_filter(*old(self), *final(self)),
            final(self).filter.search@ == text@,
            final(self).filter == (PickerFilter {
                search: final(self).filter.search,
                ..old(self).filter
            }),
    {
        self.filter.search = text.to_owned();
    }

    /// Shows only favorites, or everything.
    pub fn favorites_toggled(&mut self, enabled: bool)
        ensures
            same_but_filter(*old(self), *final(self)),
            final(self).filter == (PickerFilter { favorites_only: enabled, ..old(self).filter }),
    {
        self.filter.favorites_only = enabled;
    }

    /// Changes the source choice.
    pub fn source_changed(&mut self, index: i32)
        ensures
            same_but_filter(*old(self), *final(self)),
            final(self).filter == (PickerFilter { source_index: index, ..old(self).filter }),
    {
        self.filter.source_index = index;
    }

    /// Changes the minimum resolution.
    pub fn min_resolution_changed(&mut self, index: i32)
        ensures
            same_but_filter(*old(self), *final(self)),
            final(self).filter == (PickerFilter {
                min_height: min_edge(index),
                ..old(self).filter
            }),
    {
        self.filter.min_height = match index {
            1 => 1080,
            2 => 1440,
            3 => 2160,
            _ => 0,
        };
    }

    /// Changes the order.
    pub fn sort_changed(&mut self, index: i32)
        ensures
            same_but_filter(*old(self), *final(self)),
            final(self).filter == (PickerFilter { sort_index: index, ..old(self).filter }),
    {
        self.filter.sort_index = index;
    }

    /// The grid cells for the current filter. A cell without a thumbnail is not drawn.
    pub fn refresh_cells(&self) -> (r: Vec<WallpaperCell>)
        ensures
            crate::wallpaper_picker::grid::shows_grid(
                r@,
                self.entries@,
                self.favorites@,
                self.filter,
            ),
    {
        build_cells(&self.entries, &self.favorites, &self.filter)
    }

    /// The displays of the display chooser.
    pub fn monitor_chips(&self) -> (r: Vec<MonitorChip>)
        ensures
            r@.len() == if self.monitor_names@.len() < self.monitors@.len() {
                self.monitor_names@.len()
            } else {
                self.monitors@.len()
            },
            forall|i: int|
                0 <= i < r@.len() ==> (#[trigger] r@[i]).name@ == self.monitor_names@[i]@
                    && r@[i].selected == self.monitors@[i],
    {
        let mut r: Vec<MonitorChip> = Vec::new();
        let mut i: usize = 0;
        while i < self.monitor_names.len() && i < self.monitors.len()
            invariant
                i <= self.monitor_names@.len(),
                i <= self.monitors@.len(),
                r@.len() == i,
                forall|k: int|
                    0 <= k < i ==> (#[trigger] r@[k]).name@ == self.monitor_names@[k]@
                        && r@[k].selected == self.monitors@[k],
            decreases self.monitors@.len() - i,
        {
            r.push(
                MonitorChip {
                    name: self.monitor_names[i].clone(),
                    selected: self.monitors[i],
                },
            );
            i += 1;
        }
        r
    }

    /// The number of ticked displays.
    pub fn selected_monitor_count(&self) -> (r: usize)
        ensures
            r == ticked(self.monitors@, self.monitors@.len() as int).len(),
    {
        let mut count: usize = 0;
        let mut i: usize = 0;
        while i < self.monitors.len()
            invariant
                i <= self.monitors.len(),
                count <= i,
                count == ticked(self.monitors@, i as int).len(),
            decreases self.monitors@.len() - i,
        {
            if self.monitors[i] {
                count += 1;
            }
            i += 1;
        }
        count
    }

    /// Merges a batch of entries into the grid, in place of everything there where it starts a
    /// scan.
    pub fn merge_batch(&mut self, batch: Vec<PickerEntry>, reset: bool)
        ensures
            final(self).entries@ == merged(old(self).entries@, batch@, reset),
            final(self).favorites == old(self).favorites,
            final(self).filter == old(self).filter,
            final(self).monitor_names == old(self).monitor_names,
            final(self).monitors == old(self).monitors,
    {
        let mut batch = batch;
        if reset {
            self.entries.clear();
        }
        self.entries.append(&mut batch);
    }
}

/// The entries after a batch was merged.
pub open spec fn merged(
    entries: Seq<PickerEntry>,
    batch: Seq<PickerEntry>,
    reset: bool,
) -> Seq<PickerEntry> {
    if reset {
        batch
    } else {
        entries + batch
    }
}

/// The width of a label in tenths of a pixel: 6.8 pixels for an ASCII character, 12 for any other.
pub open spec fn label_width(name: Seq<char>) -> nat
    decreases name.len(),
{
    if name.len() == 0 {
        0
    } else {
        label_width(name.drop_last()) + if name.last() <= '\u{7F}' {
            68nat
        } else {
            120nat
        }
    }
}

/// The width of the display chips in tenths of a pixel: the widest label with its padding of 30
/// pixels, and at least 96 pixels.
pub open spec fn chip_width(names: Seq<Seq<char>>) -> nat
    decreases names.len(),
{
    if names.len() == 0 {
        960
    } else {
        let others = chip_width(names.drop_last());
        let this = label_width(names.last()) + 300;
        if this > others {
            this
        } else {
            others
        }
    }
}

fn measure(name: &str) -> (r: u128)
    ensures
        r == label_width(name@),
        r <= 120 * usize::MAX,
{
    let chars = chars_of(name);
    let mut width: u128 = 0;
    let mut i: usize = 0;
    assert(chars@.take(0) =~= Seq::<char>::empty());
    while i < chars.len()
        invariant
            chars@ == name@,
            i <= chars.len(),
            width == label_width(chars@.take(i as int)),
            width <= 120 * i,
        decreases chars@.len() - i,
    {
        proof {
            assert(chars@.take(i + 1).drop_last() =~= chars@.take(i as int));
        }
        if chars[i] <= '\u{7F}' {
            width += 68;
        } else {
            width += 120;
        }
        i += 1;
    }
    assert(chars@.take(i as int) =~= chars@);
    width
}

/// Width for the display chips in the picker footer, in tenths of a pixel.
///
/// The length of display names varies a lot (`P27QBD-RG` versus `显示器 2`). Text cannot be
/// measured from here, so each label is measured conservatively (CJK glyphs occupy a full 12px
/// cell, everything else roughly half) and the widest one sets a shared width so the row stays
/// visually aligned.
pub fn monitor_chip_width(names: &Vec<String>) -> (r: u128)
    ensures
        r == chip_width(crate::text::texts(names@)),
{
    let ghost all = crate::text::texts(names@);
    let mut width: u128 = 960;
    let mut i: usize = 0;
    assert(all.take(0) =~= Seq::<Seq<char>>::empty());
    while i < names.len()
        invariant
            all == crate::text::texts(names@),
            i <= names@.len(),
            width == chip_width(all.take(i as int)),
        decreases names@.len() - i,
    {
        proof {
            assert(all.take(i + 1).drop_last() =~= all.take(i as int));
            assert(all.take(i + 1).last() == all[i as int]);
        }
        let this: u128 = measure(names[i].as_str()) + 300;
        if this > width {
            width = this;
        }
        i += 1;
    }
    assert(all.take(i as int) =~= all);
    width
}

/// The chips are wide enough for every label with its padding, and never narrower than the floor;
/// the widest label sets the width.
pub proof fn law_chip_width_covers_every_label(names: Seq<Seq<char>>)
    ensures
        chip_width(names) >= 960,
        forall|i: int|
            0 <= i < names.len() ==> chip_width(names) >= label_width(#[trigger] names[i]) + 300,
        chip_width(names) == 960 || exists|i: int|
            0 <= i < names.len() && chip_width(names) == label_width(#[trigger] names[i]) + 300,
    decreases names.len(),
{
    if names.len() > 0 {
        let init = names.drop_last();
        law_chip_width_covers_every_label(init);
        assert forall|i: int| 0 <= i < names.len() implies chip_width(names) >= label_width(
            #[trigger] names[i],
        ) + 300 by {
            if i < init.len() {
                assert(init[i] == names[i]);
            }
        }
        if chip_width(names) != 960 {
            if chip_width(names) == chip_width(init) {
                let i = choose|i: int|
                    0 <= i < init.len() && chip_width(init) == label_width(#[trigger] init[i])
                        + 300;
                assert(init[i] == names[i]);
            } else {
                assert(names[names.len() - 1] == names.last());
            }
        }
    }
}

/// Marking an image as a favorite twice changes nothing.
pub proof fn law_favorite_toggle_undoes_itself(favorites: Set<Seq<char>>, path: Seq<char>)
    ensures
        toggled(toggled(favorites, path), path) == favorites,
{
    assert(toggled(toggled(favorites, path), path) =~= favorites);
}

/// Every ticked display, and no other, is a target, each once and in their order.
pub proof fn law_targets_are_the_ticked_displays(monitors: Seq<bool>, n: int)
    requires
        0 <= n <= monitors.len() <= usize::MAX,
    ensures
        forall|at: usize| #[trigger]
            ticked(monitors, n).contains(at) <==> at < n && monitors[at as int],
        forall|i: int, j: int|
            0 <= i < j < ticked(monitors, n).len() ==> ticked(monitors, n)[i] < ticked(
                monitors,
                n,
            )[j],
    decreases n,
{
    if n > 0 {
        law_targets_are_the_ticked_displays(monitors, n - 1);
        let before = ticked(monitors, n - 1);
        let last = (n - 1) as usize;
        assert forall|i: int| 0 <= i < before.len() implies before[i] < last by {
            assert(before.contains(before[i]));
        }
        assert forall|at: usize| #[trigger]
            ticked(monitors, n).contains(at) <==> at < n && monitors[at as int] by {
            assert(before.contains(at) <==> at < n - 1 && monitors[at as int]);
            if monitors[n - 1] {
                if before.contains(at) {
                    let m = before.index_of(at);
                    assert(before.push(last)[m] == at);
                }
                assert(before.push(last)[before.len() as int] == last);
            }
        }
    }
}

/// A deleted image is not in the grid, and every other one stays, in the same order.
pub proof fn law_deleted_image_is_gone(entries: Seq<PickerEntry>, path: Seq<char>)
    ensures
        forall|i: int|
            0 <= i < without_path(entries, path).len() ==> (#[trigger] without_path(
                entries,
                path,
            )[i]).path@ != path,
        forall|entry: PickerEntry|
            entry.path@ != path && entries.contains(entry) ==> #[trigger] without_path(
                entries,
                path,
            ).contains(entry),
    decreases entries.len(),
{
    reveal(Seq::filter);
    if entries.len() > 0 {
        let init = entries.drop_last();
        let last = entries.last();
        law_deleted_image_is_gone(init, path);
        let kept = without_path(init, path);
        assert forall|entry: PickerEntry|
            entry.path@ != path && entries.contains(entry) implies #[trigger] without_path(
            entries,
            path,
        ).contains(entry) by {
            let i = entries.index_of(entry);
            if i < init.len() {
                assert(init[i] == entry);
                assert(kept.contains(entry));
                let m = kept.index_of(entry);
                assert(without_path(entries, path)[m] == entry);
            } else {
                assert(without_path(entries, path)[kept.len() as int] == entry);
            }
        }
    }
}

} // verus!
