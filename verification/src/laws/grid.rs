//! Which images the grid shows, in what order, and what it says about them.

use crate::laws::lists::lemma_places;
use crate::laws::text::{
    law_occurring_is_standing_inside, law_texts_are_ordered_by_their_first_difference, smaller_at,
};
use crate::text::{decimal, lowercased};
use crate::wallpaper_picker::grid::{
    as_double, double_step, nearest, passes, passing, shows_grid, size_text, sorted_order,
    sorts_before, PickerEntry, PickerFilter, WallpaperCell,
};
use vstd::arithmetic::power2::pow2;
use vstd::prelude::*;

verus! {

/// The longer one of the two edges of an image.
pub open spec fn longest(entry: PickerEntry) -> int {
    if entry.width >= entry.height {
        entry.width as int
    } else {
        entry.height as int
    }
}

/// Whether the lower case text stands in the lower case of another one.
pub open spec fn stands_in(search: Seq<char>, text: Seq<char>) -> bool {
    exists|before: Seq<char>, after: Seq<char>|
        lowercased(text) == #[trigger] (before + lowercased(search) + after)
}

/// Whether a filter lets an image through: a favorite where only those are asked for, from the
/// source that is asked for, long enough on one edge, and with the searched text in its name or
/// path.
pub open spec fn visible(
    entry: PickerEntry,
    favorites: Set<Seq<char>>,
    filter: PickerFilter,
) -> bool {
    &&& filter.favorites_only ==> favorites.contains(entry.path@)
    &&& filter.source_index == 1 ==> !entry.local
    &&& filter.source_index == 2 ==> entry.local
    &&& entry.width >= filter.min_height || entry.height >= filter.min_height
    &&& stands_in(filter.search@, entry.name@) || stands_in(filter.search@, entry.path@)
}

/// Whether the name of an image comes before that of another one, regardless of case.
pub open spec fn named_before(a: PickerEntry, b: PickerEntry) -> bool {
    exists|at: int| #[trigger] smaller_at(lowercased(a.name@), lowercased(b.name@), at)
}

/// Whether `a` may stand ahead of `b` in the grid: by name forward or backward, the newer or the
/// older, the one with the longer edge and of these the larger file, or the larger file.
pub open spec fn may_precede(a: PickerEntry, b: PickerEntry, sort_index: i32) -> bool {
    if sort_index == 1 {
        !named_before(a, b)
    } else if sort_index == 2 {
        a.modified >= b.modified
    } else if sort_index == 3 {
        a.modified <= b.modified
    } else if sort_index == 4 {
        longest(a) > longest(b) || (longest(a) == longest(b) && a.bytes >= b.bytes)
    } else if sort_index == 5 {
        a.bytes >= b.bytes
    } else {
        !named_before(b, a)
    }
}

/// In a sorted list, of any two images the one ahead has the smaller or larger name, the later or
/// earlier time, the longer edge or the larger file that the order asks for; images that are equal
/// in that stand as they stood before.
pub proof fn law_sorted_images_stand_in_order(
    entries: Seq<PickerEntry>,
    order: Seq<int>,
    sort_index: i32,
    i: int,
    j: int,
)
    requires
        sorted_order(entries, order, sort_index),
        0 <= i < j < order.len(),
    ensures
        0 <= order[i] < entries.len(),
        0 <= order[j] < entries.len(),
        may_precede(entries[order[i]], entries[order[j]], sort_index),
        may_precede(entries[order[j]], entries[order[i]], sort_index) ==> order[i] < order[j],
{
    let a = entries[order[i]];
    let b = entries[order[j]];
    let x = lowercased(a.name@);
    let y = lowercased(b.name@);
    law_texts_are_ordered_by_their_first_difference(x, y);
    law_texts_are_ordered_by_their_first_difference(y, x);
    assert(!sorts_before(b, a, sort_index));
    assert(sorts_before(a, b, sort_index) || order[i] < order[j]);
}

/// Whether the cells of a grid show images of a list: `from` gives for each cell the place of its
/// image. Every cell shows another one, all of them visible, and none that is visible is missing;
/// they stand in the order that the filter asks for.
pub open spec fn shows_images(
    cells: Seq<WallpaperCell>,
    entries: Seq<PickerEntry>,
    favorites: Set<Seq<char>>,
    filter: PickerFilter,
    from: Seq<int>,
) -> bool {
    &&& from.len() == cells.len()
    &&& from.no_duplicates()
    &&& forall|i: int|
        0 <= i < from.len() ==> 0 <= #[trigger] from[i] < entries.len() && visible(
            entries[from[i]],
            favorites,
            filter,
        )
    &&& forall|k: int|
        0 <= k < entries.len() && visible(#[trigger] entries[k], favorites, filter)
            ==> from.contains(k)
    &&& forall|i: int|
        0 <= i < cells.len() ==> says(#[trigger] cells[i], entries[from[i]], favorites)
    &&& forall|i: int, j: int|
        0 <= i < j < from.len() ==> {
            let a = entries[#[trigger] from[i]];
            let b = entries[#[trigger] from[j]];
            &&& may_precede(a, b, filter.sort_index)
            &&& may_precede(b, a, filter.sort_index) ==> from[i] < from[j]
        }
}

/// Whether a cell says what an image is: its path, name and thumbnail, whether it is a favorite
/// and a local file, its dimensions and its size.
pub open spec fn says(cell: WallpaperCell, entry: PickerEntry, favorites: Set<Seq<char>>) -> bool {
    &&& cell.path@ == entry.path@
    &&& cell.thumb_path@ == entry.thumb_path@
    &&& cell.name@ == entry.name@
    &&& cell.favorited <==> favorites.contains(entry.path@)
    &&& cell.local <==> entry.local
    &&& cell.meta@ == decimal(entry.width as nat) + "×"@ + decimal(entry.height as nat) + " · "@
        + size_text(entry.bytes as nat)
}

proof fn lemma_visible(entry: PickerEntry, favorites: Set<Seq<char>>, filter: PickerFilter)
    ensures
        passes(entry, favorites, filter) <==> visible(entry, favorites, filter),
{
    let wanted = lowercased(filter.search@);
    law_occurring_is_standing_inside(wanted, lowercased(entry.name@));
    law_occurring_is_standing_inside(wanted, lowercased(entry.path@));
    if wanted.len() == 0 {
        let name = lowercased(entry.name@);
        assert(name =~= name + wanted + Seq::<char>::empty());
    }
}

/// A grid shows every visible image of the list in a cell of its own, no other, and in the order
/// that the filter asks for: with the newest first, for example, every image is at least as new as
/// those behind it.
pub proof fn law_grid_shows_the_visible_images_in_order(
    cells: Seq<WallpaperCell>,
    entries: Seq<PickerEntry>,
    favorites: Set<Seq<char>>,
    filter: PickerFilter,
)
    requires
        shows_grid(cells, entries, favorites, filter),
    ensures
        exists|from: Seq<int>| #[trigger] shows_images(cells, entries, favorites, filter, from),
{
    let listed = passing(entries, favorites, filter);
    let keep = |entry: PickerEntry| passes(entry, favorites, filter);
    let order = choose|order: Seq<int>|
        {
            &&& #[trigger] sorted_order(listed, order, filter.sort_index)
            &&& cells.len() == order.len()
            &&& forall|i: int|
                0 <= i < cells.len() ==> crate::wallpaper_picker::grid::shows(
                    #[trigger] cells[i],
                    listed[order[i]],
                    favorites,
                )
        };
    crate::wallpaper_picker::grid::law_sorted_order_shows_each_entry_once(
        listed,
        order,
        filter.sort_index,
    );
    let places = lemma_places(entries, keep);
    assert(listed == entries.filter(keep));
    let from = Seq::new(order.len(), |i: int| places[order[i]]);
    assert forall|i: int| 0 <= i < from.len() implies 0 <= #[trigger] from[i] < entries.len()
        && entries[from[i]] == listed[order[i]] && visible(entries[from[i]], favorites, filter) by {
        lemma_visible(entries[places[order[i]]], favorites, filter);
    }
    assert forall|i: int, j: int| 0 <= i < from.len() && 0 <= j < from.len() && i != j implies
        from[i] != from[j] by {
        assert(order[i] != order[j]);
        if order[i] < order[j] {
            assert(places[order[i]] < places[order[j]]);
        } else {
            assert(places[order[j]] < places[order[i]]);
        }
    }
    assert forall|k: int|
        0 <= k < entries.len() && visible(#[trigger] entries[k], favorites, filter) implies
        from.contains(k) by {
        lemma_visible(entries[k], favorites, filter);
        let at = choose|at: int| 0 <= at < places.len() && places[at] == k;
        assert(order.contains(at));
        let i = choose|i: int| 0 <= i < order.len() && order[i] == at;
        assert(from[i] == k);
    }
    assert forall|i: int| 0 <= i < cells.len() implies says(
        #[trigger] cells[i],
        entries[from[i]],
        favorites,
    ) by {
        assert(from[i] == places[order[i]]);
    }
    assert forall|i: int, j: int| 0 <= i < j < from.len() implies {
        let a = entries[#[trigger] from[i]];
        let b = entries[#[trigger] from[j]];
        &&& may_precede(a, b, filter.sort_index)
        &&& may_precede(b, a, filter.sort_index) ==> from[i] < from[j]
    } by {
        law_sorted_images_stand_in_order(listed, order, filter.sort_index, i, j);
        assert(entries[from[i]] == listed[order[i]] && entries[from[j]] == listed[order[j]]);
        if may_precede(entries[from[j]], entries[from[i]], filter.sort_index) {
            assert(order[i] < order[j]);
            assert(places[order[i]] < places[order[j]]);
        }
    }
    assert(shows_images(cells, entries, favorites, filter, from));
}

/// Of any two cells, the one ahead shows an image that is at least as new where the newest come
/// first, at most as new where the oldest do, with an edge at least as long, or a file at least as
/// large, where these come first. Each cell shows an image of the list.
pub proof fn law_cells_ahead_are_newer_older_longer_or_larger(
    cells: Seq<WallpaperCell>,
    entries: Seq<PickerEntry>,
    favorites: Set<Seq<char>>,
    filter: PickerFilter,
)
    requires
        shows_grid(cells, entries, favorites, filter),
    ensures
        exists|from: Seq<int>|
            #![trigger from.no_duplicates()]
            {
                &&& from.no_duplicates()
                &&& from.len() == cells.len()
                &&& forall|i: int|
                    0 <= i < from.len() ==> 0 <= #[trigger] from[i] < entries.len()
                        && cells[i].path@ == entries[from[i]].path@ && cells[i].name@
                        == entries[from[i]].name@
                &&& forall|i: int, j: int|
                    0 <= i < j < from.len() ==> {
                        let a = entries[#[trigger] from[i]];
                        let b = entries[#[trigger] from[j]];
                        &&& filter.sort_index == 2 ==> a.modified >= b.modified
                        &&& filter.sort_index == 3 ==> a.modified <= b.modified
                        &&& filter.sort_index == 4 ==> (a.width >= b.width && a.width >= b.height)
                            || (a.height >= b.width && a.height >= b.height)
                        &&& filter.sort_index == 5 ==> a.bytes >= b.bytes
                    }
            },
{
    law_grid_shows_the_visible_images_in_order(cells, entries, favorites, filter);
    let from = choose|from: Seq<int>| #[trigger]
        shows_images(cells, entries, favorites, filter, from);
    assert(from.no_duplicates());
    assert forall|i: int| 0 <= i < from.len() implies 0 <= #[trigger] from[i] < entries.len()
        && cells[i].path@ == entries[from[i]].path@ && cells[i].name@ == entries[from[i]].name@ by {
        assert(says(cells[i], entries[from[i]], favorites));
    }
}

/// Of any two cells, the one ahead shows an image whose name is the same, regardless of case, or
/// comes first: forward where the order is by name, backward where it is the other way round.
pub proof fn law_cells_ahead_have_the_earlier_name(
    cells: Seq<WallpaperCell>,
    entries: Seq<PickerEntry>,
    favorites: Set<Seq<char>>,
    filter: PickerFilter,
    i: int,
    j: int,
    at: int,
)
    requires
        shows_grid(cells, entries, favorites, filter),
        filter.sort_index < 2 || filter.sort_index > 5,
        0 <= i < cells.len(),
        0 <= j < cells.len(),
        0 <= at < lowercased(cells[i].name@).len(),
        0 <= at < lowercased(cells[j].name@).len(),
        lowercased(cells[i].name@).take(at) == lowercased(cells[j].name@).take(at),
        lowercased(cells[i].name@)[at] < lowercased(cells[j].name@)[at],
    ensures
        filter.sort_index == 1 ==> j < i,
        filter.sort_index != 1 ==> i < j,
{
    law_grid_shows_the_visible_images_in_order(cells, entries, favorites, filter);
    let from = choose|from: Seq<int>| #[trigger]
        shows_images(cells, entries, favorites, filter, from);
    assert(says(cells[i], entries[from[i]], favorites));
    assert(says(cells[j], entries[from[j]], favorites));
    let x = lowercased(cells[i].name@);
    let y = lowercased(cells[j].name@);
    assert forall|k: int| 0 <= k < at implies #[trigger] x[k] == y[k] by {
        assert(x.take(at)[k] == y.take(at)[k]);
    }
    assert(smaller_at(x, y, at));
    assert(named_before(entries[from[i]], entries[from[j]]));
    if i < j {
        assert(may_precede(entries[from[i]], entries[from[j]], filter.sort_index));
    } else if j < i {
        assert(may_precede(entries[from[j]], entries[from[i]], filter.sort_index));
    }
}

/// Whether `n` is an integer nearest to `a / b`, and the even one where two are.
pub open spec fn nearest_to(n: nat, a: nat, b: nat) -> bool {
    &&& -(b as int) <= 2 * (a - n * b) <= b
    &&& 2 * (a - n * b) == b || 2 * (a - n * b) == -(b as int) ==> n % 2 == 0
}

proof fn lemma_nearest(a: nat, b: nat)
    requires
        b > 0,
    ensures
        nearest_to(nearest(a, b), a, b),
{
    let q = (a / b) as int;
    let rest = (a % b) as int;
    let d = b as int;
    vstd::arithmetic::div_mod::lemma_fundamental_div_mod(a as int, d);
    assert(a == d * q + rest);
    assert((q + 1) * d == d * q + d) by (nonlinear_arith);
    assert(q * d == d * q) by (nonlinear_arith);
}

proof fn lemma_double_step(n: nat) -> (e: nat)
    ensures
        double_step(n) == pow2(e),
        n < 0x20_0000_0000_0000 ==> double_step(n) == 1,
        n >= 0x20_0000_0000_0000 ==> double_step(n) * 0x10_0000_0000_0000 <= n,
        n < double_step(n) * 0x20_0000_0000_0000,
    decreases n,
{
    if n >= 0x20_0000_0000_0000 {
        let e = lemma_double_step(n / 2);
        vstd::arithmetic::power2::lemma_pow2_unfold(e + 1);
        e + 1
    } else {
        vstd::arithmetic::power2::lemma2_to64();
        0
    }
}

/// Whether a number is the double precision number nearest to another one: a multiple of a power
/// of two, of 53 bits, and the one with the even multiple where two are equally near.
pub open spec fn double_nearest_to(size: nat, n: nat) -> bool {
    exists|e: nat, q: nat|
        size == q * #[trigger] pow2(e) && (e == 0 || pow2(e) * 0x10_0000_0000_0000 <= n) && n
            < pow2(e) * 0x20_0000_0000_0000 && #[trigger] nearest_to(q, n, pow2(e))
}

proof fn lemma_double(n: nat)
    ensures
        double_nearest_to(as_double(n), n),
        n < 0x20_0000_0000_0000 ==> as_double(n) == n,
{
    let e = lemma_double_step(n);
    let step = double_step(n);
    vstd::arithmetic::power2::lemma_pow2_pos(e);
    lemma_nearest(n, step);
    let q = nearest(n, step);
    assert(as_double(n) == q * pow2(e));
    assert(nearest_to(q, n, pow2(e)));
    vstd::arithmetic::power2::lemma2_to64();
    if n < 0x20_0000_0000_0000 {
        assert(q == n);
        assert(q * step == n) by (nonlinear_arith)
            requires
                q == n,
                step == 1,
        ;
        if e > 0 {
            vstd::arithmetic::power2::lemma_pow2_strictly_increases(0, e);
        }
    }
}

/// Whether a text is a number with one decimal place and a unit.
pub open spec fn tenths_text(text: Seq<char>, tenths: nat, unit: Seq<char>) -> bool {
    text == decimal(tenths / 10) + "."@ + decimal(tenths % 10) + unit
}

/// A size is given in bytes, KB, MB or GB, whichever is the largest that does not exceed it. Bytes
/// are exact; KB are the nearest whole number, and MB and GB the nearest with one decimal place,
/// of the double precision number nearest to the size.
pub proof fn law_sizes_are_rounded_to_their_unit(bytes: nat)
    ensures
        bytes < 0x400 ==> size_text(bytes) == decimal(bytes) + " B"@,
        0x400 <= bytes < 0x10_0000 ==> exists|n: nat| #[trigger]
            nearest_to(n, bytes, 0x400) && size_text(bytes) == decimal(n) + " KB"@,
        0x10_0000 <= bytes < 0x4000_0000 ==> exists|tenths: nat| #[trigger]
            tenths_text(size_text(bytes), tenths, " MB"@) && nearest_to(
                tenths,
                10 * bytes,
                0x10_0000,
            ),
        0x4000_0000 <= bytes < 0x20_0000_0000_0000 ==> exists|tenths: nat| #[trigger]
            tenths_text(size_text(bytes), tenths, " GB"@) && nearest_to(
                tenths,
                10 * bytes,
                0x4000_0000,
            ),
        0x20_0000_0000_0000 <= bytes ==> exists|tenths: nat, size: nat| #[trigger]
            tenths_text(size_text(bytes), tenths, " GB"@) && nearest_to(
                tenths,
                10 * size,
                0x4000_0000,
            ) && #[trigger] double_nearest_to(size, bytes),
{
    let size = as_double(bytes);
    lemma_double(bytes);
    lemma_nearest(10 * size, 0x4000_0000);
    lemma_nearest(10 * size, 0x10_0000);
    lemma_nearest(size, 0x400);
    if bytes >= 0x4000_0000 {
        let tenths = nearest(10 * size, 0x4000_0000);
        assert(tenths_text(size_text(bytes), tenths, " GB"@));
        assert(double_nearest_to(size, bytes));
    } else if bytes >= 0x10_0000 {
        let tenths = nearest(10 * size, 0x10_0000);
        assert(tenths_text(size_text(bytes), tenths, " MB"@));
    } else if bytes >= 0x400 {
        let n = nearest(size, 0x400);
        assert(nearest_to(n, bytes, 0x400));
    }
}

/// The positions of a sorted list are those that are given.
pub proof fn law_positions_are_as_they_are_given(order: Seq<usize>)
    ensures
        crate::wallpaper_picker::grid::positions(order).len() == order.len(),
        forall|i: int|
            0 <= i < order.len() ==> #[trigger] crate::wallpaper_picker::grid::positions(order)[i]
                == order[i],
{
}

/// The longest edge of an image is one of its two edges, and no shorter than either.
pub proof fn law_longest_edge_is_an_edge(entry: PickerEntry)
    ensures
        entry.edge() >= entry.width,
        entry.edge() >= entry.height,
        entry.edge() == entry.width || entry.edge() == entry.height,
{
}

} // verus!
