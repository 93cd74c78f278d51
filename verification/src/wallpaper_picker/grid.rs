//! The grid of the picker: what an entry shows, which entries are visible, and in what order.

use crate::text::{chars_of, contains_text, decimal_text, less};
use vstd::hash_set::StringHashSet;
use vstd::prelude::*;
use vstd::string::*;

verus! {

/// One probeable wallpaper: everything the UI needs to render and filter it. Paths are held as
/// text; the time of the last change is in seconds.
#[derive(Debug)]
pub struct PickerEntry {
    pub path: String,
    pub name: String,
    pub thumb_path: String,
    /// `true` when the image comes from a local file/directory source instead of the downloaded
    /// remote cache.
    pub local: bool,
    pub width: u32,
    pub height: u32,
    pub bytes: u64,
    pub modified: u64,
}

impl Clone for PickerEntry {
    fn clone(&self) -> (r: PickerEntry)
        ensures
            r == *self,
    {
        PickerEntry {
            path: self.path.clone(),
            name: self.name.clone(),
            thumb_path: self.thumb_path.clone(),
            local: self.local,
            width: self.width,
            height: self.height,
            bytes: self.bytes,
            modified: self.modified,
        }
    }
}

/// The integer nearest to `n / d`; of two equally near ones the even one.
pub open spec fn nearest(n: nat, d: nat) -> nat {
    let q = n / d;
    let twice = 2 * (n % d);
    if twice < d || (twice == d && q % 2 == 0) {
        q
    } else {
        q + 1
    }
}

/// The distance of neighbouring double precision numbers around `n`, where that is one or more.
pub open spec fn double_step(n: nat) -> nat
    decreases n,
{
    if n < 0x20_0000_0000_0000 {
        1
    } else {
        2 * double_step(n / 2)
    }
}

/// The double precision number nearest to `n`.
pub open spec fn as_double(n: nat) -> nat {
    nearest(n, double_step(n)) * double_step(n)
}

/// A number of tenths with one decimal place.
pub open spec fn one_decimal(tenths: nat) -> Seq<char> {
    crate::text::decimal(tenths / 10) + "."@ + crate::text::decimal(tenths % 10)
}

pub const KIB: u64 = 0x400;

pub const MIB: u64 = 0x10_0000;

pub const GIB: u64 = 0x4000_0000;

/// A file size for display: whole bytes and KB, MB and GB with one decimal place, rounded from
/// the double precision size with ties to even.
pub open spec fn size_text(bytes: nat) -> Seq<char> {
    let size = as_double(bytes);
    if bytes >= GIB {
        one_decimal(nearest(10 * size, GIB as nat)) + " GB"@
    } else if bytes >= MIB {
        one_decimal(nearest(10 * size, MIB as nat)) + " MB"@
    } else if bytes >= KIB {
        crate::text::decimal(nearest(size, KIB as nat)) + " KB"@
    } else {
        crate::text::decimal(bytes) + " B"@
    }
}

fn round(n: u128, d: u128) -> (r: u128)
    requires
        0 < d,
        n < 0x1000_0000_0000_0000_0000_0000,
        d < 0x1000_0000_0000_0000_0000_0000,
    ensures
        r == nearest(n as nat, d as nat),
        r <= n + 1,
{
    let q: u128 = n / d;
    let twice: u128 = 2 * (n % d);
    assert(q <= n) by (nonlinear_arith)
        requires
            q == n / d,
            d > 0,
    ;
    if twice < d || (twice == d && q % 2 == 0) {
        q
    } else {
        q + 1
    }
}

/// The size as a double precision number.
fn to_double(n: u64) -> (r: u128)
    ensures
        r == as_double(n as nat),
        r <= 0x2_0000_0000_0000_0000,
        n < 0x20_0000_0000_0000 ==> r == n,
{
    let mut step: u128 = 1;
    let mut rest: u64 = n;
    while rest >= 0x20_0000_0000_0000
        invariant
            1 <= step,
            step * double_step(rest as nat) == double_step(n as nat),
            step * rest <= n,
            step <= n + 1,
            rest <= n,
        decreases rest,
    {
        proof {
            assert(step * double_step(rest as nat) == (step * 2) * double_step((rest / 2) as nat))
                by (nonlinear_arith)
                requires
                    double_step(rest as nat) == 2 * double_step((rest / 2) as nat),
            ;
            assert((step * 2) * (rest / 2) <= step * rest) by (nonlinear_arith)
                requires
                    (rest / 2) * 2 <= rest,
                    step >= 1,
            ;
            assert(step * 2 <= n) by (nonlinear_arith)
                requires
                    step * rest <= n,
                    rest >= 2,
                    step >= 1,
            ;
        }
        step = step * 2;
        rest = rest / 2;
    }
    assert(step == double_step(n as nat)) by (nonlinear_arith)
        requires
            step * double_step(rest as nat) == double_step(n as nat),
            double_step(rest as nat) == 1,
    ;
    let q = round(n as u128, step);
    proof {
        lemma_rounded_product(n as nat, step as nat);
    }
    q * step
}

proof fn lemma_rounded_product(n: nat, step: nat)
    requires
        step > 0,
        step <= n + 1,
    ensures
        nearest(n, step) * step <= n + step,
        step == 1 ==> nearest(n, step) == n,
{
    let q = n / step;
    assert(q * step <= n) by (nonlinear_arith)
        requires
            q == n / step,
            step > 0,
    ;
    assert((q + 1) * step == q * step + step) by (nonlinear_arith);
    if step == 1 {
        assert(n % 1 == 0);
        assert(n / 1 == n);
    }
}

fn push_one_decimal(r: &mut String, tenths: u128)
    requires
        tenths < 0x1_0000_0000_0000_0000,
    ensures
        final(r)@ == old(r)@ + one_decimal(tenths as nat),
{
    r.append(decimal_text((tenths / 10) as u64).as_str());
    r.append(".");
    r.append(decimal_text((tenths % 10) as u64).as_str());
    assert(r@ =~= old(r)@ + one_decimal(tenths as nat));
}

/// A file size for display.
pub fn format_bytes(bytes: u64) -> (r: String)
    ensures
        r@ == size_text(bytes as nat),
{
    let size = to_double(bytes);
    let mut r = String::new();
    if bytes >= GIB {
        let tenths = round(10 * size, GIB as u128);
        proof {
            lemma_small_quotient((10 * size) as nat, GIB as nat);
        }
        push_one_decimal(&mut r, tenths);
        r.append(" GB");
    } else if bytes >= MIB {
        let tenths = round(10 * size, MIB as u128);
        proof {
            lemma_small_quotient((10 * size) as nat, MIB as nat);
        }
        push_one_decimal(&mut r, tenths);
        r.append(" MB");
    } else if bytes >= KIB {
        let whole = round(size, KIB as u128);
        proof {
            lemma_small_quotient(size as nat, KIB as nat);
        }
        r.append(decimal_text(whole as u64).as_str());
        r.append(" KB");
    } else {
        r.append(decimal_text(bytes).as_str());
        r.append(" B");
    }
    assert(r@ =~= size_text(bytes as nat));
    r
}

proof fn lemma_small_quotient(n: nat, d: nat)
    requires
        d >= 0x400,
        n <= 20 * 0x1_0000_0000_0000_0000,
    ensures
        nearest(n, d) < 0x1_0000_0000_0000_0000,
{
    assert(n / d <= n / 0x400) by (nonlinear_arith)
        requires
            d >= 0x400,
    ;
}

/// What a grid cell says about an image: its dimensions and its size.
pub open spec fn meta(entry: PickerEntry) -> Seq<char> {
    crate::text::decimal(entry.width as nat) + "×"@ + crate::text::decimal(entry.height as nat)
        + " · "@ + size_text(entry.bytes as nat)
}

impl PickerEntry {
    pub open spec fn edge(self) -> u32 {
        if self.width > self.height {
            self.width
        } else {
            self.height
        }
    }

    /// Longest edge, used by the minimum-resolution filter so that portrait wallpapers are not
    /// filtered out by their short edge.
    pub fn longest_edge(&self) -> (r: u32)
        ensures
            r == self.edge(),
    {
        if self.width > self.height {
            self.width
        } else {
            self.height
        }
    }

    /// What a grid cell says about the image.
    pub fn meta_text(&self) -> (r: String)
        ensures
            r@ == meta(*self),
    {
        let mut r = decimal_text(self.width as u64);
        r.append("×");
        r.append(decimal_text(self.height as u64).as_str());
        r.append(" · ");
        r.append(format_bytes(self.bytes).as_str());
        r
    }
}

/// Current search / source / resolution / sort filter applied when rebuilding the grid.
#[derive(Debug)]
pub struct PickerFilter {
    pub search: String,
    pub favorites_only: bool,
    /// 0 = every source, 1 = remote cache only, 2 = local files only.
    pub source_index: i32,
    /// 0 = no minimum, otherwise the required longest edge in pixels.
    pub min_height: u32,
    /// 0 name A→Z, 1 name Z→A, 2 newest, 3 oldest, 4 resolution, 5 file size.
    pub sort_index: i32,
}

impl Default for PickerFilter {
    fn default() -> (r: Self)
        ensures
            r.search@ == Seq::<char>::empty(),
            !r.favorites_only,
            r.source_index == 0,
            r.min_height == 0,
            r.sort_index == 2,
    {
        PickerFilter {
            search: String::new(),
            favorites_only: false,
            source_index: 0,
            min_height: 0,
            // Newest first so freshly downloaded wallpapers show up on top.
            sort_index: 2,
        }
    }
}

/// Whether an entry matches a search, regardless of case: by its name or its path.
pub open spec fn matches_search(entry: PickerEntry, search: Seq<char>) -> bool {
    let wanted = crate::text::lowercased(search);
    ||| wanted.len() == 0
    ||| crate::text::occurs_in(wanted, crate::text::lowercased(entry.name@))
    ||| crate::text::occurs_in(wanted, crate::text::lowercased(entry.path@))
}

/// Whether an entry passes a filter.
pub open spec fn passes(
    entry: PickerEntry,
    favorites: Set<Seq<char>>,
    filter: PickerFilter,
) -> bool {
    &&& filter.favorites_only ==> favorites.contains(entry.path@)
    &&& filter.source_index == 1 ==> !entry.local
    &&& filter.source_index == 2 ==> entry.local
    &&& filter.min_height > 0 ==> entry.edge() >= filter.min_height
    &&& matches_search(entry, filter.search@)
}

/// An empty search hides no entry, and text is searched for regardless of the case of its ASCII
/// letters.
pub proof fn law_search_ignores_case(entry: PickerEntry, search: Seq<char>, other: Seq<char>)
    ensures
        matches_search(entry, Seq::empty()),
        crate::text::ascii_only(search) && crate::text::ascii_only(other)
            && crate::text::ascii_lowered(search) == crate::text::ascii_lowered(other)
            ==> matches_search(entry, search) == matches_search(entry, other),
        crate::text::ascii_only(search) && crate::text::ascii_only(entry.name@)
            && crate::text::occurs_in(
            crate::text::ascii_lowered(search),
            crate::text::ascii_lowered(entry.name@),
        ) ==> matches_search(entry, search),
{
}

/// The entries that pass a filter, in the order of the list.
pub open spec fn passing(
    entries: Seq<PickerEntry>,
    favorites: Set<Seq<char>>,
    filter: PickerFilter,
) -> Seq<PickerEntry> {
    entries.filter(|entry: PickerEntry| passes(entry, favorites, filter))
}

/// Whether `a` comes strictly before `b` in the chosen order.
pub open spec fn sorts_before(a: PickerEntry, b: PickerEntry, sort_index: i32) -> bool {
    let a_name = crate::text::lowercased(a.name@);
    let b_name = crate::text::lowercased(b.name@);
    if sort_index == 1 {
        crate::text::text_less(b_name, a_name)
    } else if sort_index == 2 {
        a.modified > b.modified
    } else if sort_index == 3 {
        a.modified < b.modified
    } else if sort_index == 4 {
        a.edge() > b.edge() || (a.edge() == b.edge() && a.bytes > b.bytes)
    } else if sort_index == 5 {
        a.bytes > b.bytes
    } else {
        crate::text::text_less(a_name, b_name)
    }
}

/// Whether `order` lists the positions of `entries` in the chosen order, equal entries in the
/// order in which they stand.
pub open spec fn sorted_order(
    entries: Seq<PickerEntry>,
    order: Seq<int>,
    sort_index: i32,
) -> bool {
    &&& order.len() == entries.len()
    &&& forall|i: int| 0 <= i < order.len() ==> 0 <= #[trigger] order[i] < entries.len()
    &&& forall|i: int, j: int|
        0 <= i < j < order.len() ==> {
            let a = entries[#[trigger] order[i]];
            let b = entries[#[trigger] order[j]];
            &&& !sorts_before(b, a, sort_index)
            &&& sorts_before(a, b, sort_index) || order[i] < order[j]
        }
}

/// The chosen order is asymmetric.
proof fn lemma_sorts_asymmetric(a: PickerEntry, b: PickerEntry, sort_index: i32)
    requires
        sorts_before(a, b, sort_index),
    ensures
        !sorts_before(b, a, sort_index),
{
    let a_name = crate::text::lowercased(a.name@);
    let b_name = crate::text::lowercased(b.name@);
    if sort_index == 1 {
        crate::text::lemma_text_less_asymmetric(b_name, a_name);
    } else if sort_index < 2 || sort_index > 5 {
        crate::text::lemma_text_less_asymmetric(a_name, b_name);
    }
}

/// The chosen order is transitive, and so is not coming before.
proof fn lemma_sorts_transitive(a: PickerEntry, b: PickerEntry, c: PickerEntry, sort_index: i32)
    ensures
        sorts_before(a, b, sort_index) && sorts_before(b, c, sort_index) ==> sorts_before(
            a,
            c,
            sort_index,
        ),
        sorts_before(a, c, sort_index) ==> sorts_before(a, b, sort_index) || sorts_before(
            b,
            c,
            sort_index,
        ),
{
    let x = crate::text::lowercased(a.name@);
    let y = crate::text::lowercased(b.name@);
    let z = crate::text::lowercased(c.name@);
    if sort_index < 2 || sort_index > 5 {
        lemma_less_steps(x, y, z);
        lemma_less_steps(z, y, x);
    }
}

proof fn lemma_less_steps(x: Seq<char>, y: Seq<char>, z: Seq<char>)
    ensures
        crate::text::text_less(x, y) && crate::text::text_less(y, z) ==> crate::text::text_less(
            x,
            z,
        ),
        crate::text::text_less(x, z) ==> crate::text::text_less(x, y) || crate::text::text_less(
            y,
            z,
        ),
{
    if crate::text::text_less(x, y) && crate::text::text_less(y, z) {
        crate::text::lemma_text_less_transitive(x, y, z);
    }
    crate::text::lemma_text_less_total(x, y);
    if crate::text::text_less(x, z) && crate::text::text_less(y, x) {
        crate::text::lemma_text_less_transitive(y, x, z);
    }
}

/// The lower case name of an entry.
fn folded_name(entry: &PickerEntry) -> (r: Vec<char>)
    ensures
        r@ == crate::text::lowercased(entry.name@),
{
    chars_of(entry.name.as_str().to_lowercase().as_str())
}

/// Whether the entry at `i` comes strictly before the one at `j`; `names` are the lower case names.
fn before(
    entries: &Vec<PickerEntry>,
    names: &Vec<Vec<char>>,
    i: usize,
    j: usize,
    sort_index: i32,
) -> (r: bool)
    requires
        i < entries@.len(),
        j < entries@.len(),
        names@.len() == entries@.len(),
        forall|k: int|
            0 <= k < names@.len() ==> (#[trigger] names@[k])@ == crate::text::lowercased(
                entries@[k].name@,
            ),
    ensures
        r == sorts_before(entries@[i as int], entries@[j as int], sort_index),
{
    let a = &entries[i];
    let b = &entries[j];
    assert(names@[i as int]@ == crate::text::lowercased(a.name@));
    assert(names@[j as int]@ == crate::text::lowercased(b.name@));
    match sort_index {
        1 => less(&names[j], &names[i]),
        2 => a.modified > b.modified,
        3 => a.modified < b.modified,
        4 => a.longest_edge() > b.longest_edge() || (a.longest_edge() == b.longest_edge()
            && a.bytes > b.bytes),
        5 => a.bytes > b.bytes,
        _ => less(&names[i], &names[j]),
    }
}

/// The positions of a list.
pub open spec fn positions(order: Seq<usize>) -> Seq<int> {
    order.map_values(|at: usize| at as int)
}

/// The positions of the entries in the chosen order; equal entries keep their order.
pub fn sort_entries(entries: &Vec<PickerEntry>, sort_index: i32) -> (r: Vec<usize>)
    ensures
        sorted_order(entries@, positions(r@), sort_index),
{
    let mut names: Vec<Vec<char>> = Vec::new();
    let mut k: usize = 0;
    while k < entries.len()
        invariant
            k <= entries@.len(),
            names@.len() == k,
            forall|m: int|
                0 <= m < k ==> (#[trigger] names@[m])@ == crate::text::lowercased(
                    entries@[m].name@,
                ),
        decreases entries@.len() - k,
    {
        names.push(folded_name(&entries[k]));
        k += 1;
    }
    let mut order: Vec<usize> = Vec::new();
    let mut next: usize = 0;
    while next < entries.len()
        invariant
            next <= entries@.len(),
            names@.len() == entries@.len(),
            forall|m: int|
                0 <= m < names@.len() ==> (#[trigger] names@[m])@ == crate::text::lowercased(
                    entries@[m].name@,
                ),
            sorted_order(entries@.take(next as int), positions(order@), sort_index),
        decreases entries@.len() - next,
    {
        let ghost taken = entries@.take(next as int);
        let ghost old_order = positions(order@);
        assert(order@.len() == next);
        let mut place: usize = order.len();
        let mut moving = true;
        while moving && place > 0
            invariant
                next < entries@.len(),
                taken == entries@.take(next as int),
                old_order == positions(order@),
                order@.len() == next,
                place <= order@.len(),
                names@.len() == entries@.len(),
                forall|m: int|
                    0 <= m < names@.len() ==> (#[trigger] names@[m])@ == crate::text::lowercased(
                        entries@[m].name@,
                    ),
                sorted_order(taken, old_order, sort_index),
                forall|i: int|
                    place <= i < order@.len() ==> sorts_before(
                        entries@[next as int],
                        taken[#[trigger] old_order[i]],
                        sort_index,
                    ),
                !moving ==> place > 0 && !sorts_before(
                    entries@[next as int],
                    taken[old_order[place - 1]],
                    sort_index,
                ),
            decreases
                    place + if moving {
                        1int
                    } else {
                        0int
                    },
        {
            let at: usize = order[place - 1];
            assert(old_order[place - 1] == at);
            if before(entries, &names, next, at, sort_index) {
                place -= 1;
            } else {
                moving = false;
            }
        }
        order.insert(place, next);
        proof {
            let longer = entries@.take(next + 1);
            let entry = entries@[next as int];
            let new_order = positions(order@);
            assert(new_order =~= old_order.insert(place as int, next as int));
            assert forall|i: int| 0 <= i < old_order.len() implies taken[#[trigger] old_order[i]]
                == longer[old_order[i]] by {}
            assert forall|i: int| 0 <= i < place implies !sorts_before(
                entry,
                taken[#[trigger] old_order[i]],
                sort_index,
            ) by {
                let last = taken[old_order[place - 1]];
                lemma_sorts_transitive(entry, last, taken[old_order[i]], sort_index);
                if i < place - 1 {
                    assert(!sorts_before(last, taken[old_order[i]], sort_index));
                }
            }
            assert forall|i: int| place <= i < old_order.len() implies !sorts_before(
                taken[#[trigger] old_order[i]],
                entry,
                sort_index,
            ) by {
                lemma_sorts_asymmetric(entry, taken[old_order[i]], sort_index);
            }
            assert forall|i: int, j: int| 0 <= i < j < new_order.len() implies ({
                let a = longer[#[trigger] new_order[i]];
                let b = longer[#[trigger] new_order[j]];
                &&& !sorts_before(b, a, sort_index)
                &&& sorts_before(a, b, sort_index) || new_order[i] < new_order[j]
            }) by {
                let old_i = if i < place { i } else { i - 1 };
                let old_j = if j < place { j } else { j - 1 };
                if i != place {
                    assert(new_order[i] == old_order[old_i]);
                }
                if j != place {
                    assert(new_order[j] == old_order[old_j]);
                }
            }
        }
        next += 1;
    }
    assert(entries@.take(next as int) =~= entries@);
    order
}

/// A sorted order shows every entry exactly once.
pub proof fn law_sorted_order_shows_each_entry_once(
    entries: Seq<PickerEntry>,
    order: Seq<int>,
    sort_index: i32,
)
    requires
        sorted_order(entries, order, sort_index),
    ensures
        order.no_duplicates(),
        forall|at: int| 0 <= at < entries.len() ==> #[trigger] order.contains(at),
{
    assert forall|i: int, j: int| 0 <= i < order.len() && 0 <= j < order.len() && i != j implies
        order[i] != order[j] by {
        let (low, high) = if i < j { (i, j) } else { (j, i) };
        if order[low] == order[high] {
            let entry = entries[order[low]];
            assert(sorts_before(entry, entry, sort_index));
            lemma_sorts_asymmetric(entry, entry, sort_index);
        }
    }
    lemma_full(order, entries.len() as int);
}

/// As many different positions as there are, are all of them.
proof fn lemma_full(order: Seq<int>, n: int)
    requires
        order.no_duplicates(),
        order.len() == n,
        forall|i: int| 0 <= i < order.len() ==> 0 <= #[trigger] order[i] < n,
    ensures
        forall|at: int| 0 <= at < n ==> #[trigger] order.contains(at),
{
    order.unique_seq_to_set();
    let all = Set::new(|at: int| 0 <= at < n);
    vstd::set_lib::lemma_int_range(0, n);
    assert(vstd::set_lib::set_int_range(0, n) =~= all);
    assert forall|at: int| order.to_set().contains(at) implies all.contains(at) by {
        let i = order.index_of(at);
        assert(0 <= order[i] < n);
    }
    vstd::set_lib::lemma_subset_equality(order.to_set(), all);
    assert forall|at: int| 0 <= at < n implies #[trigger] order.contains(at) by {
        assert(order.to_set().contains(at));
    }
}

/// There is one sorted order only.
pub proof fn law_sorted_order_is_unique(
    entries: Seq<PickerEntry>,
    a: Seq<int>,
    b: Seq<int>,
    sort_index: i32,
)
    requires
        sorted_order(entries, a, sort_index),
        sorted_order(entries, b, sort_index),
    ensures
        a == b,
{
    law_sorted_order_shows_each_entry_once(entries, a, sort_index);
    law_sorted_order_shows_each_entry_once(entries, b, sort_index);
    assert forall|i: int| 0 <= i < a.len() implies a[i] == b[i] by {
        lemma_same_place(entries, a, b, sort_index, i);
    }
    assert(a =~= b);
}

proof fn lemma_same_place(
    entries: Seq<PickerEntry>,
    a: Seq<int>,
    b: Seq<int>,
    sort_index: i32,
    i: int,
)
    requires
        sorted_order(entries, a, sort_index),
        sorted_order(entries, b, sort_index),
        a.no_duplicates(),
        b.no_duplicates(),
        forall|at: int| 0 <= at < entries.len() ==> #[trigger] a.contains(at),
        forall|at: int| 0 <= at < entries.len() ==> #[trigger] b.contains(at),
        0 <= i < a.len(),
    ensures
        a[i] == b[i],
    decreases i,
{
    if a[i] != b[i] {
        assert forall|k: int| 0 <= k < i implies a[k] == b[k] by {
            lemma_same_place(entries, a, b, sort_index, k);
        }
        assert(b.contains(a[i]));
        let in_b = b.index_of(a[i]);
        assert(in_b > i) by {
            if in_b < i {
                assert(a[in_b] == b[in_b]);
            }
        }
        assert(a.contains(b[i]));
        let in_a = a.index_of(b[i]);
        assert(in_a > i) by {
            if in_a < i {
                assert(a[in_a] == b[in_a]);
            }
        }
        let x = entries[a[i]];
        let y = entries[b[i]];
        assert(!sorts_before(entries[a[in_a]], entries[a[i]], sort_index));
        assert(!sorts_before(entries[b[in_b]], entries[b[i]], sort_index));
        assert(sorts_before(x, y, sort_index) || a[i] < a[in_a]);
        assert(sorts_before(y, x, sort_index) || b[i] < b[in_b]);
    }
}

/// One cell of the grid.
#[derive(Debug)]
pub struct WallpaperCell {
    pub path: String,
    pub thumb_path: String,
    pub name: String,
    pub favorited: bool,
    pub meta: String,
    pub local: bool,
}

/// Whether a cell shows an entry.
pub open spec fn shows(
    cell: WallpaperCell,
    entry: PickerEntry,
    favorites: Set<Seq<char>>,
) -> bool {
    &&& cell.path@ == entry.path@
    &&& cell.thumb_path@ == entry.thumb_path@
    &&& cell.name@ == entry.name@
    &&& cell.favorited == favorites.contains(entry.path@)
    &&& cell.meta@ == meta(entry)
    &&& cell.local == entry.local
}

/// Whether cells show the entries that pass a filter, in its order.
pub open spec fn shows_grid(
    cells: Seq<WallpaperCell>,
    entries: Seq<PickerEntry>,
    favorites: Set<Seq<char>>,
    filter: PickerFilter,
) -> bool {
    exists|order: Seq<int>|
        {
            &&& #[trigger] sorted_order(
                passing(entries, favorites, filter),
                order,
                filter.sort_index,
            )
            &&& cells.len() == order.len()
            &&& forall|i: int|
                0 <= i < cells.len() ==> shows(
                    #[trigger] cells[i],
                    passing(entries, favorites, filter)[order[i]],
                    favorites,
                )
        }
}

/// Whether an entry passes a filter whose search is `search` in lower case.
fn entry_passes(
    entry: &PickerEntry,
    favorites: &StringHashSet,
    filter: &PickerFilter,
    search: &str,
) -> (r: bool)
    requires
        search@ == crate::text::lowercased(filter.search@),
    ensures
        r == passes(*entry, favorites@, *filter),
{
    if filter.favorites_only && !favorites.contains(entry.path.as_str()) {
        return false;
    }
    if filter.source_index == 1 && entry.local {
        return false;
    }
    if filter.source_index == 2 && !entry.local {
        return false;
    }
    if filter.min_height > 0 && entry.longest_edge() < filter.min_height {
        return false;
    }
    search.is_empty() || contains_text(entry.name.as_str().to_lowercase().as_str(), search)
        || contains_text(entry.path.as_str().to_lowercase().as_str(), search)
}

/// The entries that pass a filter.
fn filter_entries(
    entries: &Vec<PickerEntry>,
    favorites: &StringHashSet,
    filter: &PickerFilter,
) -> (r: Vec<PickerEntry>)
    ensures
        r@ == passing(entries@, favorites@, *filter),
{
    let ghost keep = |entry: PickerEntry| passes(entry, favorites@, *filter);
    let search = filter.search.as_str().to_lowercase();
    let mut r: Vec<PickerEntry> = Vec::new();
    let mut i: usize = 0;
    proof {
        reveal(Seq::filter);
        assert(entries@.take(0).filter(keep) =~= Seq::<PickerEntry>::empty());
    }
    while i < entries.len()
        invariant
            i <= entries@.len(),
            search@ == crate::text::lowercased(filter.search@),
            keep == (|entry: PickerEntry| passes(entry, favorites@, *filter)),
            r@ == entries@.take(i as int).filter(keep),
        decreases entries@.len() - i,
    {
        proof {
            reveal(Seq::filter);
            assert(entries@.take(i + 1).drop_last() =~= entries@.take(i as int));
            assert(entries@.take(i + 1).last() == entries@[i as int]);
        }
        if entry_passes(&entries[i], favorites, filter, search.as_str()) {
            r.push(entries[i].clone());
        }
        i += 1;
    }
    assert(entries@.take(i as int) =~= entries@);
    r
}

/// Builds the grid: the entries that pass the filter, in its order, each marked as favorited or
/// not.
pub fn build_cells(
    entries: &Vec<PickerEntry>,
    favorites: &StringHashSet,
    filter: &PickerFilter,
) -> (r: Vec<WallpaperCell>)
    ensures
        shows_grid(r@, entries@, favorites@, *filter),
{
    let visible = filter_entries(entries, favorites, filter);
    let order = sort_entries(&visible, filter.sort_index);
    let ghost places = positions(order@);
    let mut cells: Vec<WallpaperCell> = Vec::new();
    let mut i: usize = 0;
    while i < order.len()
        invariant
            i <= order@.len(),
            visible@ == passing(entries@, favorites@, *filter),
            places == positions(order@),
            sorted_order(visible@, places, filter.sort_index),
            cells@.len() == i,
            forall|k: int|
                0 <= k < i ==> shows(#[trigger] cells@[k], visible@[places[k]], favorites@),
        decreases order@.len() - i,
    {
        assert(places[i as int] == order@[i as int]);
        let entry = &visible[order[i]];
        cells.push(
            WallpaperCell {
                path: entry.path.clone(),
                thumb_path: entry.thumb_path.clone(),
                name: entry.name.clone(),
                favorited: favorites.contains(entry.path.as_str()),
                meta: entry.meta_text(),
                local: entry.local,
            },
        );
        i += 1;
    }
    assert(sorted_order(passing(entries@, favorites@, *filter), places, filter.sort_index));
    cells
}

} // verus!
