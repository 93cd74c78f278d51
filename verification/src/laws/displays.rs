//! What displays are called, which of them are real, and what errors about them say.

use crate::laws::text::{lemma_one_piece, lemma_split_in_two};
use crate::text::{decimal, trimmed};
use crate::wallpaper::windows::{
    block_at, descriptor_text, edid_name, first_text, last_text, lossy_utf8, monitor_name, pnp_id,
    real_ids, registry_key, utf16_text, wide_text, ReportedMonitor,
};
use crate::wallpaper::{error_message, numbered_names, WallpaperError};
use vstd::prelude::*;

verus! {

/// Whether a text is free of `#`.
pub open spec fn one_segment(text: Seq<char>) -> bool {
    forall|i: int| 0 <= i < text.len() ==> #[trigger] text[i] != '#'
}

proof fn lemma_segments(a: Seq<char>, b: Seq<char>, c: Seq<char>, rest: Seq<char>)
    requires
        one_segment(a),
        one_segment(b),
        one_segment(c),
    ensures
        crate::text::split_on(a, '#') == seq![a],
        crate::text::split_on(a.push('#') + b, '#') == seq![a, b],
        crate::text::split_on(a.push('#') + (b.push('#') + rest), '#').len() > 2,
        crate::text::split_on(a.push('#') + (b.push('#') + rest), '#')[1] == b,
        crate::text::split_on(a.push('#') + (b.push('#') + c), '#') == seq![a, b, c],
        crate::text::split_on(a.push('#') + (b.push('#') + (c.push('#') + rest)), '#').len() > 3,
        crate::text::split_on(a.push('#') + (b.push('#') + (c.push('#') + rest)), '#')[1] == b,
        crate::text::split_on(a.push('#') + (b.push('#') + (c.push('#') + rest)), '#')[2] == c,
{
    lemma_one_piece(a, '#');
    lemma_one_piece(b, '#');
    lemma_one_piece(c, '#');
    lemma_split_in_two(a, b, '#');
    lemma_split_in_two(b, c, '#');
    lemma_split_in_two(b, rest, '#');
    lemma_split_in_two(c, rest, '#');
    lemma_split_in_two(a, b.push('#') + rest, '#');
    lemma_split_in_two(a, b.push('#') + c, '#');
    lemma_split_in_two(b, c.push('#') + rest, '#');
    lemma_split_in_two(a, b.push('#') + (c.push('#') + rest), '#');
    assert(seq![a] + seq![b] =~= seq![a, b]);
    assert(seq![a] + (seq![b] + seq![c]) =~= seq![a, b, c]);
}

/// The panel id is what stands between the first two `#` of an interface path, or behind the only
/// one; a path without any, or with nothing there, has none.
pub proof fn law_panel_id_is_the_second_segment(a: Seq<char>, b: Seq<char>, rest: Seq<char>)
    requires
        one_segment(a),
        one_segment(b),
    ensures
        pnp_id(a) is None,
        b.len() > 0 ==> pnp_id(a.push('#') + b) == Some(b),
        b.len() > 0 ==> pnp_id(a.push('#') + (b.push('#') + rest)) == Some(b),
        b.len() == 0 ==> pnp_id(a.push('#') + b) is None,
        b.len() == 0 ==> pnp_id(a.push('#') + (b.push('#') + rest)) is None,
{
    lemma_segments(a, b, b, rest);
}

/// The registry key names the second and the third segment of an interface path; where one of them
/// is not there or empty, there is no key.
pub proof fn law_registry_key_names_panel_and_instance(
    a: Seq<char>,
    b: Seq<char>,
    c: Seq<char>,
    rest: Seq<char>,
)
    requires
        one_segment(a),
        one_segment(b),
        one_segment(c),
    ensures
        registry_key(a) is None,
        registry_key(a.push('#') + b) is None,
        ({
            let key = "SYSTEM\\CurrentControlSet\\Enum\\DISPLAY\\"@ + b + "\\"@ + c
                + "\\Device Parameters"@;
            let short = a.push('#') + (b.push('#') + c);
            let long = a.push('#') + (b.push('#') + (c.push('#') + rest));
            &&& b.len() > 0 && c.len() > 0 ==> registry_key(short) == Some(key) && registry_key(long)
                == Some(key)
            &&& b.len() == 0 || c.len() == 0 ==> registry_key(short) is None && registry_key(
                long,
            ) is None
        }),
{
    lemma_segments(a, b, c, rest);
}

/// A wide string is read up to its first null; where nothing stands in front of it, there is no
/// text.
pub proof fn law_wide_strings_end_at_their_first_null(text: Seq<u16>, rest: Seq<u16>)
    requires
        forall|i: int| 0 <= i < text.len() ==> #[trigger] text[i] != 0,
    ensures
        text.len() > 0 ==> wide_text(text.push(0) + rest) == Some(utf16_text(text)),
        text.len() > 0 ==> wide_text(text) == Some(utf16_text(text)),
        text.len() == 0 ==> wide_text(text.push(0) + rest) is None && wide_text(text) is None,
{
    let n = text.len() as int;
    let wide = text.push(0) + rest;
    assert forall|i: int| 0 <= i < n implies #[trigger] wide[i] != 0 by {
        assert(wide[i] == text[i]);
    }
    crate::wallpaper::windows::lemma_until_null(wide, n);
    crate::wallpaper::windows::lemma_until_null(text, n);
    assert(wide.take(n) =~= text);
    assert(text.take(n) =~= text);
}

/// Whether a descriptor slot of an EDID block is of a kind and holds a text: 18 bytes from offset
/// 54 on for each slot, of which three nulls and the kind come first, and thirteen for the text,
/// which ends ahead of a line feed and has no white space around it.
pub open spec fn slot_says(edid: Seq<u8>, slot: int, kind: u8, text: Seq<char>) -> bool {
    let at = 54 + 18 * slot;
    &&& at + 18 <= edid.len()
    &&& edid[at] == 0 && edid[at + 1] == 0 && edid[at + 2] == 0 && edid[at + 3] == kind
    &&& text.len() > 0
    &&& exists|end: int| #[trigger]
        ends_at(edid, at + 5, end) && text == trimmed(lossy_utf8(edid.subrange(at + 5, end)))
}

/// Whether the text of a descriptor that starts at an offset ends at another one.
pub open spec fn ends_at(edid: Seq<u8>, start: int, end: int) -> bool {
    &&& start <= end <= start + 13
    &&& forall|i: int| start <= i < end ==> #[trigger] edid[i] != 0x0A
    &&& end == start + 13 || edid[end] == 0x0A
}

proof fn lemma_end(bytes: Seq<u8>) -> (end: int)
    ensures
        0 <= end <= bytes.len(),
        end < bytes.len() ==> bytes[end] == 0x0A,
        forall|i: int| 0 <= i < end ==> #[trigger] bytes[i] != 0x0A,
    decreases bytes.len(),
{
    if bytes.len() == 0 || bytes[0] == 0x0A {
        0
    } else {
        let rest = bytes.skip(1);
        let end = lemma_end(rest);
        assert forall|i: int| 0 <= i < end + 1 implies #[trigger] bytes[i] != 0x0A by {
            if i > 0 {
                assert(rest[i - 1] == bytes[i]);
            }
        }
        end + 1
    }
}

/// A descriptor gives a text exactly if its slot is of the kind and holds it.
pub proof fn law_descriptors_give_the_text_of_their_slot(
    edid: Seq<u8>,
    slot: int,
    kind: u8,
    text: Seq<char>,
)
    requires
        0 <= slot < 4,
    ensures
        descriptor_text(edid, slot, kind) == Some(text) <==> slot_says(edid, slot, kind, text),
{
    let at = 54 + 18 * slot;
    if at + 18 <= edid.len() {
        let payload = edid.subrange(at + 5, at + 18);
        let end = lemma_end(payload);
        crate::wallpaper::windows::lemma_until_line_feed(payload, end);
        assert(payload.take(end) =~= edid.subrange(at + 5, at + 5 + end));
        assert(ends_at(edid, at + 5, at + 5 + end)) by {
            assert forall|i: int| at + 5 <= i < at + 5 + end implies #[trigger] edid[i] != 0x0A by {
                assert(payload[i - at - 5] == edid[i]);
            }
        }
        assert forall|other: int| #[trigger] ends_at(edid, at + 5, other) implies other == at + 5
            + end by {
            if other < at + 5 + end {
                assert(payload[other - at - 5] == edid[other]);
            } else if other > at + 5 + end {
                assert(edid[at + 5 + end] != 0x0A);
                assert(payload[end] == edid[at + 5 + end]);
            }
        }
    }
}

/// Whether a slot of an EDID block says nothing of a kind.
pub open spec fn silent(edid: Seq<u8>, slot: int, kind: u8) -> bool {
    forall|text: Seq<char>| !#[trigger] slot_says(edid, slot, kind, text)
}

proof fn lemma_silent(edid: Seq<u8>, slot: int, kind: u8)
    requires
        0 <= slot < 4,
    ensures
        silent(edid, slot, kind) <==> descriptor_text(edid, slot, kind) is None,
{
    if let Some(text) = descriptor_text(edid, slot, kind) {
        law_descriptors_give_the_text_of_their_slot(edid, slot, kind, text);
    }
    assert forall|text: Seq<char>| #[trigger] slot_says(edid, slot, kind, text) implies
        descriptor_text(edid, slot, kind) is Some by {
        law_descriptors_give_the_text_of_their_slot(edid, slot, kind, text);
    }
}

/// The name of an EDID block is the text of its first slot of kind `0xFC`; without any, that of its
/// last slot of kind `0xFE`; without these, there is none.
pub proof fn law_edid_name_is_a_name_or_the_last_free_text(
    edid: Seq<u8>,
    slot: int,
    text: Seq<char>,
)
    ensures
        0 <= slot < 4 && slot_says(edid, slot, 0xFC, text) && (forall|k: int|
            0 <= k < slot ==> #[trigger] silent(edid, k, 0xFC)) ==> edid_name(edid) == Some(text),
        0 <= slot < 4 && slot_says(edid, slot, 0xFE, text) && (forall|k: int|
            0 <= k < 4 ==> #[trigger] silent(edid, k, 0xFC)) && (forall|k: int|
            slot < k < 4 ==> #[trigger] silent(edid, k, 0xFE)) ==> edid_name(edid) == Some(text),
        (forall|k: int| 0 <= k < 4 ==> #[trigger] silent(edid, k, 0xFC) && silent(edid, k, 0xFE))
            ==> edid_name(edid) is None,
{
    reveal_with_fuel(first_text, 5);
    reveal_with_fuel(last_text, 5);
    lemma_silent(edid, 0, 0xFC);
    lemma_silent(edid, 1, 0xFC);
    lemma_silent(edid, 2, 0xFC);
    lemma_silent(edid, 3, 0xFC);
    lemma_silent(edid, 0, 0xFE);
    lemma_silent(edid, 1, 0xFE);
    lemma_silent(edid, 2, 0xFE);
    lemma_silent(edid, 3, 0xFE);
    if 0 <= slot < 4 {
        law_descriptors_give_the_text_of_their_slot(edid, slot, 0xFC, text);
        law_descriptors_give_the_text_of_their_slot(edid, slot, 0xFE, text);
        assert(slot == 0 || slot == 1 || slot == 2 || slot == 3);
    }
    assert(silent(edid, 0, 0xFC) || !silent(edid, 0, 0xFC));
}

/// A display is called what its EDID block says, where its path has a registry key; else by its
/// panel id; else by its number, counted from one.
pub proof fn law_displays_are_called_by_what_is_known(
    index: int,
    id: Seq<u16>,
    edid: Option<Seq<u8>>,
    path: Seq<char>,
)
    requires
        index >= 0,
    ensures
        wide_text(id) is None ==> monitor_name(index, id, edid) == "显示器 "@ + decimal(
            (index + 1) as nat,
        ),
        wide_text(id) == Some(path) ==> {
            let named = registry_key(path) is Some && edid is Some && edid_name(edid->0) is Some;
            &&& named ==> monitor_name(index, id, edid) == edid_name(edid->0)->0
            &&& !named && pnp_id(path) is Some ==> monitor_name(index, id, edid) == pnp_id(path)->0
            &&& !named && pnp_id(path) is None ==> monitor_name(index, id, edid) == "显示器 "@
                + decimal((index + 1) as nat)
        },
{
}

/// The block of a display is the one at its position, where there is one.
pub proof fn law_blocks_belong_to_their_displays(edids: Seq<Option<Vec<u8>>>, index: int)
    requires
        0 <= index,
    ensures
        index < edids.len() ==> (edids[index] matches Some(bytes) ==> block_at(edids, index) == Some(
            bytes@,
        )),
        index >= edids.len() || edids[index] is None ==> block_at(edids, index) is None,
{
}

/// The real displays are the reported ones with a path and with a rectangle of some width and
/// height, both of which could be found out. They are given in their order, by their path with a
/// null behind it.
pub proof fn law_real_displays_have_a_path_and_a_rectangle(
    first: Seq<ReportedMonitor>,
    second: Seq<ReportedMonitor>,
    one: ReportedMonitor,
)
    ensures
        real_ids(first + second) == real_ids(first) + real_ids(second),
        real_ids(Seq::empty()).len() == 0,
        ({
            let active = one.path_status >= 0 && one.path is Some && one.rect_status >= 0 && one.right
                > one.left && one.bottom > one.top;
            &&& active ==> real_ids(seq![one]) == seq![one.path->0@.push(0)]
            &&& !active ==> real_ids(seq![one]).len() == 0
        }),
    decreases second.len(),
{
    reveal_with_fuel(real_ids, 2);
    assert(seq![one].drop_last() =~= Seq::<ReportedMonitor>::empty());
    if second.len() == 0 {
        assert(first + second =~= first);
        assert(real_ids(first) + real_ids(second) =~= real_ids(first));
    } else {
        law_real_displays_have_a_path_and_a_rectangle(first, second.drop_last(), one);
        assert((first + second).drop_last() =~= first + second.drop_last());
        assert(real_ids(first + second) =~= real_ids(first) + real_ids(second));
    }
}

/// The strings of a list are those of its items, in their order.
pub proof fn law_every_string_has_its_units(list: Seq<Vec<u16>>)
    ensures
        crate::wallpaper::windows::units(list).len() == list.len(),
        forall|i: int| 0 <= i < list.len() ==> #[trigger] crate::wallpaper::windows::units(list)[i] == list[i]@,
{
}

/// Displays without names are numbered from one.
pub proof fn law_displays_are_numbered_from_one(count: nat, i: int)
    ensures
        numbered_names(count).len() == count,
        0 <= i < count ==> numbered_names(count)[i] == "显示器 "@ + decimal((i + 1) as nat),
{
}

/// What an error about the desktop says names the display and how many there are.
pub proof fn law_display_errors_say_what_is_wrong(error: WallpaperError)
    ensures
        error is NoWallpapers ==> error_message(error) == "no wallpapers provided"@,
        error matches WallpaperError::MonitorOutOfRange { index, count } ==> error_message(error)
            == "monitor index "@ + decimal(index as nat) + " out of range ("@ + decimal(
            count as nat,
        ) + " displays)"@,
        error is AllMonitorsFailed ==> error_message(error)
            == "all per-monitor wallpaper updates failed"@,
        error is Unsupported ==> error_message(error)
            == "wallpaper updates require Windows, GNOME, or KDE Plasma"@,
        error matches WallpaperError::Platform { message } ==> error_message(error) == message@,
{
}

} // verus!
