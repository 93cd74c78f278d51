//! The decisions of the Windows backend: which displays are real, what they are called, and which
//! wallpaper goes to which of them.

use crate::text::{chars_of, split};
use crate::wallpaper::{monitor_label, WallpaperError};
use vstd::prelude::*;
use vstd::slice::slice_subrange;
use vstd::string::*;

verus! {

/// The UTF-16 code units of a character.
pub open spec fn utf16_units(c: char) -> Seq<u16> {
    let code = c as u32;
    if code <= 0xFFFF {
        seq![code as u16]
    } else {
        seq![
            (0xD800 + (code - 0x10000) / 0x400) as u16,
            (0xDC00 + (code - 0x10000) % 0x400) as u16,
        ]
    }
}

/// The UTF-16 code units of a text.
pub open spec fn utf16(s: Seq<char>) -> Seq<u16>
    decreases s.len(),
{
    if s.len() == 0 {
        Seq::empty()
    } else {
        utf16_units(s[0]) + utf16(s.skip(1))
    }
}

/// A text as null-terminated UTF-16.
pub fn wide_null(value: &str) -> (r: Vec<u16>)
    ensures
        r@ == utf16(value@).push(0),
{
    let chars = chars_of(value);
    let mut r: Vec<u16> = Vec::new();
    let mut i: usize = 0;
    assert(chars@.skip(0) =~= chars@);
    assert(r@ + utf16(chars@) =~= utf16(chars@));
    while i < chars.len()
        invariant
            i <= chars@.len(),
            chars@ == value@,
            r@ + utf16(chars@.skip(i as int)) == utf16(chars@),
        decreases chars@.len() - i,
    {
        let c: char = chars[i];
        let code: u32 = c as u32;
        let ghost before = r@;
        proof {
            vstd::utf8::char_is_scalar(c);
            assert(chars@.skip(i as int).skip(1) =~= chars@.skip(i + 1));
        }
        if code <= 0xFFFF {
            r.push(code as u16);
        } else {
            let above: u32 = code - 0x10000;
            r.push((0xD800 + above / 0x400) as u16);
            r.push((0xDC00 + above % 0x400) as u16);
        }
        proof {
            assert(r@ =~= before + utf16_units(c));
            assert(r@ + utf16(chars@.skip(i + 1)) =~= before + (utf16_units(c) + utf16(
                chars@.skip(i + 1),
            )));
        }
        i += 1;
    }
    assert(chars@.skip(i as int) =~= Seq::<char>::empty());
    assert(r@ =~= utf16(chars@));
    r.push(0);
    r
}

/// Whether a code unit starts a surrogate pair.
pub open spec fn lead_surrogate(unit: u16) -> bool {
    0xD800 <= unit <= 0xDBFF
}

/// Whether a code unit ends a surrogate pair.
pub open spec fn trail_surrogate(unit: u16) -> bool {
    0xDC00 <= unit <= 0xDFFF
}

/// The text of UTF-16 code units, with U+FFFD for every surrogate outside of a pair.
pub open spec fn utf16_text(units: Seq<u16>) -> Seq<char>
    decreases units.len(),
{
    if units.len() == 0 {
        Seq::empty()
    } else if !lead_surrogate(units[0]) && !trail_surrogate(units[0]) {
        seq![(units[0] as u32) as char] + utf16_text(units.skip(1))
    } else if units.len() > 1 && lead_surrogate(units[0]) && trail_surrogate(units[1]) {
        seq![pair_char(units[0], units[1])] + utf16_text(units.skip(2))
    } else {
        seq!['\u{FFFD}'] + utf16_text(units.skip(1))
    }
}

/// The character of a surrogate pair.
pub open spec fn pair_char(lead: u16, trail: u16) -> char {
    ((0x10000 + (lead - 0xD800) * 0x400 + (trail - 0xDC00)) as u32) as char
}

/// `String::from_utf16_lossy` decodes UTF-16, with U+FFFD for invalid data.
pub assume_specification[ String::from_utf16_lossy ](units: &[u16]) -> (r: String)
    ensures
        r@ == utf16_text(units@),
;

/// The code units in front of the first null.
pub open spec fn until_null(wide: Seq<u16>) -> Seq<u16>
    decreases wide.len(),
{
    if wide.len() == 0 || wide[0] == 0 {
        Seq::empty()
    } else {
        seq![wide[0]] + until_null(wide.skip(1))
    }
}

/// The text of a null-terminated wide string, or none where it is empty.
pub open spec fn wide_text(wide: Seq<u16>) -> Option<Seq<char>> {
    if until_null(wide).len() == 0 {
        None
    } else {
        Some(utf16_text(until_null(wide)))
    }
}

pub(crate) proof fn lemma_until_null(wide: Seq<u16>, end: int)
    requires
        0 <= end <= wide.len(),
        end < wide.len() ==> wide[end] == 0,
        forall|i: int| 0 <= i < end ==> #[trigger] wide[i] != 0,
    ensures
        until_null(wide) == wide.take(end),
    decreases end,
{
    if end > 0 {
        assert(wide[0] != 0);
        let rest = wide.skip(1);
        assert forall|i: int| 0 <= i < end - 1 implies #[trigger] rest[i] != 0 by {
            assert(rest[i] == wide[i + 1]);
        }
        lemma_until_null(rest, end - 1);
        assert(wide.take(end) =~= seq![wide[0]] + rest.take(end - 1));
    } else {
        assert(wide.take(0) =~= Seq::<u16>::empty());
    }
}

/// Reads a null-terminated wide string.
pub fn wide_to_string(wide: &[u16]) -> (r: Option<String>)
    ensures
        crate::text::opt_text(r) == wide_text(wide@),
{
    let mut end: usize = 0;
    while end < wide.len() && wide[end] != 0
        invariant
            end <= wide.len(),
            forall|i: int| 0 <= i < end ==> #[trigger] wide@[i] != 0,
        decreases wide.len() - end,
    {
        end += 1;
    }
    proof {
        lemma_until_null(wide@, end as int);
        assert(wide@.subrange(0, end as int) =~= wide@.take(end as int));
    }
    if end == 0 {
        return None;
    }
    Some(String::from_utf16_lossy(slice_subrange(wide, 0, end)))
}

/// Decoding undoes encoding.
pub proof fn law_utf16_reads_back(s: Seq<char>)
    ensures
        utf16_text(utf16(s)) == s,
    decreases s.len(),
{
    let units = utf16(s);
    if s.len() == 0 {
        assert(units.len() == 0);
        assert(utf16_text(units) =~= s);
    } else {
        let c = s[0];
        let rest = utf16(s.skip(1));
        law_utf16_reads_back(s.skip(1));
        lemma_units(c);
        assert(units == utf16_units(c) + rest);
        if c as u32 <= 0xFFFF {
            assert(units[0] == (c as u32) as u16);
            assert(units.skip(1) =~= rest);
            assert(utf16_text(units) =~= seq![c] + utf16_text(rest));
        } else {
            assert(units[0] == utf16_units(c)[0]);
            assert(units[1] == utf16_units(c)[1]);
            assert(units.skip(2) =~= rest);
            assert(utf16_text(units) =~= seq![c] + utf16_text(rest));
        }
        assert(s =~= seq![c] + s.skip(1));
    }
}

/// The code units of a character are no null unless it is one, and read back as it.
proof fn lemma_units(c: char)
    ensures
        c as u32 <= 0xFFFF ==> {
            let unit = (c as u32) as u16;
            &&& utf16_units(c) == seq![unit]
            &&& !lead_surrogate(unit) && !trail_surrogate(unit)
            &&& (unit as u32) as char == c
            &&& unit == 0 ==> c == '\0'
        },
        c as u32 > 0xFFFF ==> {
            let units = utf16_units(c);
            &&& units.len() == 2
            &&& lead_surrogate(units[0]) && trail_surrogate(units[1])
            &&& pair_char(units[0], units[1]) == c
        },
{
    vstd::utf8::char_is_scalar(c);
    let code = c as u32;
    vstd::utf8::char_u32_cast(c, code);
    if code <= 0xFFFF {
        assert(((code as u16) as u32) == code);
    } else {
        let above = code - 0x10000;
        assert((above / 0x400) * 0x400 + above % 0x400 == above);
    }
}

proof fn lemma_no_null(s: Seq<char>)
    requires
        forall|i: int| 0 <= i < s.len() ==> #[trigger] s[i] != '\0',
    ensures
        forall|i: int| 0 <= i < utf16(s).len() ==> #[trigger] utf16(s)[i] != 0,
        s.len() > 0 ==> utf16(s).len() > 0,
    decreases s.len(),
{
    if s.len() > 0 {
        let rest = s.skip(1);
        assert forall|i: int| 0 <= i < rest.len() implies #[trigger] rest[i] != '\0' by {
            assert(rest[i] == s[i + 1]);
        }
        lemma_no_null(rest);
        lemma_units(s[0]);
        assert(s[0] != '\0');
        let units = utf16_units(s[0]);
        assert forall|i: int| 0 <= i < utf16(s).len() implies #[trigger] utf16(s)[i] != 0 by {
            if i < units.len() {
                assert(utf16(s)[i] == units[i]);
            } else {
                assert(utf16(s)[i] == utf16(rest)[i - units.len()]);
            }
        }
    }
}

/// A text without nulls that was written as a wide string reads back as it was.
pub proof fn law_wide_strings_read_back(s: Seq<char>)
    requires
        s.len() > 0,
        forall|i: int| 0 <= i < s.len() ==> #[trigger] s[i] != '\0',
    ensures
        wide_text(utf16(s).push(0)) == Some(s),
{
    lemma_no_null(s);
    law_utf16_reads_back(s);
    let wide = utf16(s).push(0);
    lemma_until_null(wide, utf16(s).len() as int);
    assert(wide.take(utf16(s).len() as int) =~= utf16(s));
}

/// The panel id of a display interface path: its second segment.
pub open spec fn pnp_id(device_path: Seq<char>) -> Option<Seq<char>> {
    let segments = crate::text::split_on(device_path, '#');
    if segments.len() > 1 && segments[1].len() > 0 {
        Some(segments[1])
    } else {
        None
    }
}

/// The EDID vendor/product segment of a display interface path, e.g. `LEN8BA1`.
///
/// Used when a panel publishes no name descriptor: the panel id is still a real identifier that
/// can be matched against Device Manager, which beats an anonymous `显示器 N`.
pub fn display_pnp_id(device_path: &str) -> (r: Option<String>)
    ensures
        crate::text::opt_text(r) == pnp_id(device_path@),
{
    let segments = split(device_path, '#');
    let ghost all = crate::text::texts(segments@);
    if segments.len() > 1 {
        assert(all[1] == segments@[1]@);
        if !segments[1].as_str().is_empty() {
            return Some(segments[1].clone());
        }
    }
    None
}

/// The registry key with the EDID of a display: its panel id and instance name it.
pub open spec fn registry_key(device_path: Seq<char>) -> Option<Seq<char>> {
    let segments = crate::text::split_on(device_path, '#');
    if segments.len() > 2 && segments[1].len() > 0 && segments[2].len() > 0 {
        Some(
            "SYSTEM\\CurrentControlSet\\Enum\\DISPLAY\\"@ + segments[1] + "\\"@ + segments[2]
                + "\\Device Parameters"@,
        )
    } else {
        None
    }
}

/// The registry key, below the local machine, that holds the EDID of a display.
///
/// `device_path` is the interface path of the display, e.g.
/// `\\?\DISPLAY#LEN8BA1#4&2c6c98d4&0&UID8388688#{e6f07b5f-...}`. Its middle segments are exactly
/// the registry key components, which makes the lookup exact rather than dependent on enumeration
/// order.
pub fn edid_registry_key(device_path: &str) -> (r: Option<String>)
    ensures
        crate::text::opt_text(r) == registry_key(device_path@),
{
    let segments = split(device_path, '#');
    let ghost all = crate::text::texts(segments@);
    if segments.len() > 2 {
        assert(all[1] == segments@[1]@ && all[2] == segments@[2]@);
        if !segments[1].as_str().is_empty() && !segments[2].as_str().is_empty() {
            let mut key = "SYSTEM\\CurrentControlSet\\Enum\\DISPLAY\\".to_owned();
            key.append(segments[1].as_str());
            key.append("\\");
            key.append(segments[2].as_str());
            key.append("\\Device Parameters");
            return Some(key);
        }
    }
    None
}

/// The text of bytes that are no UTF-8, as `String::from_utf8_lossy` repairs it.
pub uninterp spec fn repaired_utf8(bytes: Seq<u8>) -> Seq<char>;

/// The text of bytes: decoded where they are UTF-8, else repaired.
pub open spec fn lossy_utf8(bytes: Seq<u8>) -> Seq<char> {
    if vstd::utf8::valid_utf8(bytes) {
        vstd::utf8::decode_utf8(bytes)
    } else {
        repaired_utf8(bytes)
    }
}

/// `String::from_utf8_lossy` decodes valid UTF-8 as it is. What it makes of other bytes depends on
/// the bytes alone and is called `repaired_utf8`.
#[verifier::external_body]
fn utf8_text(bytes: &[u8]) -> (r: String)
    ensures
        vstd::utf8::valid_utf8(bytes@) ==> r@ == vstd::utf8::decode_utf8(bytes@),
        !vstd::utf8::valid_utf8(bytes@) ==> r@ == repaired_utf8(bytes@),
{
    String::from_utf8_lossy(bytes).into_owned()
}

/// The bytes in front of the first line feed.
pub open spec fn until_line_feed(bytes: Seq<u8>) -> Seq<u8>
    decreases bytes.len(),
{
    if bytes.len() == 0 || bytes[0] == 0x0A {
        Seq::empty()
    } else {
        seq![bytes[0]] + until_line_feed(bytes.skip(1))
    }
}

pub(crate) proof fn lemma_until_line_feed(bytes: Seq<u8>, end: int)
    requires
        0 <= end <= bytes.len(),
        end < bytes.len() ==> bytes[end] == 0x0A,
        forall|i: int| 0 <= i < end ==> #[trigger] bytes[i] != 0x0A,
    ensures
        until_line_feed(bytes) == bytes.take(end),
    decreases end,
{
    if end > 0 {
        assert(bytes[0] != 0x0A);
        let rest = bytes.skip(1);
        assert forall|i: int| 0 <= i < end - 1 implies #[trigger] rest[i] != 0x0A by {
            assert(rest[i] == bytes[i + 1]);
        }
        lemma_until_line_feed(rest, end - 1);
        assert(bytes.take(end) =~= seq![bytes[0]] + rest.take(end - 1));
    } else {
        assert(bytes.take(0) =~= Seq::<u8>::empty());
    }
}

/// The offset of a descriptor slot: four slots of 18 bytes start at offset 54.
pub open spec fn slot_offset(slot: int) -> int {
    54 + 18 * slot
}

/// The text of a descriptor slot of the given kind: 13 bytes, terminated by a line feed and
/// padded with spaces. A slot that is cut off, of another kind or blank has none.
pub open spec fn descriptor_text(edid: Seq<u8>, slot: int, kind: u8) -> Option<Seq<char>> {
    let at = slot_offset(slot);
    if at + 18 <= edid.len() && edid[at] == 0 && edid[at + 1] == 0 && edid[at + 2] == 0 && edid[at
        + 3] == kind {
        let text = crate::text::trimmed(
            lossy_utf8(until_line_feed(edid.subrange(at + 5, at + 18))),
        );
        if text.len() == 0 {
            None
        } else {
            Some(text)
        }
    } else {
        None
    }
}

/// The first text of a kind among the first `slots` slots.
pub open spec fn first_text(edid: Seq<u8>, slots: int, kind: u8) -> Option<Seq<char>>
    decreases slots,
{
    if slots <= 0 {
        None
    } else if first_text(edid, slots - 1, kind) is Some {
        first_text(edid, slots - 1, kind)
    } else {
        descriptor_text(edid, slots - 1, kind)
    }
}

/// The last text of a kind among the first `slots` slots.
pub open spec fn last_text(edid: Seq<u8>, slots: int, kind: u8) -> Option<Seq<char>>
    decreases slots,
{
    if slots <= 0 {
        None
    } else if descriptor_text(edid, slots - 1, kind) is Some {
        descriptor_text(edid, slots - 1, kind)
    } else {
        last_text(edid, slots - 1, kind)
    }
}

/// The descriptor kind of a monitor name.
pub const MONITOR_NAME: u8 = 0xFC;

/// The descriptor kind of a free-form string.
pub const FREE_FORM: u8 = 0xFE;

/// The display name of an EDID block: the monitor name, else the last free-form string.
pub open spec fn edid_name(edid: Seq<u8>) -> Option<Seq<char>> {
    match first_text(edid, 4, MONITOR_NAME) {
        Some(name) => Some(name),
        None => last_text(edid, 4, FREE_FORM),
    }
}

/// Reads a descriptor slot: its kind and its text.
fn read_descriptor(edid: &[u8], slot: usize) -> (r: Option<(u8, String)>)
    requires
        slot < 4,
    ensures
        match r {
            Some((kind, text)) => {
                &&& kind == MONITOR_NAME || kind == FREE_FORM
                &&& descriptor_text(edid@, slot as int, kind) == Some(text@)
                &&& kind == MONITOR_NAME ==> descriptor_text(edid@, slot as int, FREE_FORM) is None
                &&& kind == FREE_FORM ==> descriptor_text(edid@, slot as int, MONITOR_NAME) is None
            },
            None => {
                &&& descriptor_text(edid@, slot as int, MONITOR_NAME) is None
                &&& descriptor_text(edid@, slot as int, FREE_FORM) is None
            },
        },
{
    let at: usize = 54 + 18 * slot;
    if edid.len() < at + 18 {
        return None;
    }
    if edid[at] != 0 || edid[at + 1] != 0 || edid[at + 2] != 0 {
        return None;
    }
    let kind: u8 = edid[at + 3];
    if kind != MONITOR_NAME && kind != FREE_FORM {
        return None;
    }
    let payload = slice_subrange(edid, at + 5, at + 18);
    let mut end: usize = 0;
    while end < payload.len() && payload[end] != 0x0A
        invariant
            end <= payload.len(),
            forall|i: int| 0 <= i < end ==> #[trigger] payload@[i] != 0x0A,
        decreases payload.len() - end,
    {
        end += 1;
    }
    proof {
        lemma_until_line_feed(payload@, end as int);
        assert(payload@.subrange(0, end as int) =~= payload@.take(end as int));
    }
    let decoded = utf8_text(slice_subrange(payload, 0, end));
    let text = decoded.as_str().trim().to_owned();
    if text.as_str().is_empty() {
        return None;
    }
    Some((kind, text))
}

/// Extracts the display name from an EDID 1.x block.
///
/// The four 18-byte descriptor slots start at offset 54. `0xFC` holds the monitor name proper,
/// while `0xFE` is a free-form string that vendors commonly use for brand plus model. Lenovo, for
/// instance, emits two `0xFE` descriptors (`LENOVO`, then `LEN160-3.2K`), so the last one is kept.
/// A `0xFC` descriptor always wins when present.
pub fn edid_descriptor_name(edid: &[u8]) -> (r: Option<String>)
    ensures
        crate::text::opt_text(r) == edid_name(edid@),
{
    let mut free_form: Option<String> = None;
    let mut slot: usize = 0;
    while slot < 4
        invariant
            slot <= 4,
            first_text(edid@, slot as int, MONITOR_NAME) is None,
            crate::text::opt_text(free_form) == last_text(edid@, slot as int, FREE_FORM),
        decreases 4 - slot,
    {
        match read_descriptor(edid, slot) {
            Some((kind, text)) => {
                if kind == MONITOR_NAME {
                    proof {
                        lemma_first_text_stays(edid@, slot + 1, 4, MONITOR_NAME);
                    }
                    return Some(text);
                }
                free_form = Some(text);
            },
            None => {},
        }
        slot += 1;
    }
    free_form
}

proof fn lemma_first_text_stays(edid: Seq<u8>, slots: int, more: int, kind: u8)
    requires
        0 <= slots <= more,
        first_text(edid, slots, kind) is Some,
    ensures
        first_text(edid, more, kind) == first_text(edid, slots, kind),
    decreases more - slots,
{
    if slots < more {
        lemma_first_text_stays(edid, slots, more - 1, kind);
    }
}

/// A monitor name wins over every free-form string, and of several free-form strings the last one
/// counts.
pub proof fn law_monitor_name_wins(edid: Seq<u8>, slot: int)
    requires
        0 <= slot < 4,
    ensures
        descriptor_text(edid, slot, MONITOR_NAME) is Some && (forall|k: int|
            0 <= k < slot ==> (#[trigger] descriptor_text(edid, k, MONITOR_NAME)) is None)
            ==> edid_name(edid) == descriptor_text(edid, slot, MONITOR_NAME),
        descriptor_text(edid, slot, FREE_FORM) is Some && (forall|k: int|
            slot < k < 4 ==> (#[trigger] descriptor_text(edid, k, FREE_FORM)) is None) && (forall|
            k: int,
        |
            0 <= k < 4 ==> (#[trigger] descriptor_text(edid, k, MONITOR_NAME)) is None)
            ==> edid_name(edid) == descriptor_text(edid, slot, FREE_FORM),
{
    reveal_with_fuel(first_text, 5);
    reveal_with_fuel(last_text, 5);
    assert(descriptor_text(edid, 0, MONITOR_NAME) is None || descriptor_text(edid, 0, MONITOR_NAME)
        is Some);
    assert(descriptor_text(edid, 1, MONITOR_NAME) is None || descriptor_text(edid, 1, MONITOR_NAME)
        is Some);
    assert(descriptor_text(edid, 2, MONITOR_NAME) is None || descriptor_text(edid, 2, MONITOR_NAME)
        is Some);
    assert(descriptor_text(edid, 3, MONITOR_NAME) is None || descriptor_text(edid, 3, MONITOR_NAME)
        is Some);
    assert(descriptor_text(edid, 1, FREE_FORM) is None || descriptor_text(edid, 1, FREE_FORM)
        is Some);
    assert(descriptor_text(edid, 2, FREE_FORM) is None || descriptor_text(edid, 2, FREE_FORM)
        is Some);
    assert(descriptor_text(edid, 3, FREE_FORM) is None || descriptor_text(edid, 3, FREE_FORM)
        is Some);
}

/// A descriptor that holds a text gives that text, without what follows its line feed and without
/// white space around it.
pub proof fn law_descriptors_are_read_as_they_are(
    edid: Seq<u8>,
    slot: int,
    kind: u8,
    text: Seq<char>,
)
    requires
        0 <= slot < 4,
        slot_offset(slot) + 18 <= edid.len(),
        edid.subrange(slot_offset(slot), slot_offset(slot) + 4) == seq![0u8, 0, 0, kind],
        until_line_feed(edid.subrange(slot_offset(slot) + 5, slot_offset(slot) + 18))
            == vstd::utf8::encode_utf8(text),
        crate::text::trimmed(text).len() > 0,
    ensures
        descriptor_text(edid, slot, kind) == Some(crate::text::trimmed(text)),
{
    let at = slot_offset(slot);
    let head = edid.subrange(at, at + 4);
    assert(head[0] == edid[at] && head[1] == edid[at + 1] && head[2] == edid[at + 2] && head[3]
        == edid[at + 3]);
    vstd::utf8::encode_utf8_valid_utf8(text);
    vstd::utf8::encode_utf8_decode_utf8(text);
}

/// The name of a display from its EDID block, which can be found by its registry key only.
pub open spec fn registered_name(device_path: Seq<char>, edid: Option<Seq<u8>>) -> Option<
    Seq<char>,
> {
    match (registry_key(device_path), edid) {
        (Some(_), Some(block)) => edid_name(block),
        _ => None,
    }
}

/// The name of a display: from its EDID block, else its panel id, else its position.
pub open spec fn monitor_name(index: int, id: Seq<u16>, edid: Option<Seq<u8>>) -> Seq<char> {
    match wide_text(id) {
        Some(path) => match registered_name(path, edid) {
            Some(name) => name,
            None => match pnp_id(path) {
                Some(name) => name,
                None => crate::wallpaper::numbered_name(index),
            },
        },
        None => crate::wallpaper::numbered_name(index),
    }
}

/// The bytes of an optional block.
pub open spec fn opt_bytes(block: Option<Vec<u8>>) -> Option<Seq<u8>> {
    match block {
        Some(bytes) => Some(bytes@),
        None => None,
    }
}

/// The block of a display; there may be fewer blocks than displays.
pub open spec fn block_at(edids: Seq<Option<Vec<u8>>>, index: int) -> Option<Seq<u8>> {
    if index < edids.len() {
        opt_bytes(edids[index])
    } else {
        None
    }
}

fn name_of(index: usize, id: &Vec<u16>, edid: &Option<Vec<u8>>) -> (r: String)
    requires
        index < usize::MAX,
    ensures
        r@ == monitor_name(index as int, id@, opt_bytes(*edid)),
{
    if let Some(path) = wide_to_string(id.as_slice()) {
        if let Some(block) = edid {
            if edid_registry_key(path.as_str()).is_some() {
                if let Some(name) = edid_descriptor_name(block.as_slice()) {
                    return name;
                }
            }
        }
        if let Some(name) = display_pnp_id(path.as_str()) {
            return name;
        }
    }
    monitor_label(index)
}

/// Human-readable names for the displays identified by `monitors`.
///
/// The desktop only hands out opaque device interface paths, so each name is recovered from the
/// EDID block that the display driver publishes in the registry; `edids` holds the blocks that
/// could be read. Displays without one, or whose block carries no name descriptor, as some virtual
/// panels do, fall back to their panel id, and at last to `显示器 <n>`.
pub fn monitor_names_for(monitors: &Vec<Vec<u16>>, edids: &Vec<Option<Vec<u8>>>) -> (r: Vec<String>)
    ensures
        r@.len() == monitors@.len(),
        forall|i: int|
            0 <= i < r@.len() ==> (#[trigger] r@[i])@ == monitor_name(
                i,
                monitors@[i]@,
                block_at(edids@, i),
            ),
{
    let mut r: Vec<String> = Vec::new();
    let none: Option<Vec<u8>> = None;
    let mut i: usize = 0;
    while i < monitors.len()
        invariant
            none is None,
            i <= monitors.len(),
            r@.len() == i,
            forall|k: int|
                0 <= k < i ==> (#[trigger] r@[k])@ == monitor_name(
                    k,
                    monitors@[k]@,
                    block_at(edids@, k),
                ),
        decreases monitors@.len() - i,
    {
        let edid = if i < edids.len() {
            &edids[i]
        } else {
            &none
        };
        r.push(name_of(i, &monitors[i], edid));
        i += 1;
    }
    r
}

/// An entry that the desktop reports as a display: the status of asking for its path, the path
/// where there is one, without its null, and the status and the corners of its rectangle.
#[derive(Debug)]
pub struct ReportedMonitor {
    pub path_status: i32,
    pub path: Option<Vec<u16>>,
    pub rect_status: i32,
    pub left: i32,
    pub top: i32,
    pub right: i32,
    pub bottom: i32,
}

/// Whether a status of the platform is a success.
pub open spec fn succeeded(status: i32) -> bool {
    status >= 0
}

/// Whether a reported entry is a real, active display: one with a path and with a rectangle that
/// is not empty.
pub open spec fn is_real(entry: ReportedMonitor) -> bool {
    &&& succeeded(entry.path_status)
    &&& entry.path is Some
    &&& succeeded(entry.rect_status)
    &&& entry.right > entry.left
    &&& entry.bottom > entry.top
}

/// The null-terminated paths of the real displays, in their order.
pub open spec fn real_ids(reported: Seq<ReportedMonitor>) -> Seq<Seq<u16>>
    decreases reported.len(),
{
    if reported.len() == 0 {
        Seq::empty()
    } else if is_real(reported.last()) {
        real_ids(reported.drop_last()).push(reported.last().path->0@.push(0))
    } else {
        real_ids(reported.drop_last())
    }
}

/// The code units of each string of a list.
pub open spec fn units(list: Seq<Vec<u16>>) -> Seq<Seq<u16>> {
    list.map_values(|wide: Vec<u16>| wide@)
}

/// A wallpaper plan for several displays.
#[derive(Debug)]
pub enum WallpaperPlan {
    /// No real displays were reported: the first wallpaper goes to the whole desktop.
    WholeDesktop,
    /// The index of the wallpaper for each display.
    PerMonitor { choices: Vec<usize> },
}

/// The Windows backend.
#[derive(Debug, Default)]
pub struct WindowsWallpaperBackend;

impl WindowsWallpaperBackend {
    /// The real, active displays as null-terminated wide strings.
    ///
    /// The desktop also reports pseudo-entries (empty ids, `legacy_monitor_001`, "Default Monitor"
    /// without EDID, ...). Those never expose a non-empty display rectangle, so each entry is
    /// validated with it before being accepted.
    pub fn real_monitor_ids(&self, reported: &Vec<ReportedMonitor>) -> (r: Vec<Vec<u16>>)
        ensures
            units(r@) == real_ids(reported@),
    {
        let mut r: Vec<Vec<u16>> = Vec::new();
        let mut i: usize = 0;
        assert(reported@.take(0) =~= Seq::<ReportedMonitor>::empty());
        assert(units(r@) =~= Seq::<Seq<u16>>::empty());
        while i < reported.len()
            invariant
                i <= reported@.len(),
                units(r@) == real_ids(reported@.take(i as int)),
            decreases reported@.len() - i,
        {
            let entry = &reported[i];
            let ghost before = units(r@);
            proof {
                assert(reported@.take(i + 1).drop_last() =~= reported@.take(i as int));
                assert(reported@.take(i + 1).last() == *entry);
            }
            if let Some(path) = &entry.path {
                if entry.path_status >= 0 && entry.rect_status >= 0 && entry.right > entry.left
                    && entry.bottom > entry.top {
                    let mut wide = path.clone();
                    wide.push(0);
                    r.push(wide);
                    proof {
                        assert(wide@ =~= path@.push(0));
                        assert(units(r@) =~= before.push(path@.push(0)));
                    }
                }
            }
            i += 1;
        }
        assert(reported@.take(i as int) =~= reported@);
        r
    }

    /// Which wallpaper goes to which display, wrapping around when there are fewer wallpapers than
    /// displays.
    pub fn plan_wallpapers(&self, wallpapers: usize, monitors: usize) -> (r: Result<
        WallpaperPlan,
        WallpaperError,
    >)
        ensures
            match r {
                Err(error) => wallpapers == 0 && error is NoWallpapers,
                Ok(WallpaperPlan::WholeDesktop) => wallpapers > 0 && monitors == 0,
                Ok(WallpaperPlan::PerMonitor { choices }) => {
                    &&& wallpapers > 0 && monitors > 0
                    &&& choices@.len() == monitors
                    &&& forall|i: int|
                        0 <= i < monitors ==> #[trigger] choices@[i] == i % (wallpapers as int)
                },
            },
    {
        if wallpapers == 0 {
            return Err(WallpaperError::NoWallpapers);
        }
        if monitors == 0 {
            return Ok(WallpaperPlan::WholeDesktop);
        }
        let mut choices: Vec<usize> = Vec::new();
        let mut i: usize = 0;
        while i < monitors
            invariant
                wallpapers > 0,
                i <= monitors,
                choices@.len() == i,
                forall|k: int| 0 <= k < i ==> #[trigger] choices@[k] == k % (wallpapers as int),
            decreases monitors - i,
        {
            choices.push(i % wallpapers);
            i += 1;
        }
        Ok(WallpaperPlan::PerMonitor { choices })
    }

    /// Whether the update of all displays counts as done: some display took its wallpaper.
    /// `applied` tells for each display whether it did.
    pub fn conclude(&self, applied: &Vec<bool>) -> (r: Result<(), WallpaperError>)
        ensures
            match r {
                Ok(_) => exists|i: int| 0 <= i < applied@.len() && #[trigger] applied@[i],
                Err(error) => {
                    &&& error is AllMonitorsFailed
                    &&& forall|i: int| 0 <= i < applied@.len() ==> !(#[trigger] applied@[i])
                },
            },
    {
        let mut i: usize = 0;
        while i < applied.len()
            invariant
                i <= applied@.len(),
                forall|k: int| 0 <= k < i ==> !(#[trigger] applied@[k]),
            decreases applied@.len() - i,
        {
            if applied[i] {
                return Ok(());
            }
            i += 1;
        }
        Err(WallpaperError::AllMonitorsFailed)
    }

    /// The position of a display, checked against the displays there are.
    pub fn check_monitor(&self, index: usize, count: usize) -> (r: Result<(), WallpaperError>)
        ensures
            r == if index < count {
                Ok::<(), WallpaperError>(())
            } else {
                Err(WallpaperError::MonitorOutOfRange { index, count })
            },
    {
        if index < count {
            Ok(())
        } else {
            Err(WallpaperError::MonitorOutOfRange { index, count })
        }
    }
}

/// Every real display gets one name, and no name is empty.
pub proof fn law_every_display_gets_a_name(index: int, id: Seq<u16>, edid: Option<Seq<u8>>)
    requires
        index >= 0,
    ensures
        monitor_name(index, id, edid).len() > 0,
{
    reveal_strlit("显示器 ");
    if let Some(path) = wide_text(id) {
        if let Some(block) = edid {
            reveal_with_fuel(first_text, 5);
            reveal_with_fuel(last_text, 5);
        }
    }
}

} // verus!
