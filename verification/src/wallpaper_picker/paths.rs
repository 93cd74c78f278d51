//! The names of files: which component of a path names the file, and its extension. Windows and
//! the other systems read some paths differently, so a path has two readings.

use vstd::prelude::*;

verus! {

/// Whether a character separates the components of a path. The backslash does so on Windows only.
pub open spec fn separates(c: char, windows: bool) -> bool {
    c == '/' || (windows && c == '\\')
}

/// A path without the separators and the `.` components at its end.
pub open spec fn without_trailing(path: Seq<char>, windows: bool) -> Seq<char>
    decreases path.len(),
{
    if path.len() > 0 && separates(path.last(), windows) {
        without_trailing(path.drop_last(), windows)
    } else if path.len() > 1 && path.last() == '.' && separates(path[path.len() - 2], windows) {
        without_trailing(path.drop_last(), windows)
    } else {
        path
    }
}

/// The position behind the last separator of a path.
pub open spec fn tail_start(path: Seq<char>, windows: bool) -> int
    decreases path.len(),
{
    if path.len() == 0 || separates(path.last(), windows) {
        path.len() as int
    } else {
        tail_start(path.drop_last(), windows)
    }
}

/// What stands behind the last separator of a path.
pub open spec fn tail(path: Seq<char>, windows: bool) -> Seq<char> {
    path.skip(tail_start(path, windows))
}

/// A component as the name of a file: `.` and `..` name none.
pub open spec fn file_part(part: Seq<char>) -> Option<Seq<char>> {
    if part.len() == 0 || part == seq!['.'] || part == seq!['.', '.'] {
        None
    } else {
        Some(part)
    }
}

/// The file name of a path where the slash is the only separator.
pub open spec fn posix_name(path: Seq<char>) -> Option<Seq<char>> {
    file_part(tail(without_trailing(path, false), false))
}

/// Whether a path starts with a drive such as `C:`.
pub open spec fn has_drive(path: Seq<char>) -> bool {
    path.len() > 1 && path[1] == ':' && ('a' <= path[0] <= 'z' || 'A' <= path[0] <= 'Z')
}

/// The file name of a path on Windows. A drive at the start is no part of it.
pub open spec fn windows_name(path: Seq<char>) -> Option<Seq<char>> {
    let kept = without_trailing(path, true);
    if tail_start(kept, true) == 0 && has_drive(kept) {
        file_part(kept.skip(2))
    } else {
        file_part(tail(kept, true))
    }
}

/// Whether a path starts with two separators, which Windows takes for a share.
pub open spec fn starts_share(path: Seq<char>) -> bool {
    path.len() > 1 && separates(path[0], true) && separates(path[1], true)
}

/// How many components a path has.
pub open spec fn components(path: Seq<char>) -> nat
    decreases path.len(),
{
    if path.len() == 0 {
        0
    } else if !separates(path.last(), true) && (path.len() == 1 || separates(
        path[path.len() - 2],
        true,
    )) {
        components(path.drop_last()) + 1
    } else {
        components(path.drop_last())
    }
}

/// Whether `windows_name` holds of a path. A share such as `\\server\pics`, a device such as
/// `\\.\COM4` and a verbatim start such as `\\?\C:` or `\\?\UNC\server\pics` are no file names, so
/// that enough components have to stand in front of one; and behind a verbatim start a slash
/// separates nothing.
pub open spec fn settled_on_windows(path: Seq<char>) -> bool {
    let kept = without_trailing(path, true);
    let before = components(kept.take(tail_start(kept, true)));
    if kept.len() == 0 || !starts_share(path) {
        true
    } else if path[2] == '?' {
        &&& kept == path
        &&& !path.contains('/')
        &&& before >= 4 || (before >= 2 && path[5] == ':')
    } else {
        path[2] != '.' && before >= 2
    }
}

/// The position of the last dot of a name, or -1.
pub open spec fn last_dot(name: Seq<char>) -> int
    decreases name.len(),
{
    if name.len() == 0 {
        -1
    } else if name.last() == '.' {
        name.len() - 1
    } else {
        last_dot(name.drop_last())
    }
}

/// The extension of a file name: what stands behind its last dot, unless that is its first
/// character.
pub open spec fn extension_of(name: Option<Seq<char>>) -> Option<Seq<char>> {
    match name {
        Some(text) => if last_dot(text) > 0 {
            Some(text.skip(last_dot(text) + 1))
        } else {
            None
        },
        None => None,
    }
}

/// Whether a path can have this file name: the one of either reading.
pub open spec fn possible_name(path: Seq<char>, name: Option<Seq<char>>) -> bool {
    name == posix_name(path) || (settled_on_windows(path) ==> name == windows_name(path))
}

/// Whether a path can have this extension: the one of either reading.
pub open spec fn possible_extension(path: Seq<char>, extension: Option<Seq<char>>) -> bool {
    ||| extension == extension_of(posix_name(path))
    ||| settled_on_windows(path) ==> extension == extension_of(windows_name(path))
}

/// `std::path::Path::file_name` gives the last component of a path, as text where it is Unicode,
/// and none where the path ends in `..` or has only a root. Separators and `.` at the end do not
/// count. Which reading of the path holds depends on the system; what Windows makes of the start of
/// a share, a device or a verbatim path is left open where no component is sure to stand behind it.
#[verifier::external_body]
pub(crate) fn path_file_name(path: &str) -> (r: Option<String>)
    ensures
        possible_name(path@, crate::text::opt_text(r)),
{
    std::path::Path::new(path).file_name().and_then(|value| value.to_str()).map(String::from)
}

/// `std::path::Path::extension` gives the part of the file name behind its last dot, as text where
/// it is Unicode, and none where there is no file name, no dot, or only one at the start. The file
/// name is the one of `Path::file_name`.
#[verifier::external_body]
pub(crate) fn path_extension(path: &str) -> (r: Option<String>)
    ensures
        possible_extension(path@, crate::text::opt_text(r)),
{
    std::path::Path::new(path).extension().and_then(|value| value.to_str()).map(String::from)
}

/// Whether what stands behind the last separator of a path is the name of a file on every system,
/// but for a drive in front of it.
pub open spec fn plain_tail(path: Seq<char>) -> bool {
    let name = tail(path, true);
    &&& file_part(name) is Some
    &&& settled_on_windows(path)
    &&& tail_start(path, true) == 0 && has_drive(path) && path.len() > 2 ==> path[2] != '.'
}

pub proof fn lemma_tail_start(path: Seq<char>, windows: bool)
    ensures
        0 <= tail_start(path, windows) <= path.len(),
        tail_start(path, windows) > 0 ==> separates(path[tail_start(path, windows) - 1], windows),
        forall|i: int|
            tail_start(path, windows) <= i < path.len() ==> !separates(#[trigger] path[i], windows),
    decreases path.len(),
{
    if path.len() > 0 && !separates(path.last(), windows) {
        let init = path.drop_last();
        lemma_tail_start(init, windows);
        assert forall|i: int| tail_start(path, windows) <= i < path.len() implies !separates(
            #[trigger] path[i],
            windows,
        ) by {
            if i < init.len() {
                assert(init[i] == path[i]);
            }
        }
    }
}

pub proof fn lemma_last_dot(name: Seq<char>)
    ensures
        -1 <= last_dot(name) < name.len(),
        last_dot(name) >= 0 ==> name[last_dot(name)] == '.',
        forall|i: int| last_dot(name) < i < name.len() ==> #[trigger] name[i] != '.',
    decreases name.len(),
{
    if name.len() > 0 && name.last() != '.' {
        let init = name.drop_last();
        lemma_last_dot(init);
        assert forall|i: int| last_dot(name) < i < name.len() implies #[trigger] name[i] != '.' by {
            if i < init.len() {
                assert(init[i] == name[i]);
            }
        }
    }
}

/// The last dot of a text is the last one of its end, where its end has one.
proof fn lemma_last_dot_of_end(text: Seq<char>, from: int)
    requires
        0 <= from <= text.len(),
    ensures
        last_dot(text.skip(from)) >= 0 ==> last_dot(text) == from + last_dot(text.skip(from)),
        last_dot(text.skip(from)) < 0 ==> last_dot(text) < from,
{
    let end = text.skip(from);
    lemma_last_dot(text);
    lemma_last_dot(end);
    let dot = last_dot(text);
    if last_dot(end) >= 0 {
        let at = from + last_dot(end);
        assert(text[at] == '.');
        if dot > at {
            assert(end[dot - from] == text[dot]);
        }
    } else if dot >= from {
        assert(end[dot - from] == text[dot]);
    }
}

/// A path with a plain tail has nothing at its end that does not count.
proof fn lemma_nothing_trailing(path: Seq<char>, windows: bool)
    requires
        file_part(tail(path, true)) is Some,
    ensures
        without_trailing(path, windows) == path,
{
    lemma_tail_start(path, true);
    let start = tail_start(path, true);
    let last = path.len() - 1;
    assert(!separates(path[last], true));
    if path.len() > 1 && path.last() == '.' && separates(path[last - 1], windows) {
        assert(start == last);
        assert(tail(path, true) =~= seq!['.']);
    }
}

/// Both readings of a path with a plain tail give it the extension of its tail. Where the tail has
/// no dot, the only extension that it can have reaches over a backslash.
pub proof fn lemma_readings(path: Seq<char>)
    requires
        plain_tail(path),
    ensures
        last_dot(tail(path, true)) > 0 ==> {
            let extension = Some(tail(path, true).skip(last_dot(tail(path, true)) + 1));
            &&& extension_of(posix_name(path)) == extension
            &&& extension_of(windows_name(path)) == extension
        },
        last_dot(tail(path, true)) < 0 ==> {
            &&& extension_of(windows_name(path)) is None
            &&& extension_of(posix_name(path)) matches Some(text) ==> text.contains('\\')
        },
{
    let name = tail(path, true);
    let dot = last_dot(name);
    lemma_nothing_trailing(path, true);
    lemma_nothing_trailing(path, false);
    lemma_tail_start(path, true);
    lemma_tail_start(path, false);
    lemma_last_dot(name);
    let start = tail_start(path, true);
    let from = tail_start(path, false);
    if from > start {
        assert(separates(path[from - 1], true));
    }
    let whole = tail(path, false);
    assert(whole.skip(start - from) =~= name);
    lemma_last_dot_of_end(whole, start - from);
    lemma_last_dot(whole);
    if start > from {
        assert(path[start - 1] == '\\');
        assert(whole[start - from - 1] == '\\');
    }
    assert(file_part(whole) == Some(whole));
    if dot > 0 {
        assert(whole.skip(last_dot(whole) + 1) =~= name.skip(dot + 1));
    } else if dot < 0 && last_dot(whole) > 0 {
        let extension = whole.skip(last_dot(whole) + 1);
        assert(extension[start - from - 1 - (last_dot(whole) + 1)] == '\\');
    }
    if start == 0 && has_drive(path) {
        assert(name =~= path);
        let bare = path.skip(2);
        lemma_last_dot_of_end(path, 2);
        lemma_last_dot(bare);
        lemma_last_dot(path);
        if dot > 0 {
            assert(path[0] != '.' && path[1] != '.');
            assert(bare.skip(last_dot(bare) + 1) =~= name.skip(dot + 1));
        }
    }
}

} // verus!
