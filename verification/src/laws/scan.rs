//! Which files count as images, and how they reach the grid.

use crate::config::SourceConfig;
use crate::text::ascii_lowered;
use crate::wallpaper_picker::paths;
use crate::wallpaper_picker::scan::{
    all_offered, images_of, marked_paths, offered, or_empty, pixel_at, possible_answer,
    possible_marks, supported, targets_path, Pixel, ScanTarget, PROGRESS_BATCH,
};
use vstd::prelude::*;

verus! {

/// Whether an extension is that of a supported image format, in upper or lower case.
pub open spec fn image_extension(extension: Seq<char>) -> bool {
    let lower = ascii_lowered(extension);
    ||| lower == "jpg"@
    ||| lower == "jpeg"@
    ||| lower == "png"@
    ||| lower == "webp"@
    ||| lower == "bmp"@
    ||| lower == "gif"@
}

/// The extensions of images are the six supported ones; without an extension there is no image.
pub proof fn law_six_extensions_are_supported(extension: Seq<char>)
    ensures
        supported(Some(extension)) <==> image_extension(extension),
        !supported(None),
{
}

/// Whether a plain file name starts at a position of a path: behind its last slash or backslash,
/// in a path that is no share and whose name is not that of a drive.
pub open spec fn name_at(path: Seq<char>, start: int) -> bool {
    &&& 0 <= start < path.len()
    &&& start == 0 || path[start - 1] == '/' || path[start - 1] == '\\'
    &&& forall|i: int| start <= i < path.len() ==> #[trigger] path[i] != '/' && path[i] != '\\'
    &&& start > 0 || path.len() == 1 || path[1] != ':'
    &&& path.len() < 2 || !((path[0] == '/' || path[0] == '\\') && (path[1] == '/' || path[1]
        == '\\'))
}

/// Whether the last dot of a file name stands at a position behind its first character and ahead
/// of its last one.
pub open spec fn dot_at(path: Seq<char>, start: int, dot: int) -> bool {
    &&& name_at(path, start)
    &&& start < dot < path.len() - 1
    &&& path[dot] == '.'
    &&& forall|i: int| dot < i < path.len() ==> #[trigger] path[i] != '.'
}

proof fn lemma_name_at(path: Seq<char>, start: int)
    requires
        name_at(path, start),
        path.skip(start) != seq!['.'],
        path.skip(start) != seq!['.', '.'],
    ensures
        paths::tail_start(path, true) == start,
        paths::tail(path, true) == path.skip(start),
        paths::plain_tail(path),
{
    paths::lemma_tail_start(path, true);
    let from = paths::tail_start(path, true);
    if from < start {
        assert(!paths::separates(path[start - 1], true));
    } else if start < from {
        assert(path[from - 1] != '/' && path[from - 1] != '\\');
    }
    assert(path.skip(start).len() > 0);
}

/// A file whose name ends in a dot and an extension is an image exactly if the extension is that
/// of an image, whatever directory it is in; one whose name has no dot is none.
pub proof fn law_images_are_told_by_their_extension(
    path: Seq<char>,
    start: int,
    dot: int,
    image: bool,
)
    requires
        possible_answer(path, image),
    ensures
        dot_at(path, start, dot) ==> image == image_extension(path.skip(dot + 1)),
        name_at(path, start) && (forall|i: int|
            start <= i < path.len() ==> #[trigger] path[i] != '.') ==> !image,
{
    let name = path.skip(start);
    if dot_at(path, start, dot) {
        assert(name[name.len() - 1] == path[path.len() - 1]);
        assert(name != seq!['.']) by {
            if name == seq!['.'] {
                assert(name.len() == 1);
            }
        }
        assert(name != seq!['.', '.']) by {
            if name == seq!['.', '.'] {
                assert(name.len() == 2);
            }
        }
        lemma_name_at(path, start);
        paths::lemma_last_dot(name);
        let last = paths::last_dot(name);
        assert(last == dot - start) by {
            assert(name[dot - start] == '.');
            if last > dot - start {
                assert(path[start + last] != '.');
            }
        }
        crate::wallpaper_picker::scan::law_plain_names_are_agreed(path);
        assert(name.skip(last + 1) =~= path.skip(dot + 1));
    } else if name_at(path, start) && (forall|i: int|
        start <= i < path.len() ==> #[trigger] path[i] != '.') {
        assert(name[0] == path[start]);
        assert(name != seq!['.']) by {
            assert(seq!['.'][0] == '.');
        }
        assert(name != seq!['.', '.']) by {
            assert(seq!['.', '.'][0] == '.');
        }
        lemma_name_at(path, start);
        paths::lemma_last_dot(name);
        let last = paths::last_dot(name);
        if last >= 0 {
            assert(path[start + last] != '.');
        }
        crate::wallpaper_picker::scan::law_plain_names_are_agreed(path);
    }
}

/// Whatever a path is, whether it counts as an image is decided by an extension that it can have.
pub proof fn law_extensions_decide(path: Seq<char>, image: bool)
    requires
        possible_answer(path, image),
    ensures
        exists|extension: Option<Seq<char>>| #[trigger]
            paths::possible_extension(path, extension) && (image <==> (extension matches Some(text)
                && image_extension(text))),
{
    let posix = paths::extension_of(paths::posix_name(path));
    let windows = paths::extension_of(paths::windows_name(path));
    assert(paths::possible_extension(path, posix));
    if image != supported(posix) {
        if paths::settled_on_windows(path) {
            assert(paths::possible_extension(path, windows));
        } else {
            let other = if image { Some("png"@) } else { None };
            reveal_strlit("png");
            assert(ascii_lowered("png"@) =~= "png"@);
            assert(paths::possible_extension(path, other));
        }
    }
}

/// Whether a path is a plain one of an image.
pub open spec fn image_path(path: Seq<char>) -> bool {
    exists|start: int, dot: int| #[trigger]
        dot_at(path, start, dot) && image_extension(path.skip(dot + 1))
}

/// Whether a source offers a file: the file of a file source as its only one, or the one at a
/// position of what was found in a directory, recursive or not. Other sources offer none.
pub open spec fn offers(
    sources: Seq<SourceConfig>,
    found: Seq<Vec<String>>,
    place: (int, int),
    path: Seq<char>,
) -> bool {
    let (i, k) = place;
    &&& 0 <= i < sources.len()
    &&& match sources[i] {
        SourceConfig::File { path: file } => k == 0 && file@ == path,
        SourceConfig::Directory { .. } => i < found.len() && 0 <= k < found[i]@.len()
            && found[i]@[k]@ == path,
        _ => false,
    }
}

/// Whether a place comes before another one: of an earlier source, or earlier in the same one.
pub open spec fn earlier(a: (int, int), b: (int, int)) -> bool {
    a.0 < b.0 || (a.0 == b.0 && a.1 < b.1)
}

/// Whether paths are those at the places, and the places stand in their order.
pub open spec fn stand_at(
    sources: Seq<SourceConfig>,
    found: Seq<Vec<String>>,
    paths: Seq<Seq<char>>,
    places: Seq<(int, int)>,
) -> bool {
    &&& places.len() == paths.len()
    &&& forall|a: int|
        0 <= a < places.len() ==> offers(sources, found, #[trigger] places[a], paths[a])
    &&& forall|a: int, b: int|
        0 <= a < b < places.len() ==> earlier(#[trigger] places[a], #[trigger] places[b])
}

proof fn lemma_offered(sources: Seq<SourceConfig>, found: Seq<Vec<String>>, n: int) -> (r: Seq<
    (int, int),
>)
    requires
        0 <= n <= sources.len(),
    ensures
        stand_at(sources, found, all_offered(sources, found, n), r),
        forall|a: int| 0 <= a < r.len() ==> (#[trigger] r[a]).0 < n,
        forall|place: (int, int), path: Seq<char>| #[trigger]
            offers(sources, found, place, path) && place.0 < n ==> r.contains(place),
    decreases n,
{
    if n == 0 {
        Seq::empty()
    } else {
        let first = lemma_offered(sources, found, n - 1);
        let own = offered(sources[n - 1], crate::wallpaper_picker::scan::found_at(found, n - 1));
        let more = Seq::new(own.len(), |k: int| (n - 1, k));
        let r = first + more;
        let paths = all_offered(sources, found, n);
        assert forall|a: int| 0 <= a < r.len() implies offers(
            sources,
            found,
            #[trigger] r[a],
            paths[a],
        ) && r[a].0 < n by {
            if a < first.len() {
                assert(r[a] == first[a]);
            } else {
                let k = a - first.len();
                assert(r[a] == (n - 1, k));
                assert(paths[a] == own[k]);
            }
        }
        assert forall|a: int, b: int| 0 <= a < b < r.len() implies earlier(
            #[trigger] r[a],
            #[trigger] r[b],
        ) by {
            if b < first.len() {
                assert(r[a] == first[a] && r[b] == first[b]);
            } else if a < first.len() {
                assert(r[a] == first[a]);
            }
        }
        assert forall|place: (int, int), path: Seq<char>| #[trigger]
            offers(sources, found, place, path) && place.0 < n implies r.contains(place) by {
            if place.0 < n - 1 {
                assert(first.contains(place));
                let a = choose|a: int| 0 <= a < first.len() && first[a] == place;
                assert(r[a] == place);
            } else {
                assert(place.1 < own.len());
                assert(r[first.len() + place.1] == place);
            }
        }
        r
    }
}

proof fn lemma_marked(paths: Seq<Seq<char>>, marks: Seq<bool>, n: int) -> (r: Seq<int>)
    requires
        0 <= n <= paths.len(),
        marks.len() == paths.len(),
    ensures
        r.len() == marked_paths(paths, marks, n).len(),
        forall|a: int|
            0 <= a < r.len() ==> 0 <= #[trigger] r[a] < n && marks[r[a]] && paths[r[a]]
                == marked_paths(paths, marks, n)[a],
        forall|a: int, b: int| 0 <= a < b < r.len() ==> #[trigger] r[a] < #[trigger] r[b],
        forall|k: int| 0 <= k < n && #[trigger] marks[k] ==> r.contains(k),
    decreases n,
{
    if n == 0 {
        Seq::empty()
    } else {
        let first = lemma_marked(paths, marks, n - 1);
        if marks[n - 1] {
            let r = first.push(n - 1);
            assert forall|k: int| 0 <= k < n && #[trigger] marks[k] implies r.contains(k) by {
                if k < n - 1 {
                    let a = choose|a: int| 0 <= a < first.len() && first[a] == k;
                    assert(r[a] == k);
                } else {
                    assert(r[first.len() as int] == k);
                }
            }
            r
        } else {
            first
        }
    }
}

/// The collected images are files that the sources offer, source by source and each as often as
/// it is offered. Every file with the name of an image is among them, be it the file of a file
/// source or one that was found for a directory, recursive or not; none with another extension,
/// or without one, is.
pub proof fn law_every_offered_image_is_collected(
    sources: Seq<SourceConfig>,
    found: Seq<Vec<String>>,
    images: Seq<Seq<char>>,
)
    requires
        images_of(images, all_offered(sources, found, sources.len() as int)),
    ensures
        exists|places: Seq<(int, int)>| #[trigger]
            stand_at(sources, found, images, places) && forall|place: (int, int), path: Seq<char>|
                #[trigger]
                offers(sources, found, place, path) && image_path(path) ==> places.contains(place),
        forall|i: int, k: int|
            0 <= i < sources.len() && i < found.len() && sources[i] is Directory && 0 <= k
                < found[i]@.len() && image_path((#[trigger] found[i]@[k])@) ==> images.contains(
                found[i]@[k]@,
            ),
        forall|i: int|
            0 <= i < sources.len() && (#[trigger] sources[i] matches SourceConfig::File { path }
                && image_path(path@)) ==> images.contains(sources[i]->File_path@),
        forall|a: int, start: int, dot: int|
            0 <= a < images.len() && #[trigger] dot_at(images[a], start, dot) ==> image_extension(
                images[a].skip(dot + 1),
            ),
        forall|a: int, start: int|
            0 <= a < images.len() && #[trigger] name_at(images[a], start) ==> exists|i: int|
                start <= i < images[a].len() && #[trigger] images[a][i] == '.',
{
    let paths = all_offered(sources, found, sources.len() as int);
    let marks = choose|marks: Seq<bool>| #[trigger]
        possible_marks(paths, marks) && images == marked_paths(paths, marks, paths.len() as int);
    let all = lemma_offered(sources, found, sources.len() as int);
    let kept = lemma_marked(paths, marks, paths.len() as int);
    let places = Seq::new(kept.len(), |a: int| all[kept[a]]);
    assert forall|a: int| 0 <= a < places.len() implies offers(
        sources,
        found,
        #[trigger] places[a],
        images[a],
    ) by {
        assert(offers(sources, found, all[kept[a]], paths[kept[a]]));
    }
    assert forall|a: int, b: int| 0 <= a < b < places.len() implies earlier(
        #[trigger] places[a],
        #[trigger] places[b],
    ) by {
        assert(kept[a] < kept[b]);
        assert(earlier(all[kept[a]], all[kept[b]]));
    }
    assert(stand_at(sources, found, images, places));
    assert forall|place: (int, int), path: Seq<char>| #[trigger]
        offers(sources, found, place, path) && image_path(path) implies places.contains(place)
        && images.contains(path) by {
        assert(all.contains(place));
        let k = choose|k: int| 0 <= k < all.len() && all[k] == place;
        assert(offers(sources, found, all[k], paths[k]));
        assert(paths[k] == path);
        let (start, dot) = choose|start: int, dot: int| #[trigger]
            dot_at(path, start, dot) && image_extension(path.skip(dot + 1));
        assert(possible_answer(paths[k], marks[k]));
        law_images_are_told_by_their_extension(path, start, dot, marks[k]);
        assert(kept.contains(k));
        let a = choose|a: int| 0 <= a < kept.len() && kept[a] == k;
        assert(places[a] == place);
        assert(images[a] == path);
    }
    assert forall|i: int, k: int|
        0 <= i < sources.len() && i < found.len() && sources[i] is Directory && 0 <= k
            < found[i]@.len() && image_path((#[trigger] found[i]@[k])@) implies images.contains(
        found[i]@[k]@,
    ) by {
        assert(offers(sources, found, (i, k), found[i]@[k]@));
    }
    assert forall|i: int|
        0 <= i < sources.len() && (#[trigger] sources[i] matches SourceConfig::File { path }
            && image_path(path@)) implies images.contains(sources[i]->File_path@) by {
        assert(offers(sources, found, (i, 0int), sources[i]->File_path@));
    }
    assert forall|a: int, start: int, dot: int|
        0 <= a < images.len() && #[trigger] dot_at(images[a], start, dot) implies image_extension(
        images[a].skip(dot + 1),
    ) by {
        assert(possible_answer(paths[kept[a]], marks[kept[a]]));
        law_images_are_told_by_their_extension(images[a], start, dot, true);
    }
    assert forall|a: int, start: int|
        0 <= a < images.len() && #[trigger] name_at(images[a], start) implies exists|i: int|
        start <= i < images[a].len() && #[trigger] images[a][i] == '.' by {
        assert(possible_answer(paths[kept[a]], marks[kept[a]]));
        law_images_are_told_by_their_extension(images[a], start, start, true);
    }
}

/// A file that was found for a directory source, recursive or not, is collected where its name,
/// behind the last separator, ends in a dot and the extension of an image.
pub proof fn law_files_found_in_directories_are_collected(
    sources: Seq<SourceConfig>,
    found: Seq<Vec<String>>,
    images: Seq<Seq<char>>,
    i: int,
    k: int,
    directory: Seq<char>,
    stem: Seq<char>,
    extension: Seq<char>,
)
    requires
        images_of(images, all_offered(sources, found, sources.len() as int)),
        0 <= i < sources.len(),
        i < found.len(),
        sources[i] is Directory,
        0 <= k < found[i]@.len(),
        found[i]@[k]@ == directory + stem + "."@ + extension,
        directory.len() > 1,
        directory.last() == '/' || directory.last() == '\\',
        directory[1] != '/' && directory[1] != '\\',
        stem.len() > 0,
        !stem.contains('/') && !stem.contains('\\'),
        ascii_lowered(extension) == "jpg"@ || ascii_lowered(extension) == "jpeg"@ || ascii_lowered(
            extension,
        ) == "png"@ || ascii_lowered(extension) == "webp"@ || ascii_lowered(extension) == "bmp"@
            || ascii_lowered(extension) == "gif"@,
    ensures
        images.contains(found[i]@[k]@),
{
    let path = found[i]@[k]@;
    let start = directory.len() as int;
    let dot = start + stem.len();
    reveal_strlit(".");
    reveal_strlit("jpg");
    reveal_strlit("jpeg");
    reveal_strlit("png");
    reveal_strlit("webp");
    reveal_strlit("bmp");
    reveal_strlit("gif");
    let lower = ascii_lowered(extension);
    assert(lower.len() == extension.len());
    assert("jpg"@.len() == 3 && "jpeg"@.len() == 4 && "png"@.len() == 3);
    assert("webp"@.len() == 4 && "bmp"@.len() == 3 && "gif"@.len() == 3);
    assert forall|a: int| 0 <= a < extension.len() implies #[trigger] extension[a] != '/'
        && extension[a] != '\\' && extension[a] != '.' by {
        assert(lower[a] == crate::text::ascii_lower(extension[a]));
        assert(a == 0 || a == 1 || a == 2 || a == 3);
    }
    assert forall|a: int| start <= a < path.len() implies #[trigger] path[a] != '/' && path[a]
        != '\\' by {
        if a < dot {
            assert(path[a] == stem[a - start]);
            assert(stem.contains(stem[a - start]));
        } else if a > dot {
            assert(path[a] == extension[a - dot - 1]);
        }
    }
    assert forall|a: int| dot < a < path.len() implies #[trigger] path[a] != '.' by {
        assert(path[a] == extension[a - dot - 1]);
    }
    assert(path[start - 1] == directory.last());
    assert(path[1] == directory[1]);
    assert(path[dot] == '.');
    assert(name_at(path, start));
    assert(dot_at(path, start, dot));
    assert(path.skip(dot + 1) =~= extension);
    assert(image_path(path));
    law_every_offered_image_is_collected(sources, found, images);
}

/// An image is named after the last component of its path.
pub proof fn law_images_are_named_after_their_files(
    path: Seq<char>,
    start: int,
    name: Option<Seq<char>>,
)
    requires
        paths::possible_name(path, name),
        name_at(path, start),
        forall|i: int| 0 <= i < path.len() ==> #[trigger] path[i] != '\\',
        path.skip(start) != seq!['.'],
        path.skip(start) != seq!['.', '.'],
    ensures
        or_empty(name) == path.skip(start),
{
    let file = path.skip(start);
    lemma_name_at(path, start);
    paths::lemma_tail_start(path, true);
    paths::lemma_tail_start(path, false);
    let from = paths::tail_start(path, false);
    if from < start {
        assert(!paths::separates(path[start - 1], false));
    } else if start < from {
        assert(path[from - 1] != '/');
    }
    lemma_keeps_its_end(path, start, true);
    lemma_keeps_its_end(path, start, false);
    assert(paths::posix_name(path) == Some(file));
    if start == 0 {
        assert(!paths::has_drive(path));
    }
    assert(paths::windows_name(path) == Some(file));
}

proof fn lemma_keeps_its_end(path: Seq<char>, start: int, windows: bool)
    requires
        name_at(path, start),
        path.skip(start) != seq!['.'],
    ensures
        paths::without_trailing(path, windows) == path,
{
    let n = path.len() as int;
    assert(path[n - 1] != '/' && path[n - 1] != '\\');
    if n > 1 && path[n - 1] == '.' && paths::separates(path[n - 2], windows) {
        if start <= n - 2 {
            assert(path[n - 2] != '/' && path[n - 2] != '\\');
        }
        assert(start == n - 1);
        assert(path.skip(start) =~= seq!['.']);
    }
}

/// A target is the path that was found, marked with where it was found.
pub proof fn law_targets_are_marked_with_their_kind(
    target: ScanTarget,
    path: Seq<char>,
    local: bool,
)
    requires
        targets_path(target, path, local),
    ensures
        target.path@ == path,
        target.local <==> local,
{
}

/// The grid is updated after every sixth image.
pub proof fn law_six_images_make_a_batch(scan: crate::wallpaper_picker::scan::Scan)
    ensures
        PROGRESS_BATCH == 6,
        scan.wf() <==> scan.batch@.len() <= 5,
{
}

/// A pixel is made of its own four bytes, in the order red, green, blue, opacity; where they are
/// not all there, it is black and transparent.
pub proof fn law_pixels_are_made_of_their_bytes(buffer: Seq<u8>, index: nat, pixel: Pixel)
    ensures
        4 * index + 3 < buffer.len() ==> (pixel == pixel_at(buffer, index as int) <==> buffer.skip(
            4 * index as int,
        ).take(4) == seq![pixel.r, pixel.g, pixel.b, pixel.a]),
        4 * index + 3 >= buffer.len() ==> pixel_at(buffer, index as int) == (Pixel {
            r: 0,
            g: 0,
            b: 0,
            a: 0,
        }),
{
    let own = buffer.skip(4 * index as int).take(4);
    let bytes = seq![pixel.r, pixel.g, pixel.b, pixel.a];
    if 4 * index + 3 < buffer.len() {
        if pixel == pixel_at(buffer, index as int) {
            assert(own =~= bytes);
        }
        if own == bytes {
            assert(own[0] == bytes[0] && own[1] == bytes[1] && own[2] == bytes[2] && own[3]
                == bytes[3]);
        }
    }
}

} // verus!
