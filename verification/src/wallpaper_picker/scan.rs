//! Scanning for wallpapers: which files are images, and how the probed ones reach the grid.

use crate::config::SourceConfig;
use crate::text::same_text;
use crate::wallpaper_picker::grid::PickerEntry;
use crate::wallpaper_picker::paths::{self, path_extension, path_file_name};
use vstd::prelude::*;
use vstd::string::*;

verus! {

/// Whether an extension is one of an image format that is supported.
pub open spec fn supported(extension: Option<Seq<char>>) -> bool {
    match extension {
        Some(text) => {
            let lower = crate::text::ascii_lowered(text);
            ||| lower == "jpg"@ || lower == "jpeg"@ || lower == "png"@
            ||| lower == "webp"@ || lower == "bmp"@ || lower == "gif"@
        },
        None => false,
    }
}

/// Whether an extension is one of an image format that is supported.
pub fn supported_extension(extension: &Option<String>) -> (r: bool)
    ensures
        r == supported(crate::text::opt_text(*extension)),
{
    match extension {
        None => false,
        Some(text) => {
            let lower = text.as_str().to_ascii_lowercase();
            let lower = lower.as_str();
            same_text(lower, "jpg") || same_text(lower, "jpeg") || same_text(lower, "png")
                || same_text(lower, "webp") || same_text(lower, "bmp") || same_text(lower, "gif")
        },
    }
}

/// A supported extension has no backslash in it.
proof fn lemma_supported_is_plain(extension: Option<Seq<char>>)
    ensures
        supported(extension) ==> !extension->0.contains('\\'),
{
    reveal_strlit("jpg");
    reveal_strlit("jpeg");
    reveal_strlit("png");
    reveal_strlit("webp");
    reveal_strlit("bmp");
    reveal_strlit("gif");
    if supported(extension) && extension->0.contains('\\') {
        let text = extension->0;
        let at = choose|i: int| 0 <= i < text.len() && text[i] == '\\';
        let lower = crate::text::ascii_lowered(text);
        assert(lower[at] == '\\');
        assert("jpg"@.len() == 3 && "jpeg"@.len() == 4 && "png"@.len() == 3);
        assert("webp"@.len() == 4 && "bmp"@.len() == 3 && "gif"@.len() == 3);
        assert(lower.len() == text.len());
        assert(at == 0 || at == 1 || at == 2 || at == 3);
    }
}

/// Whether a file with this name is an image.
pub open spec fn image_name(name: Option<Seq<char>>) -> bool {
    supported(paths::extension_of(name))
}

/// Whether a path can count as an image, or as none: by either of its readings.
pub open spec fn possible_answer(path: Seq<char>, image: bool) -> bool {
    ||| image == image_name(paths::posix_name(path))
    ||| paths::settled_on_windows(path) ==> image == image_name(paths::windows_name(path))
}

/// Whether a path is one of an image that is supported, by its extension.
pub fn is_supported_image(path: &str) -> (r: bool)
    ensures
        possible_answer(path@, r),
        paths::plain_tail(path@) && paths::last_dot(paths::tail(path@, true)) > 0 ==> r
            == image_name(Some(paths::tail(path@, true))),
        paths::plain_tail(path@) && paths::last_dot(paths::tail(path@, true)) < 0 ==> !r,
{
    let extension = path_extension(path);
    proof {
        if paths::plain_tail(path@) {
            paths::lemma_readings(path@);
            lemma_supported_is_plain(paths::extension_of(paths::posix_name(path@)));
        }
    }
    supported_extension(&extension)
}

/// Whether both readings of a path agree on whether it is an image.
pub open spec fn agreed(path: Seq<char>) -> bool {
    &&& paths::settled_on_windows(path)
    &&& image_name(paths::posix_name(path)) == image_name(paths::windows_name(path))
}

/// A path whose last component is a plain name with or without an extension is an image on every
/// system or on none. Only a name that starts with its last dot is read differently.
pub proof fn law_plain_names_are_agreed(path: Seq<char>)
    requires
        paths::plain_tail(path),
        paths::last_dot(paths::tail(path, true)) != 0,
    ensures
        agreed(path),
        forall|image: bool| #[trigger]
            possible_answer(path, image) ==> image == image_name(Some(paths::tail(path, true))),
{
    paths::lemma_readings(path);
    lemma_supported_is_plain(paths::extension_of(paths::posix_name(path)));
    paths::lemma_last_dot(paths::tail(path, true));
}

/// The files that a source offers: the file of a file source, what was found in the directory of a
/// directory source, and nothing for a remote source.
pub open spec fn offered(source: SourceConfig, found: Seq<String>) -> Seq<Seq<char>> {
    match source {
        SourceConfig::File { path } => seq![path@],
        SourceConfig::Directory { .. } => crate::text::texts(found),
        _ => Seq::empty(),
    }
}

/// What was found for a source; there may be fewer findings than sources.
pub open spec fn found_at(found: Seq<Vec<String>>, index: int) -> Seq<String> {
    if index < found.len() {
        found[index]@
    } else {
        Seq::empty()
    }
}

/// The files that the first `n` sources offer, source by source.
pub open spec fn all_offered(sources: Seq<SourceConfig>, found: Seq<Vec<String>>, n: int) -> Seq<
    Seq<char>,
>
    decreases n,
{
    if n <= 0 {
        Seq::empty()
    } else {
        all_offered(sources, found, n - 1) + offered(sources[n - 1], found_at(found, n - 1))
    }
}

/// Those of the first `n` paths that are marked.
pub open spec fn marked_paths(paths: Seq<Seq<char>>, marks: Seq<bool>, n: int) -> Seq<Seq<char>>
    decreases n,
{
    if n <= 0 {
        Seq::empty()
    } else if marks[n - 1] {
        marked_paths(paths, marks, n - 1).push(paths[n - 1])
    } else {
        marked_paths(paths, marks, n - 1)
    }
}

/// Whether each path can count as its mark says.
pub open spec fn possible_marks(paths: Seq<Seq<char>>, marks: Seq<bool>) -> bool {
    &&& marks.len() == paths.len()
    &&& forall|i: int| 0 <= i < paths.len() ==> possible_answer(#[trigger] paths[i], marks[i])
}

/// Whether `images` are the supported ones among `paths`, in their order.
pub open spec fn images_of(images: Seq<Seq<char>>, paths: Seq<Seq<char>>) -> bool {
    exists|marks: Seq<bool>| #[trigger]
        possible_marks(paths, marks) && images == marked_paths(paths, marks, paths.len() as int)
}

/// Where all readings agree, the collected images are exactly the paths with a supported extension.
pub proof fn law_agreed_images_are_collected(images: Seq<Seq<char>>, paths: Seq<Seq<char>>)
    requires
        images_of(images, paths),
        forall|i: int| 0 <= i < paths.len() ==> agreed(#[trigger] paths[i]),
    ensures
        images == paths.filter(|path: Seq<char>| image_name(paths::posix_name(path))),
{
    let marks = choose|marks: Seq<bool>| #[trigger]
        possible_marks(paths, marks) && images == marked_paths(paths, marks, paths.len() as int);
    lemma_agreed_marks(paths, marks, paths.len() as int);
    assert(paths.take(paths.len() as int) =~= paths);
}

proof fn lemma_agreed_marks(paths: Seq<Seq<char>>, marks: Seq<bool>, n: int)
    requires
        possible_marks(paths, marks),
        0 <= n <= paths.len(),
        forall|i: int| 0 <= i < paths.len() ==> agreed(#[trigger] paths[i]),
    ensures
        marked_paths(paths, marks, n) == paths.take(n).filter(
            |path: Seq<char>| image_name(paths::posix_name(path)),
        ),
    decreases n,
{
    reveal(Seq::filter);
    let first = paths.take(n);
    if n > 0 {
        lemma_agreed_marks(paths, marks, n - 1);
        assert(first.drop_last() =~= paths.take(n - 1));
        assert(agreed(paths[n - 1]));
        assert(possible_answer(paths[n - 1], marks[n - 1]));
    }
}

/// How deep the walk through a directory goes: one level unless the source is recursive.
pub fn walk_depth(recursive: bool) -> (r: Option<usize>)
    ensures
        r == if recursive {
            None::<usize>
        } else {
            Some(1usize)
        },
{
    if recursive {
        None
    } else {
        Some(1)
    }
}

/// Adds a path to the images if it is one.
fn collect_image(
    images: &mut Vec<String>,
    path: &String,
    Ghost(paths): Ghost<Seq<Seq<char>>>,
)
    requires
        images_of(crate::text::texts(old(images)@), paths),
    ensures
        images_of(crate::text::texts(final(images)@), paths.push(path@)),
{
    let ghost before = crate::text::texts(images@);
    let ghost marks = choose|marks: Seq<bool>| #[trigger]
        possible_marks(paths, marks) && before == marked_paths(paths, marks, paths.len() as int);
    let image = is_supported_image(path.as_str());
    proof {
        let more = marks.push(image);
        let longer = paths.push(path@);
        assert forall|i: int| 0 <= i < longer.len() implies possible_answer(
            #[trigger] longer[i],
            more[i],
        ) by {
            if i < paths.len() {
                assert(possible_answer(paths[i], marks[i]));
            }
        }
        assert(possible_marks(longer, more));
        lemma_marked_prefix(paths, marks, longer, more, paths.len() as int);
    }
    if image {
        images.push(path.clone());
        assert(crate::text::texts(images@) =~= before.push(path@));
    }
}

proof fn lemma_marked_prefix(
    paths: Seq<Seq<char>>,
    marks: Seq<bool>,
    longer: Seq<Seq<char>>,
    more: Seq<bool>,
    n: int,
)
    requires
        0 <= n <= paths.len(),
        paths.len() == marks.len(),
        longer.len() == more.len(),
        longer.len() >= paths.len(),
        forall|i: int| 0 <= i < n ==> #[trigger] longer[i] == paths[i],
        forall|i: int| 0 <= i < n ==> #[trigger] more[i] == marks[i],
    ensures
        marked_paths(longer, more, n) == marked_paths(paths, marks, n),
    decreases n,
{
    if n > 0 {
        lemma_marked_prefix(paths, marks, longer, more, n - 1);
        assert(longer[n - 1] == paths[n - 1]);
        assert(more[n - 1] == marks[n - 1]);
    }
}

/// Collect image files from local `File`/`Directory` sources. `found` holds for each source the
/// files that were found in its directory.
pub fn collect_local_images(sources: &Vec<SourceConfig>, found: &Vec<Vec<String>>) -> (r: Vec<
    String,
>)
    ensures
        images_of(
            crate::text::texts(r@),
            all_offered(sources@, found@, sources@.len() as int),
        ),
{
    let mut images: Vec<String> = Vec::new();
    let mut i: usize = 0;
    proof {
        let none = Seq::<bool>::empty();
        let paths = all_offered(sources@, found@, 0);
        assert(possible_marks(paths, none));
        assert(crate::text::texts(images@) =~= marked_paths(paths, none, 0));
    }
    while i < sources.len()
        invariant
            i <= sources@.len(),
            images_of(crate::text::texts(images@), all_offered(sources@, found@, i as int)),
        decreases sources@.len() - i,
    {
        let ghost paths = all_offered(sources@, found@, i as int);
        match &sources[i] {
            SourceConfig::File { path } => {
                collect_image(&mut images, path, Ghost(paths));
                assert(paths.push(path@) =~= paths + seq![path@]);
            },
            SourceConfig::Directory { .. } => {
                if i < found.len() {
                    let files = &found[i];
                    let ghost names = crate::text::texts(files@);
                    let mut k: usize = 0;
                    assert(paths + names.take(0) =~= paths);
                    while k < files.len()
                        invariant
                            k <= files@.len(),
                            names == crate::text::texts(files@),
                            images_of(
                                crate::text::texts(images@),
                                paths + names.take(k as int),
                            ),
                        decreases files@.len() - k,
                    {
                        collect_image(&mut images, &files[k], Ghost(paths + names.take(k as int)));
                        proof {
                            assert(names[k as int] == files@[k as int]@);
                            assert((paths + names.take(k as int)).push(names[k as int]) =~= paths
                                + names.take(k + 1));
                        }
                        k += 1;
                    }
                    assert(names.take(k as int) =~= names);
                } else {
                    assert(crate::text::texts(Seq::<String>::empty()) =~= Seq::<
                        Seq<char>,
                    >::empty());
                    assert(paths + Seq::<Seq<char>>::empty() =~= paths);
                }
            },
            _ => {
                assert(paths + Seq::<Seq<char>>::empty() =~= paths);
            },
        }
        i += 1;
    }
    images
}

/// An image to probe, and whether it is a local one.
#[derive(Debug)]
pub struct ScanTarget {
    pub path: String,
    pub local: bool,
}

/// Whether a target is a path of the given kind.
pub open spec fn targets_path(target: ScanTarget, path: Seq<char>, local: bool) -> bool {
    target.path@ == path && target.local == local
}

/// The images to probe: local ones first so the user's own wallpapers fill the grid immediately,
/// with remote cache images streaming in afterwards.
pub fn scan_targets(local: &Vec<String>, remote: &Vec<String>) -> (r: Vec<ScanTarget>)
    ensures
        r@.len() == local@.len() + remote@.len(),
        forall|i: int|
            0 <= i < local@.len() ==> targets_path(#[trigger] r@[i], local@[i]@, true),
        forall|i: int|
            0 <= i < remote@.len() ==> targets_path(
                #[trigger] r@[local@.len() + i],
                remote@[i]@,
                false,
            ),
{
    let mut r: Vec<ScanTarget> = Vec::new();
    let mut i: usize = 0;
    while i < local.len()
        invariant
            i <= local@.len(),
            r@.len() == i,
            forall|k: int| 0 <= k < i ==> targets_path(#[trigger] r@[k], local@[k]@, true),
        decreases local@.len() - i,
    {
        r.push(ScanTarget { path: local[i].clone(), local: true });
        i += 1;
    }
    let mut j: usize = 0;
    while j < remote.len()
        invariant
            j <= remote@.len(),
            r@.len() == local@.len() + j,
            forall|k: int|
                0 <= k < local@.len() ==> targets_path(#[trigger] r@[k], local@[k]@, true),
            forall|k: int|
                0 <= k < j ==> targets_path(
                    #[trigger] r@[local@.len() + k],
                    remote@[k]@,
                    false,
                ),
        decreases remote@.len() - j,
    {
        let ghost before = r@;
        r.push(ScanTarget { path: remote[j].clone(), local: false });
        proof {
            assert forall|k: int| 0 <= k < j + 1 implies targets_path(
                #[trigger] r@[local@.len() + k],
                remote@[k]@,
                false,
            ) by {
                if k < j {
                    assert(r@[local@.len() + k] == before[local@.len() + k]);
                }
            }
        }
        j += 1;
    }
    r
}

/// What probing an image found out about it. The time of the last change is there where it is
/// known.
#[derive(Debug)]
pub struct Probe {
    pub path: String,
    pub thumb_path: String,
    pub local: bool,
    pub width: u32,
    pub height: u32,
    pub bytes: u64,
    pub modified: Option<u64>,
}

/// The text of a name that may be absent.
pub open spec fn or_empty(name: Option<Seq<char>>) -> Seq<char> {
    match name {
        Some(text) => text,
        None => Seq::empty(),
    }
}

/// The entry of a probed image. It is named after the last component of its path.
pub fn probe_entry(probe: Probe) -> (r: PickerEntry)
    ensures
        r.path == probe.path,
        exists|name: Option<Seq<char>>| #[trigger]
            paths::possible_name(probe.path@, name) && r.name@ == or_empty(name),
        r.thumb_path == probe.thumb_path,
        r.local == probe.local,
        r.width == probe.width,
        r.height == probe.height,
        r.bytes == probe.bytes,
        r.modified == match probe.modified {
            Some(secs) => secs,
            None => 0u64,
        },
{
    let name = path_file_name(probe.path.as_str());
    let ghost named = crate::text::opt_text(name);
    assert(paths::possible_name(probe.path@, named));
    PickerEntry {
        path: probe.path,
        name: match name {
            Some(name) => name,
            None => String::new(),
        },
        thumb_path: probe.thumb_path,
        local: probe.local,
        width: probe.width,
        height: probe.height,
        bytes: probe.bytes,
        modified: match probe.modified {
            Some(secs) => secs,
            None => 0,
        },
    }
}

/// A grid update is pushed after this many newly probed images.
pub const PROGRESS_BATCH: usize = 6;

/// Entries on their way to the grid: `reset` empties the grid first, `done` ends the scan.
#[derive(Debug)]
pub struct Batch {
    pub entries: Vec<PickerEntry>,
    pub reset: bool,
    pub done: bool,
}

/// A scan in progress: the entries not pushed yet, whether none was pushed, and how many there
/// were in all.
#[derive(Debug)]
pub struct Scan {
    pub batch: Vec<PickerEntry>,
    pub reset: bool,
    pub total: usize,
}

impl Scan {
    /// The scan before its first image.
    pub fn start() -> (r: Self)
        ensures
            r.batch@.len() == 0,
            r.reset,
            r.total == 0,
            r.wf(),
    {
        Scan { batch: Vec::new(), reset: true, total: 0 }
    }

    /// Whether no batch is overdue.
    pub open spec fn wf(&self) -> bool {
        self.batch@.len() < PROGRESS_BATCH
    }

    /// Adds a probed image; gives a batch to push when enough of them are together.
    pub fn add(&mut self, entry: PickerEntry) -> (r: Option<Batch>)
        requires
            old(self).wf(),
            old(self).total < usize::MAX,
        ensures
            final(self).wf(),
            final(self).total == old(self).total + 1,
            match r {
                Some(batch) => {
                    &&& old(self).batch@.len() + 1 == PROGRESS_BATCH
                    &&& batch.entries@ == old(self).batch@.push(entry)
                    &&& batch.reset == old(self).reset
                    &&& !batch.done
                    &&& final(self).batch@.len() == 0
                    &&& !final(self).reset
                },
                None => {
                    &&& old(self).batch@.len() + 1 < PROGRESS_BATCH
                    &&& final(self).batch@ == old(self).batch@.push(entry)
                    &&& final(self).reset == old(self).reset
                },
            },
    {
        self.batch.push(entry);
        self.total = self.total + 1;
        if self.batch.len() >= PROGRESS_BATCH {
            let mut entries: Vec<PickerEntry> = Vec::new();
            entries.append(&mut self.batch);
            let reset = self.reset;
            self.reset = false;
            assert(entries@ =~= old(self).batch@.push(entry));
            Some(Batch { entries, reset, done: false })
        } else {
            None
        }
    }

    /// The last batch.
    pub fn finish(self) -> (r: Batch)
        ensures
            r.entries == self.batch,
            r.reset == self.reset,
            r.done,
    {
        Batch { entries: self.batch, reset: self.reset, done: true }
    }
}

/// Whether the grid and the pending batch of a scan together hold all entries of the scan so far.
/// Before the first push the grid holds what was there before.
pub open spec fn accounts_for(scan: Scan, grid: Seq<PickerEntry>, all: Seq<PickerEntry>) -> bool {
    if scan.reset {
        scan.batch@ == all
    } else {
        grid + scan.batch@ == all
    }
}

/// Adding an image keeps all entries of a scan accounted for, with a batch that became due merged
/// into the grid.
pub proof fn law_scan_loses_no_image(
    before: Scan,
    entry: PickerEntry,
    pushed: Option<Batch>,
    after: Scan,
    grid: Seq<PickerEntry>,
    all: Seq<PickerEntry>,
)
    requires
        accounts_for(before, grid, all),
        match pushed {
            Some(batch) => {
                &&& batch.entries@ == before.batch@.push(entry)
                &&& batch.reset == before.reset
                &&& after.batch@.len() == 0
                &&& !after.reset
            },
            None => after.batch@ == before.batch@.push(entry) && after.reset == before.reset,
        },
    ensures
        accounts_for(
            after,
            match pushed {
                Some(batch) => crate::wallpaper_picker::state::merged(
                    grid,
                    batch.entries@,
                    batch.reset,
                ),
                None => grid,
            },
            all.push(entry),
        ),
{
    assert((grid + before.batch@).push(entry) =~= grid + before.batch@.push(entry));
    if let Some(batch) = pushed {
        let now = crate::wallpaper_picker::state::merged(grid, batch.entries@, batch.reset);
        assert(now + after.batch@ =~= now);
    }
}

/// The last batch completes the grid: it then holds exactly the entries of the scan, in the order
/// in which they were probed.
pub proof fn law_finished_scan_fills_the_grid(
    scan: Scan,
    grid: Seq<PickerEntry>,
    all: Seq<PickerEntry>,
)
    requires
        accounts_for(scan, grid, all),
    ensures
        crate::wallpaper_picker::state::merged(grid, scan.batch@, scan.reset) == all,
{
}

/// The BLAKE3 digest of the UTF-8 bytes of a text, in hexadecimal.
pub uninterp spec fn blake3_hex(text: Seq<char>) -> Seq<char>;

pub open spec fn hex_digit(c: char) -> bool {
    '0' <= c <= '9' || 'a' <= c <= 'f'
}

/// `blake3::hash` with `Hash::to_hex` depends on the bytes alone; the digest is called
/// `blake3_hex`. It has 64 digits in lower case.
#[verifier::external_body]
fn digest(text: &str) -> (r: String)
    ensures
        r@ == blake3_hex(text@),
        r@.len() == 64,
        forall|i: int| 0 <= i < 64 ==> hex_digit(#[trigger] r@[i]),
{
    blake3::hash(text.as_bytes()).to_hex().to_string()
}

/// The name of the thumbnail file of an image.
pub fn thumbnail_name(path: &str) -> (r: String)
    ensures
        r@ == blake3_hex(path@) + ".png"@,
        r@.len() == 68,
        forall|i: int| 0 <= i < 64 ==> hex_digit(#[trigger] r@[i]),
{
    let mut r = digest(path);
    proof {
        reveal_strlit(".png");
    }
    r.append(".png");
    r
}

/// A pixel: red, green, blue, and how opaque it is.
#[derive(Debug, Clone, Copy, PartialEq, Eq, Structural)]
pub struct Pixel {
    pub r: u8,
    pub g: u8,
    pub b: u8,
    pub a: u8,
}

/// The pixel at a position of a buffer with four bytes per pixel; behind the last whole pixel
/// everything is transparent black.
pub open spec fn pixel_at(buffer: Seq<u8>, index: int) -> Pixel {
    if 4 * index + 4 <= buffer.len() {
        Pixel {
            r: buffer[4 * index],
            g: buffer[4 * index + 1],
            b: buffer[4 * index + 2],
            a: buffer[4 * index + 3],
        }
    } else {
        Pixel { r: 0, g: 0, b: 0, a: 0 }
    }
}

/// The pixels of a thumbnail.
pub fn thumbnail_pixels(width: u32, height: u32, buffer: &Vec<u8>) -> (r: Vec<Pixel>)
    requires
        width * height <= usize::MAX,
    ensures
        r@.len() == width * height,
        forall|i: int| 0 <= i < r@.len() ==> #[trigger] r@[i] == pixel_at(buffer@, i),
{
    assert(0 <= width * height <= 0xFFFF_FFFF * 0xFFFF_FFFF) by (nonlinear_arith)
        requires
            0 <= width <= 0xFFFF_FFFF,
            0 <= height <= 0xFFFF_FFFF,
    ;
    let count: usize = (width as u64 * height as u64) as usize;
    let whole: usize = buffer.len() / 4;
    let mut r: Vec<Pixel> = Vec::new();
    let mut i: usize = 0;
    while i < count
        invariant
            i <= count,
            whole == buffer.len() / 4,
            r@.len() == i,
            forall|k: int| 0 <= k < i ==> #[trigger] r@[k] == pixel_at(buffer@, k),
        decreases count - i,
    {
        if i < whole {
            r.push(
                Pixel {
                    r: buffer[4 * i],
                    g: buffer[4 * i + 1],
                    b: buffer[4 * i + 2],
                    a: buffer[4 * i + 3],
                },
            );
        } else {
            r.push(Pixel { r: 0, g: 0, b: 0, a: 0 });
        }
        i += 1;
    }
    r
}

} // verus!
