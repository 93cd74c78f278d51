//! Putting wallpapers on the desktop.

pub mod windows;

use crate::text::decimal_text;
use vstd::prelude::*;
use vstd::string::*;

verus! {

/// Why a wallpaper could not be applied.
#[derive(Debug)]
pub enum WallpaperError {
    /// No wallpaper was given.
    NoWallpapers,
    /// There is no display with this index.
    MonitorOutOfRange { index: usize, count: usize },
    /// No display accepted its wallpaper.
    AllMonitorsFailed,
    /// This platform has no backend.
    Unsupported,
    /// The platform refused, for the reason given.
    Platform { message: String },
}

/// What an error says.
pub open spec fn error_message(error: WallpaperError) -> Seq<char> {
    match error {
        WallpaperError::NoWallpapers => "no wallpapers provided"@,
        WallpaperError::MonitorOutOfRange { index, count } => "monitor index "@
            + crate::text::decimal(index as nat) + " out of range ("@ + crate::text::decimal(
            count as nat,
        ) + " displays)"@,
        WallpaperError::AllMonitorsFailed => "all per-monitor wallpaper updates failed"@,
        WallpaperError::Unsupported => "wallpaper updates require Windows, GNOME, or KDE Plasma"@,
        WallpaperError::Platform { message } => message@,
    }
}

impl WallpaperError {
    /// What the error says.
    pub fn message(&self) -> (r: String)
        ensures
            r@ == error_message(*self),
    {
        match self {
            WallpaperError::NoWallpapers => "no wallpapers provided".to_owned(),
            WallpaperError::MonitorOutOfRange { index, count } => {
                let mut r = "monitor index ".to_owned();
                r.append(decimal_text(*index as u64).as_str());
                r.append(" out of range (");
                r.append(decimal_text(*count as u64).as_str());
                r.append(" displays)");
                r
            },
            WallpaperError::AllMonitorsFailed => {
                "all per-monitor wallpaper updates failed".to_owned()
            },
            WallpaperError::Unsupported => {
                "wallpaper updates require Windows, GNOME, or KDE Plasma".to_owned()
            },
            WallpaperError::Platform { message } => message.clone(),
        }
    }
}

/// The name of a display that has none of its own.
pub open spec fn numbered_name(index: int) -> Seq<char> {
    "显示器 "@ + crate::text::decimal((index + 1) as nat)
}

/// The names of so many displays that have none of their own.
pub open spec fn numbered_names(count: nat) -> Seq<Seq<char>> {
    Seq::new(count, |index: int| numbered_name(index))
}

/// Names a display after its position.
pub fn monitor_label(index: usize) -> (r: String)
    requires
        index < usize::MAX,
    ensures
        r@ == numbered_name(index as int),
{
    let mut r = "显示器 ".to_owned();
    r.append(decimal_text((index + 1) as u64).as_str());
    r
}

/// Names displays after their positions.
pub fn monitor_labels(count: usize) -> (r: Vec<String>)
    ensures
        crate::text::texts(r@) == numbered_names(count as nat),
{
    let mut r: Vec<String> = Vec::new();
    let mut i: usize = 0;
    while i < count
        invariant
            i <= count,
            crate::text::texts(r@) =~= numbered_names(i as nat),
        decreases count - i,
    {
        let ghost before = crate::text::texts(r@);
        r.push(monitor_label(i));
        assert(crate::text::texts(r@) =~= before.push(numbered_name(i as int)));
        i += 1;
    }
    r
}

/// Whether names are the ones that a display count stands for.
pub open spec fn names_for(
    count: Result<usize, WallpaperError>,
    r: Result<Vec<String>, WallpaperError>,
) -> bool {
    match count {
        Ok(count) => r is Ok && crate::text::texts(r->Ok_0@) == numbered_names(count as nat),
        Err(error) => r is Err && r->Err_0 == error,
    }
}

/// Names displays after their positions, whatever came of counting them.
pub fn counted_names(count: Result<usize, WallpaperError>) -> (r: Result<
    Vec<String>,
    WallpaperError,
>)
    ensures
        names_for(count, r),
{
    match count {
        Ok(count) => Ok(monitor_labels(count)),
        Err(error) => Err(error),
    }
}

/// Displays without names of their own are numbered from one, as many as there are; where they
/// could not be counted there are no names, for the same reason.
pub proof fn law_counted_displays_are_numbered(
    count: Result<usize, WallpaperError>,
    names: Result<Vec<String>, WallpaperError>,
)
    requires
        names_for(count, names),
    ensures
        count matches Err(error) ==> names == Err::<Vec<String>, WallpaperError>(error),
        count matches Ok(n) ==> names is Ok && names->Ok_0@.len() == n && forall|i: int|
            0 <= i < n ==> (#[trigger] names->Ok_0@[i])@ == "显示器 "@ + crate::text::decimal(
                (i + 1) as nat,
            ),
{
    if let Ok(n) = count {
        let list = names->Ok_0@;
        assert(crate::text::texts(list).len() == list.len());
        assert forall|i: int| 0 <= i < n implies (#[trigger] list[i])@ == "显示器 "@
            + crate::text::decimal((i + 1) as nat) by {
            assert(crate::text::texts(list)[i] == numbered_name(i));
        }
    }
}

/// A way to put wallpapers on the desktop. Paths are held as text.
pub trait WallpaperBackend: Send + Sync {
    /// Applies one wallpaper to the whole desktop.
    fn set_wallpaper(&self, path: &str) -> (r: Result<(), WallpaperError>);

    /// Number of displays the backend currently manages.
    ///
    /// Backends that cannot query the display topology default to `1`.
    fn monitor_count(&self) -> (r: Result<usize, WallpaperError>)
        default_ensures
            r matches Ok(count) && count == 1,
    {
        Ok(1)
    }

    /// Apply a distinct wallpaper to every display.
    ///
    /// `wallpapers[i]` is applied to display `i` (wrapping around when there are fewer wallpapers
    /// than displays). The default implementation only supports a single shared wallpaper and
    /// applies `wallpapers[0]` to the whole desktop; backends that can address displays
    /// individually override this.
    fn set_wallpapers(&self, wallpapers: &Vec<String>) -> (r: Result<(), WallpaperError>)
        default_ensures
            if wallpapers@.len() == 0 {
                r is Err && r->Err_0 is NoWallpapers
            } else {
                exists|path: &str|
                    path@ == wallpapers@[0]@ && #[trigger] call_ensures(
                        Self::set_wallpaper,
                        (self, path),
                        r,
                    )
            },
    {
        if wallpapers.len() == 0 {
            Err(WallpaperError::NoWallpapers)
        } else {
            self.set_wallpaper(wallpapers[0].as_str())
        }
    }

    /// Human-readable names for the managed displays (e.g. "显示器 1").
    fn monitor_names(&self) -> (r: Result<Vec<String>, WallpaperError>)
        default_ensures
            exists|count: Result<usize, WallpaperError>| #[trigger]
                call_ensures(Self::monitor_count, (self,), count) && names_for(count, r),
    {
        counted_names(self.monitor_count())
    }

    /// Apply a wallpaper to a single display by index. The default backend cannot address
    /// individual displays and falls back to the shared path.
    fn set_wallpaper_for_monitor(&self, path: &str, monitor_index: usize) -> (r: Result<
        (),
        WallpaperError,
    >)
        default_ensures
            exists|count: Result<usize, WallpaperError>| #[trigger]
                call_ensures(Self::monitor_count, (self,), count) && match count {
                    Ok(count) => if monitor_index >= count {
                        r == Err::<(), WallpaperError>(
                            WallpaperError::MonitorOutOfRange { index: monitor_index, count },
                        )
                    } else {
                        call_ensures(Self::set_wallpaper, (self, path), r)
                    },
                    Err(error) => r == Err::<(), WallpaperError>(error),
                },
    {
        match self.monitor_count() {
            Ok(count) => {
                if monitor_index >= count {
                    Err(WallpaperError::MonitorOutOfRange { index: monitor_index, count })
                } else {
                    self.set_wallpaper(path)
                }
            },
            Err(error) => Err(error),
        }
    }
}

/// The operating systems.
#[derive(Debug, Clone, Copy, PartialEq, Eq, Structural)]
pub enum Platform {
    Windows,
    Linux,
    Macos,
    Other,
}

/// The backends.
#[derive(Debug, Clone, Copy, PartialEq, Eq, Structural)]
pub enum BackendKind {
    Windows,
    Linux,
    Mac,
    Unsupported,
}

/// The backend of a platform.
pub fn default_backend(platform: Platform) -> (r: BackendKind)
    ensures
        r == match platform {
            Platform::Windows => BackendKind::Windows,
            Platform::Linux => BackendKind::Linux,
            Platform::Macos => BackendKind::Mac,
            Platform::Other => BackendKind::Unsupported,
        },
{
    match platform {
        Platform::Windows => BackendKind::Windows,
        Platform::Linux => BackendKind::Linux,
        Platform::Macos => BackendKind::Mac,
        Platform::Other => BackendKind::Unsupported,
    }
}

/// The backend of a platform without one: it refuses every wallpaper.
#[derive(Debug, Clone, Copy)]
pub struct UnsupportedWallpaperBackend;

impl WallpaperBackend for UnsupportedWallpaperBackend {
    fn set_wallpaper(&self, _path: &str) -> (r: Result<(), WallpaperError>)
        ensures
            r is Err && r->Err_0 is Unsupported,
    {
        Err(WallpaperError::Unsupported)
    }
}

} // verus!
