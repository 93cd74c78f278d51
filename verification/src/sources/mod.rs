//! Wallpaper candidates and the sources they come from.

pub mod wallhaven;

use vstd::prelude::*;

verus! {

/// How a candidate came into the pool.
#[derive(Debug, Clone, Copy, PartialEq, Eq, Structural)]
pub enum Origin {
    File,
    Directory,
    Rss,
}

/// The kinds of sources.
#[derive(Debug, Clone, Copy, PartialEq, Eq, Structural)]
pub enum SourceKind {
    File,
    Directory,
    Rss,
    Wallhaven,
}

/// Where the image of a candidate is found. Paths are held as text.
#[derive(Debug)]
pub enum Location {
    Local { path: String },
    Remote { url: String, download_dir: String },
}

/// One wallpaper that the rotation can show. The time of its last change is in seconds.
#[derive(Debug)]
pub struct ImageCandidate {
    pub id: String,
    pub origin: Origin,
    pub location: Location,
    pub modified: Option<u64>,
}

impl Clone for Location {
    fn clone(&self) -> (r: Location)
        ensures
            r == *self,
    {
        match self {
            Location::Local { path } => Location::Local { path: path.clone() },
            Location::Remote { url, download_dir } => Location::Remote {
                url: url.clone(),
                download_dir: download_dir.clone(),
            },
        }
    }
}

impl Clone for ImageCandidate {
    fn clone(&self) -> (r: ImageCandidate)
        ensures
            r == *self,
    {
        ImageCandidate {
            id: self.id.clone(),
            origin: self.origin,
            location: self.location.clone(),
            modified: self.modified,
        }
    }
}

impl ImageCandidate {
    pub open spec fn local_file(self) -> bool {
        self.location is Local
    }

    /// A candidate that is a file on this machine.
    pub fn local(id: String, origin: Origin, path: String, modified: Option<u64>) -> (r: Self)
        ensures
            r == (ImageCandidate { id, origin, location: Location::Local { path }, modified }),
    {
        ImageCandidate { id, origin, location: Location::Local { path }, modified }
    }

    /// A candidate that is downloaded into `download_dir` when it is needed.
    pub fn rss(id: String, url: String, download_dir: String, modified: Option<u64>) -> (r: Self)
        ensures
            r == (ImageCandidate {
                id,
                origin: Origin::Rss,
                location: Location::Remote { url, download_dir },
                modified,
            }),
    {
        ImageCandidate {
            id,
            origin: Origin::Rss,
            location: Location::Remote { url, download_dir },
            modified,
        }
    }

    /// Whether the candidate is a file on this machine.
    pub fn is_local(&self) -> (r: bool)
        ensures
            r == self.local_file(),
    {
        matches!(self.location, Location::Local { .. })
    }
}

} // verus!
