//! The catalog's sole persisted entity: a `Track` records one media file's
//! path, its four free-text tag fields, the `(mtime, size)` staleness
//! witness, and its media type.

use vstd::prelude::*;

verus! {

/// Classification of a cataloged file.
#[derive(Clone, Copy, Debug, PartialEq, Eq, Structural)]
pub enum MediaType {
    Audio,
    Video,
    Playlist,
}

/// One cataloged media file or playlist.
#[derive(Debug)]
pub struct Track {
    /// Absolute filesystem path; the unique key within an index snapshot.
    pub path: String,
    pub title: String,
    pub artist: String,
    pub album: String,
    pub genre: String,
    /// Last-modified time in seconds since the epoch, at indexing time.
    pub mtime: u64,
    /// File size in bytes, at indexing time.
    pub size: u64,
    pub media_type: MediaType,
}

/// The mathematical value of a `Track`: its strings as character sequences.
pub ghost struct TrackView {
    pub path: Seq<char>,
    pub title: Seq<char>,
    pub artist: Seq<char>,
    pub album: Seq<char>,
    pub genre: Seq<char>,
    pub mtime: u64,
    pub size: u64,
    pub media_type: MediaType,
}

impl View for Track {
    type V = TrackView;

    open spec fn view(&self) -> TrackView {
        TrackView {
            path: self.path@,
            title: self.title@,
            artist: self.artist@,
            album: self.album@,
            genre: self.genre@,
            mtime: self.mtime,
            size: self.size,
            media_type: self.media_type,
        }
    }
}

impl Track {
    /// A field-for-field copy.
    pub fn duplicate(&self) -> (r: Track)
        ensures
            r@ == self@,
    {
        Track {
            path: self.path.clone(),
            title: self.title.clone(),
            artist: self.artist.clone(),
            album: self.album.clone(),
            genre: self.genre.clone(),
            mtime: self.mtime,
            size: self.size,
            media_type: self.media_type,
        }
    }
}

impl PartialEq for Track {
    fn eq(&self, other: &Track) -> (r: bool)
        ensures
            r == (self@ == other@),
    {
        let r = self.path == other.path && self.title == other.title && self.artist
            == other.artist && self.album == other.album && self.genre == other.genre && self.mtime
            == other.mtime && self.size == other.size && self.media_type == other.media_type;
        proof {
            if r {
                assert(self@ == other@);
            }
        }
        r
    }
}

impl vstd::std_specs::cmp::PartialEqSpecImpl for Track {
    open spec fn obeys_eq_spec() -> bool {
        true
    }

    open spec fn eq_spec(&self, other: &Track) -> bool {
        self@ == other@
    }
}

impl Eq for Track {

}

} // verus!
