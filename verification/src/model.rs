//! The data model: albums, play sessions, history rows and errors.
//!
//! Each executable type has a ghost view whose text fields are character
//! sequences; every contract in the crate speaks of those views.

use vstd::prelude::*;

use crate::duration::duration_label_spec;

verus! {

/// A catalog entry.
pub struct Album {
    /// Surrogate identity, assigned on creation, unique.
    pub id: i64,
    pub title: String,
    pub artist: String,
    /// Cover reference; `"default-cover.jpg"` when none was supplied.
    pub cover_url: String,
    /// Optional barcode, unique among albums that have one.
    pub barcode: Option<String>,
    /// Creation timestamp, set once and never mutated.
    pub created_at: String,
}

/// The input of an album creation.
pub struct NewAlbum {
    pub title: String,
    pub artist: String,
    /// Cover reference; the default is applied when absent.
    pub cover_url: Option<String>,
    /// Optional barcode; must not collide with an existing one.
    pub barcode: Option<String>,
}

/// A playback session against a catalog entry.  An absent `finished_at`
/// means the session is open (currently playing).
pub struct PlaySession {
    pub id: i64,
    pub album_id: i64,
    pub started_at: String,
    pub finished_at: Option<String>,
}

/// A row of a history listing: the session joined with its album's fields,
/// plus the duration label computed at read time.
pub struct HistoryItem {
    pub session_id: i64,
    pub album_id: i64,
    pub title: String,
    pub artist: String,
    pub cover_url: String,
    pub started_at: String,
    pub finished_at: Option<String>,
    pub duration: String,
}

/// The error taxonomy of the store.  Transport failures belong to the
/// plumbing around the store, which has no verified state, so they have no
/// variant here.
#[derive(Clone, Copy, Debug, PartialEq, Eq, Structural)]
pub enum TrackerError {
    /// The referenced album is absent.
    NotFound,
    /// A unique-barcode collision.
    ConstraintViolation,
    /// A session start was requested while one is already open.
    ConflictAlreadyPlaying,
    /// A session finish was requested with nothing open.
    NoOpenSession,
    /// A caller-supplied timestamp does not parse; rejected at the boundary.
    MalformedTimestamp,
}

/// The ghost view of an `Album`.
#[verifier::ext_equal]
pub ghost struct AlbumV {
    pub id: i64,
    pub title: Seq<char>,
    pub artist: Seq<char>,
    pub cover_url: Seq<char>,
    pub barcode: Option<Seq<char>>,
    pub created_at: Seq<char>,
}

/// The ghost view of a `PlaySession`.
#[verifier::ext_equal]
pub ghost struct PlaySessionV {
    pub id: i64,
    pub album_id: i64,
    pub started_at: Seq<char>,
    pub finished_at: Option<Seq<char>>,
}

/// The ghost view of a `HistoryItem`.
#[verifier::ext_equal]
pub ghost struct HistoryItemV {
    pub session_id: i64,
    pub album_id: i64,
    pub title: Seq<char>,
    pub artist: Seq<char>,
    pub cover_url: Seq<char>,
    pub started_at: Seq<char>,
    pub finished_at: Option<Seq<char>>,
    pub duration: Seq<char>,
}

/// The view of an optional owned string.
pub open spec fn opt_view(o: Option<String>) -> Option<Seq<char>> {
    match o {
        Some(s) => Some(s@),
        None => None,
    }
}

impl View for Album {
    type V = AlbumV;

    open spec fn view(&self) -> AlbumV {
        AlbumV {
            id: self.id,
            title: self.title@,
            artist: self.artist@,
            cover_url: self.cover_url@,
            barcode: opt_view(self.barcode),
            created_at: self.created_at@,
        }
    }
}

impl View for PlaySession {
    type V = PlaySessionV;

    open spec fn view(&self) -> PlaySessionV {
        PlaySessionV {
            id: self.id,
            album_id: self.album_id,
            started_at: self.started_at@,
            finished_at: opt_view(self.finished_at),
        }
    }
}

impl View for HistoryItem {
    type V = HistoryItemV;

    open spec fn view(&self) -> HistoryItemV {
        HistoryItemV {
            session_id: self.session_id,
            album_id: self.album_id,
            title: self.title@,
            artist: self.artist@,
            cover_url: self.cover_url@,
            started_at: self.started_at@,
            finished_at: opt_view(self.finished_at),
            duration: self.duration@,
        }
    }
}

/// The cover reference an album gets when none is supplied.
pub open spec fn default_cover() -> Seq<char> {
    "default-cover.jpg"@
}

/// Whether some album in the sequence carries the given id.
pub open spec fn has_album_id(albums: Seq<AlbumV>, id: i64) -> bool {
    exists|i: int| 0 <= i < albums.len() && (#[trigger] albums[i]).id == id
}

/// Whether some album in the sequence carries the given barcode.
pub open spec fn barcode_taken(albums: Seq<AlbumV>, code: Seq<char>) -> bool {
    exists|i: int| 0 <= i < albums.len() && (#[trigger] albums[i]).barcode == Some(code)
}

/// Whether the session is open and belongs to the given album.
pub open spec fn open_for(s: PlaySessionV, album_id: i64) -> bool {
    s.album_id == album_id && s.finished_at is None
}

/// Whether the album has an open session in the sequence.
pub open spec fn has_open_session(sessions: Seq<PlaySessionV>, album_id: i64) -> bool {
    exists|i: int| 0 <= i < sessions.len() && open_for(#[trigger] sessions[i], album_id)
}

/// The first album of the sequence with the given id, if any.
pub open spec fn find_album_v(albums: Seq<AlbumV>, id: i64) -> Option<AlbumV>
    decreases albums.len(),
{
    if albums.len() == 0 {
        None
    } else if albums[0].id == id {
        Some(albums[0])
    } else {
        find_album_v(albums.drop_first(), id)
    }
}

/// `find_album_v` returns the album at the first index that matches.
pub proof fn lemma_find_album_v_at(albums: Seq<AlbumV>, id: i64, i: int)
    requires
        0 <= i < albums.len(),
        albums[i].id == id,
        forall|j: int| 0 <= j < i ==> (#[trigger] albums[j]).id != id,
    ensures
        find_album_v(albums, id) == Some(albums[i]),
    decreases albums.len(),
{
    if i > 0 {
        assert(albums[0].id != id);
        assert forall|j: int| 0 <= j < i - 1 implies (#[trigger] albums.drop_first()[j]).id
            != id by {
            assert(albums.drop_first()[j] == albums[j + 1]);
        }
        assert(albums.drop_first()[i - 1] == albums[i]);
        lemma_find_album_v_at(albums.drop_first(), id, i - 1);
    }
}

/// A copy of an optional string that is known to equal the original.
pub(crate) fn clone_opt_string(o: &Option<String>) -> (r: Option<String>)
    ensures
        r == *o,
{
    match o {
        Some(x) => Some(x.clone()),
        None => None,
    }
}

impl HistoryItem {
    /// A field-by-field copy that is known to equal the original.
    pub fn duplicate(&self) -> (r: HistoryItem)
        ensures
            r == *self,
    {
        HistoryItem {
            session_id: self.session_id,
            album_id: self.album_id,
            title: self.title.clone(),
            artist: self.artist.clone(),
            cover_url: self.cover_url.clone(),
            started_at: self.started_at.clone(),
            finished_at: clone_opt_string(&self.finished_at),
            duration: self.duration.clone(),
        }
    }
}

/// The history row derived from a session and the catalog it joins against.
pub open spec fn history_item_v(albums: Seq<AlbumV>, s: PlaySessionV) -> HistoryItemV {
    let a = match find_album_v(albums, s.album_id) {
        Some(a) => a,
        None => AlbumV {
            id: s.album_id,
            title: Seq::empty(),
            artist: Seq::empty(),
            cover_url: Seq::empty(),
            barcode: None,
            created_at: Seq::empty(),
        },
    };
    HistoryItemV {
        session_id: s.id,
        album_id: s.album_id,
        title: a.title,
        artist: a.artist,
        cover_url: a.cover_url,
        started_at: s.started_at,
        finished_at: s.finished_at,
        duration: duration_label_spec(s.started_at, s.finished_at),
    }
}

} // verus!
