//! The store: the album catalog and the play-session log, with the
//! open/finished state machine enforced centrally.
//!
//! Every operation reads the current state, decides, and writes in one
//! step; each public method carries a postcondition predicate over the
//! ghost view [`StoreV`] that pins the outcome for every input.

use vstd::prelude::*;
use vstd::string::StringExecFns;

use crate::duration::duration_label;
use crate::history::sorted_pair_order;
use crate::model::Album;
use crate::model::AlbumV;
use crate::model::HistoryItem;
use crate::model::HistoryItemV;
use crate::model::NewAlbum;
use crate::model::PlaySession;
use crate::model::PlaySessionV;
use crate::model::TrackerError;
use crate::model::barcode_taken;
use crate::model::clone_opt_string;
use crate::model::default_cover;
use crate::model::find_album_v;
use crate::model::has_album_id;
use crate::model::has_open_session;
use crate::model::history_item_v;
use crate::model::lemma_find_album_v_at;
use crate::model::open_for;
use crate::model::opt_view;
use crate::time::epoch_seconds_of;
use crate::time::now_rfc3339;
use crate::time::parse_timestamp;
use crate::time::timestamp_key;
use crate::time::ts_key;

verus! {

/// The ghost view of a [`Store`].
#[verifier::ext_equal]
pub ghost struct StoreV {
    pub albums: Seq<AlbumV>,
    pub sessions: Seq<PlaySessionV>,
    pub next_album_id: i64,
    pub next_session_id: i64,
}

impl StoreV {
    /// Well-formedness: ids are positive, below their counter and unique;
    /// titles and artists are non-empty; non-null barcodes are unique;
    /// every session references an existing album; and each album has at
    /// most one open session.
    pub open spec fn wf(self) -> bool {
        &&& 1 <= self.next_album_id
        &&& 1 <= self.next_session_id
        &&& forall|i: int|
            0 <= i < self.albums.len() ==> 1 <= (#[trigger] self.albums[i]).id
                < self.next_album_id
        &&& forall|i: int|
            0 <= i < self.albums.len() ==> (#[trigger] self.albums[i]).title.len() > 0
                && self.albums[i].artist.len() > 0
        &&& forall|i: int, j: int|
            0 <= i < j < self.albums.len() ==> (#[trigger] self.albums[i]).id
                != (#[trigger] self.albums[j]).id
        &&& forall|i: int, j: int|
            0 <= i < j < self.albums.len() && (#[trigger] self.albums[i]).barcode is Some ==> (
            #[trigger] self.albums[j]).barcode != self.albums[i].barcode
        &&& forall|i: int|
            0 <= i < self.sessions.len() ==> 1 <= (#[trigger] self.sessions[i]).id
                < self.next_session_id
        &&& forall|i: int, j: int|
            0 <= i < j < self.sessions.len() ==> (#[trigger] self.sessions[i]).id
                != (#[trigger] self.sessions[j]).id
        &&& forall|i: int|
            0 <= i < self.sessions.len() ==> has_album_id(
                self.albums,
                (#[trigger] self.sessions[i]).album_id,
            )
        &&& forall|i: int, j: int|
            0 <= i < j < self.sessions.len() ==> !(open_for(
                #[trigger] self.sessions[i],
                self.sessions[j].album_id,
            ) && (#[trigger] self.sessions[j]).finished_at is None)
    }

    /// There is room to assign a fresh id; a machine limit, not a policy.
    pub open spec fn id_headroom(self) -> bool {
        self.next_album_id < i64::MAX && self.next_session_id < i64::MAX
    }
}

/// The view of a sequence of albums.
pub open spec fn albums_view(albums: Seq<Album>) -> Seq<AlbumV> {
    albums.map_values(|a: Album| a@)
}

/// The view of a sequence of sessions.
pub open spec fn sessions_view(sessions: Seq<PlaySession>) -> Seq<PlaySessionV> {
    sessions.map_values(|s: PlaySession| s@)
}

/// The catalog and the session log.
pub struct Store {
    albums: Vec<Album>,
    sessions: Vec<PlaySession>,
    next_album_id: i64,
    next_session_id: i64,
}

impl View for Store {
    type V = StoreV;

    closed spec fn view(&self) -> StoreV {
        StoreV {
            albums: albums_view(self.albums@),
            sessions: sessions_view(self.sessions@),
            next_album_id: self.next_album_id,
            next_session_id: self.next_session_id,
        }
    }
}

/// The albums part of the state is untouched.
pub open spec fn unchanged_albums(pre: StoreV, post: StoreV) -> bool {
    post.albums == pre.albums && post.next_album_id == pre.next_album_id
}

/// The sessions part of the state is untouched.
pub open spec fn unchanged_sessions(pre: StoreV, post: StoreV) -> bool {
    post.sessions == pre.sessions && post.next_session_id == pre.next_session_id
}

/// The view of the album that an accepted creation appends.
pub open spec fn new_album_v(new: NewAlbum, id: i64, created_at: Seq<char>) -> AlbumV {
    AlbumV {
        id,
        title: new.title@,
        artist: new.artist@,
        cover_url: (match new.cover_url {
            Some(c) => c@,
            None => default_cover(),
        }),
        barcode: opt_view(new.barcode),
        created_at,
    }
}

/// What `add_album_at` does: an empty title or artist (both are required
/// text), or a duplicate non-null barcode, is rejected with
/// `ConstraintViolation` and the state is unchanged; otherwise the album
/// is appended with the fresh id, the supplied creation timestamp, and the
/// default cover when none was given.
pub open spec fn add_album_post(
    pre: StoreV,
    post: StoreV,
    new: NewAlbum,
    created_at: Seq<char>,
    r: Result<i64, TrackerError>,
) -> bool {
    if new.title@.len() == 0 || new.artist@.len() == 0 {
        r == Err::<i64, TrackerError>(TrackerError::ConstraintViolation) && post == pre
    } else if new.barcode matches Some(b) && barcode_taken(pre.albums, b@) {
        r == Err::<i64, TrackerError>(TrackerError::ConstraintViolation) && post == pre
    } else {
        &&& r == Ok::<i64, TrackerError>(pre.next_album_id)
        &&& post.albums == pre.albums.push(new_album_v(new, pre.next_album_id, created_at))
        &&& post.next_album_id == pre.next_album_id + 1
        &&& unchanged_sessions(pre, post)
    }
}

/// The catalog without the album of the given id.
pub open spec fn albums_without(albums: Seq<AlbumV>, id: i64) -> Seq<AlbumV> {
    albums.filter(|a: AlbumV| a.id != id)
}

/// The session log without the sessions of the given album.
pub open spec fn sessions_without(sessions: Seq<PlaySessionV>, id: i64) -> Seq<PlaySessionV> {
    sessions.filter(|s: PlaySessionV| s.album_id != id)
}

/// What `delete_album` does: the album disappears, every session that
/// referenced it disappears with it, everything else is untouched, and a
/// missing album is a no-op success.
pub open spec fn delete_album_post(pre: StoreV, post: StoreV, id: i64) -> bool {
    &&& post.albums == albums_without(pre.albums, id)
    &&& post.sessions == sessions_without(pre.sessions, id)
    &&& post.next_album_id == pre.next_album_id
    &&& post.next_session_id == pre.next_session_id
}

/// The view of the session that an accepted start or log appends.
pub open spec fn new_session_v(
    id: i64,
    album_id: i64,
    started_at: Seq<char>,
    finished_at: Option<Seq<char>>,
) -> PlaySessionV {
    PlaySessionV { id, album_id, started_at, finished_at }
}

/// What `start_session_at` does: a missing album is `NotFound`; an already
/// open session is `ConflictAlreadyPlaying`; an unparsable timestamp is
/// `MalformedTimestamp`; otherwise a fresh open session is appended.
pub open spec fn start_session_post(
    pre: StoreV,
    post: StoreV,
    album_id: i64,
    started_at: Seq<char>,
    r: Result<i64, TrackerError>,
) -> bool {
    if !has_album_id(pre.albums, album_id) {
        r == Err::<i64, TrackerError>(TrackerError::NotFound) && post == pre
    } else if has_open_session(pre.sessions, album_id) {
        r == Err::<i64, TrackerError>(TrackerError::ConflictAlreadyPlaying) && post == pre
    } else if epoch_seconds_of(started_at) is None {
        r == Err::<i64, TrackerError>(TrackerError::MalformedTimestamp) && post == pre
    } else {
        &&& r == Ok::<i64, TrackerError>(pre.next_session_id)
        &&& post.sessions == pre.sessions.push(
            new_session_v(pre.next_session_id, album_id, started_at, None),
        )
        &&& post.next_session_id == pre.next_session_id + 1
        &&& unchanged_albums(pre, post)
    }
}

/// The single open session of the album, at index `i`, gets the finish
/// timestamp; everything else is untouched.
pub open spec fn closes_open_at(
    pre_sessions: Seq<PlaySessionV>,
    post_sessions: Seq<PlaySessionV>,
    album_id: i64,
    finished: Seq<char>,
    i: int,
) -> bool {
    &&& 0 <= i < pre_sessions.len()
    &&& open_for(pre_sessions[i], album_id)
    &&& post_sessions == pre_sessions.update(
        i,
        (PlaySessionV {
            id: pre_sessions[i].id,
            album_id: pre_sessions[i].album_id,
            started_at: pre_sessions[i].started_at,
            finished_at: Some(finished),
        }),
    )
}

/// What `finish_session_at` does: with nothing open the call fails with
/// `NoOpenSession`, whatever the timestamp, and the state is unchanged; an
/// unparsable timestamp is rejected at the boundary; otherwise the open
/// session of the album is closed with the given finish timestamp.  The
/// error precedence matches the other operations: the referenced state is
/// checked first, the timestamp second.
pub open spec fn finish_session_post(
    pre: StoreV,
    post: StoreV,
    album_id: i64,
    finished: Seq<char>,
    r: Result<(), TrackerError>,
) -> bool {
    if !has_open_session(pre.sessions, album_id) {
        r == Err::<(), TrackerError>(TrackerError::NoOpenSession) && post == pre
    } else if epoch_seconds_of(finished) is None {
        r == Err::<(), TrackerError>(TrackerError::MalformedTimestamp) && post == pre
    } else {
        &&& r == Ok::<(), TrackerError>(())
        &&& exists|i: int| closes_open_at(pre.sessions, post.sessions, album_id, finished, i)
        &&& unchanged_albums(pre, post)
        &&& post.next_session_id == pre.next_session_id
    }
}

/// What `log_completed_session` does: a direct insert of a known-complete
/// play, bypassing the open/close protocol.  The finish may lie before the
/// start; that is a display concern, not a stored error.
pub open spec fn log_completed_post(
    pre: StoreV,
    post: StoreV,
    album_id: i64,
    started_at: Seq<char>,
    finished_at: Seq<char>,
    r: Result<i64, TrackerError>,
) -> bool {
    if !has_album_id(pre.albums, album_id) {
        r == Err::<i64, TrackerError>(TrackerError::NotFound) && post == pre
    } else if epoch_seconds_of(started_at) is None || epoch_seconds_of(finished_at) is None {
        r == Err::<i64, TrackerError>(TrackerError::MalformedTimestamp) && post == pre
    } else {
        &&& r == Ok::<i64, TrackerError>(pre.next_session_id)
        &&& post.sessions == pre.sessions.push(
            new_session_v(pre.next_session_id, album_id, started_at, Some(finished_at)),
        )
        &&& post.next_session_id == pre.next_session_id + 1
        &&& unchanged_albums(pre, post)
    }
}

/// The sessions a history listing selects: all of them, or one album's.
pub open spec fn selected_sessions(
    sessions: Seq<PlaySessionV>,
    filter: Option<i64>,
) -> Seq<PlaySessionV> {
    match filter {
        None => sessions,
        Some(id) => sessions.filter(|s: PlaySessionV| s.album_id == id),
    }
}

/// The history rows of the selected sessions, joined against the catalog,
/// in session-log order.
pub open spec fn history_items_seqs(
    albums: Seq<AlbumV>,
    sessions: Seq<PlaySessionV>,
    filter: Option<i64>,
) -> Seq<HistoryItemV> {
    selected_sessions(sessions, filter).map_values(|s: PlaySessionV| history_item_v(albums, s))
}

/// The views of a sequence of history rows.
pub open spec fn items_view(items: Seq<HistoryItem>) -> Seq<HistoryItemV> {
    items.map_values(|it: HistoryItem| it@)
}

/// `out` enumerates `src` exactly once each, in the order given by `order`.
pub open spec fn permutation_into(
    out: Seq<HistoryItemV>,
    src: Seq<HistoryItemV>,
    order: Seq<int>,
) -> bool {
    &&& out.len() == src.len()
    &&& order.len() == src.len()
    &&& forall|i: int| 0 <= i < order.len() ==> 0 <= #[trigger] order[i] < src.len()
    &&& forall|i: int| 0 <= i < out.len() ==> #[trigger] out[i] == src[order[i]]
    &&& forall|i: int, j: int| 0 <= i < j < order.len() ==> order[i] != order[j]
}

/// The rows are ordered by start timestamp, descending.
pub open spec fn sorted_by_start_desc(out: Seq<HistoryItemV>) -> bool {
    forall|i: int, j: int|
        0 <= i < j < out.len() ==> ts_key((#[trigger] out[i]).started_at) >= ts_key(
            (#[trigger] out[j]).started_at,
        )
}

/// The enumeration order lists sources by start key descending and, among
/// equal keys, in log order: a strict total order on source positions, so
/// the order - and with it the listing - is uniquely determined.
pub open spec fn stable_desc_order(src: Seq<HistoryItemV>, order: Seq<int>) -> bool {
    forall|i: int, j: int|
        0 <= i < j < order.len() ==> ts_key(src[#[trigger] order[i]].started_at) > ts_key(
            src[#[trigger] order[j]].started_at,
        ) || (ts_key(src[order[i]].started_at) == ts_key(src[order[j]].started_at) && order[i]
            < order[j])
}

/// `out` lists `src` exactly once each, by start key descending with ties
/// in log order.
pub open spec fn ordered_listing(
    out: Seq<HistoryItemV>,
    src: Seq<HistoryItemV>,
    order: Seq<int>,
) -> bool {
    permutation_into(out, src, order) && stable_desc_order(src, order)
}

/// What `list_history` returns: exactly the selected history rows, each
/// once, ordered by start timestamp descending, ties in log order.
pub open spec fn list_history_post(v: StoreV, filter: Option<i64>, out: Seq<HistoryItemV>) -> bool {
    &&& exists|order: Seq<int>|
        ordered_listing(out, history_items_seqs(v.albums, v.sessions, filter), order)
    &&& sorted_by_start_desc(out)
}

/// Every element of a filtered sequence is an element of the original.
pub(crate) proof fn lemma_filter_membership<A>(s: Seq<A>, pred: spec_fn(A) -> bool)
    ensures
        forall|i: int| 0 <= i < s.filter(pred).len() ==> s.contains(#[trigger] s.filter(pred)[i]),
    decreases s.len(),
{
    reveal(Seq::filter);
    if s.len() > 0 {
        let t = s.drop_last();
        lemma_filter_membership(t, pred);
        assert forall|i: int| 0 <= i < s.filter(pred).len() implies s.contains(
            #[trigger] s.filter(pred)[i],
        ) by {
            if i < t.filter(pred).len() {
                assert(t.contains(t.filter(pred)[i]));
                let j = choose|j: int| 0 <= j < t.len() && t[j] == t.filter(pred)[i];
                assert(s[j] == s.filter(pred)[i]);
            } else {
                assert(s.filter(pred)[i] == s.last());
                assert(s[s.len() - 1] == s.last());
            }
        }
    }
}

/// A pairwise property of a sequence survives filtering.
proof fn lemma_filter_pairs<A>(s: Seq<A>, pred: spec_fn(A) -> bool, p: spec_fn(A, A) -> bool)
    requires
        forall|i: int, j: int| 0 <= i < j < s.len() ==> #[trigger] p(s[i], s[j]),
    ensures
        forall|i: int, j: int|
            0 <= i < j < s.filter(pred).len() ==> #[trigger] p(s.filter(pred)[i], s.filter(pred)[j]),
    decreases s.len(),
{
    reveal(Seq::filter);
    if s.len() > 0 {
        let t = s.drop_last();
        assert forall|i: int, j: int| 0 <= i < j < t.len() implies #[trigger] p(t[i], t[j]) by {
            assert(p(s[i], s[j]));
        }
        lemma_filter_pairs(t, pred, p);
        lemma_filter_membership(t, pred);
        assert forall|i: int, j: int|
            0 <= i < j < s.filter(pred).len() implies #[trigger] p(
            s.filter(pred)[i],
            s.filter(pred)[j],
        ) by {
            if j < t.filter(pred).len() {
                assert(p(t.filter(pred)[i], t.filter(pred)[j]));
            } else {
                assert(s.filter(pred)[j] == s.last());
                assert(t.contains(t.filter(pred)[i]));
                let k = choose|k: int| 0 <= k < t.len() && t[k] == t.filter(pred)[i];
                assert(p(s[k], s[s.len() - 1]));
            }
        }
    }
}

/// Deleting an album keeps the store well formed.
proof fn lemma_delete_preserves_wf(pre: StoreV, post: StoreV, id: i64)
    requires
        pre.wf(),
        delete_album_post(pre, post, id),
    ensures
        post.wf(),
{
    broadcast use vstd::seq_lib::group_filter_ensures;

    let ap = |a: AlbumV| a.id != id;
    let sp = |s: PlaySessionV| s.album_id != id;
    lemma_filter_membership(pre.albums, ap);
    lemma_filter_membership(pre.sessions, sp);
    assert(post.albums == pre.albums.filter(ap));
    assert(post.sessions == pre.sessions.filter(sp));
    assert forall|i: int| 0 <= i < post.albums.len() implies 1 <= (#[trigger] post.albums[i]).id
        < post.next_album_id by {
        assert(pre.albums.contains(pre.albums.filter(ap)[i]));
    }
    assert forall|i: int| 0 <= i < post.albums.len() implies (#[trigger] post.albums[i]).title.len()
        > 0 && post.albums[i].artist.len() > 0 by {
        assert(pre.albums.contains(pre.albums.filter(ap)[i]));
    }
    assert forall|i: int| 0 <= i < post.sessions.len() implies 1 <= (
    #[trigger] post.sessions[i]).id < post.next_session_id by {
        assert(pre.sessions.contains(pre.sessions.filter(sp)[i]));
    }
    let pid = |x: AlbumV, y: AlbumV| x.id != y.id;
    assert forall|i: int, j: int| 0 <= i < j < pre.albums.len() implies #[trigger] pid(
        pre.albums[i],
        pre.albums[j],
    ) by {}
    lemma_filter_pairs(pre.albums, ap, pid);
    assert forall|i: int, j: int| 0 <= i < j < post.albums.len() implies (
    #[trigger] post.albums[i]).id != (#[trigger] post.albums[j]).id by {
        assert(pid(pre.albums.filter(ap)[i], pre.albums.filter(ap)[j]));
    }
    let pbc = |x: AlbumV, y: AlbumV| x.barcode is Some ==> y.barcode != x.barcode;
    assert forall|i: int, j: int| 0 <= i < j < pre.albums.len() implies #[trigger] pbc(
        pre.albums[i],
        pre.albums[j],
    ) by {}
    lemma_filter_pairs(pre.albums, ap, pbc);
    assert forall|i: int, j: int|
        0 <= i < j < post.albums.len() && (#[trigger] post.albums[i]).barcode is Some implies (
    #[trigger] post.albums[j]).barcode != post.albums[i].barcode by {
        assert(pbc(pre.albums.filter(ap)[i], pre.albums.filter(ap)[j]));
    }
    let psid = |x: PlaySessionV, y: PlaySessionV| x.id != y.id;
    assert forall|i: int, j: int| 0 <= i < j < pre.sessions.len() implies #[trigger] psid(
        pre.sessions[i],
        pre.sessions[j],
    ) by {}
    lemma_filter_pairs(pre.sessions, sp, psid);
    assert forall|i: int, j: int| 0 <= i < j < post.sessions.len() implies (
    #[trigger] post.sessions[i]).id != (#[trigger] post.sessions[j]).id by {
        assert(psid(pre.sessions.filter(sp)[i], pre.sessions.filter(sp)[j]));
    }
    let popen = |x: PlaySessionV, y: PlaySessionV|
        !(open_for(x, y.album_id) && y.finished_at is None);
    assert forall|i: int, j: int| 0 <= i < j < pre.sessions.len() implies #[trigger] popen(
        pre.sessions[i],
        pre.sessions[j],
    ) by {}
    lemma_filter_pairs(pre.sessions, sp, popen);
    assert forall|i: int, j: int| 0 <= i < j < post.sessions.len() implies !(open_for(
        #[trigger] post.sessions[i],
        post.sessions[j].album_id,
    ) && (#[trigger] post.sessions[j]).finished_at is None) by {
        assert(popen(pre.sessions.filter(sp)[i], pre.sessions.filter(sp)[j]));
    }
    assert forall|i: int| 0 <= i < post.sessions.len() implies has_album_id(
        post.albums,
        (#[trigger] post.sessions[i]).album_id,
    ) by {
        assert(pre.sessions.contains(pre.sessions.filter(sp)[i]));
        let aid = post.sessions[i].album_id;
        let k = choose|k: int| 0 <= k < pre.sessions.len() && pre.sessions[k] == post.sessions[i];
        assert(has_album_id(pre.albums, pre.sessions[k].album_id));
        let m = choose|m: int| 0 <= m < pre.albums.len() && (#[trigger] pre.albums[m]).id == aid;
        assert(ap(pre.albums[m]));
        pre.albums.lemma_filter_contains(ap, m);
        assert(post.albums.contains(pre.albums[m]));
        let w = choose|w: int| 0 <= w < post.albums.len() && post.albums[w] == pre.albums[m];
        assert(post.albums[w].id == aid);
    }
}

impl Store {
    /// An empty store.
    pub fn new() -> (r: Store)
        ensures
            r@.wf(),
            r@.albums == Seq::<AlbumV>::empty(),
            r@.sessions == Seq::<PlaySessionV>::empty(),
            r@.next_album_id == 1,
            r@.next_session_id == 1,
    {
        let r = Store { albums: Vec::new(), sessions: Vec::new(), next_album_id: 1, next_session_id: 1 };
        proof {
            assert(r@.albums =~= Seq::<AlbumV>::empty());
            assert(r@.sessions =~= Seq::<PlaySessionV>::empty());
        }
        r
    }

    /// The catalog, in creation order.
    pub fn list_albums(&self) -> (r: &Vec<Album>)
        ensures
            albums_view(r@) == self@.albums,
    {
        &self.albums
    }

    /// Whether the given id space still has room for a fresh id.
    pub fn has_id_headroom(&self) -> (r: bool)
        ensures
            r == self@.id_headroom(),
    {
        self.next_album_id < i64::MAX && self.next_session_id < i64::MAX
    }

    fn barcode_in_use(&self, code: &String) -> (r: bool)
        ensures
            r == barcode_taken(self@.albums, code@),
    {
        let n = self.albums.len();
        let mut i: usize = 0;
        while i < n
            invariant
                n == self.albums.len(),
                i <= n,
                forall|k: int|
                    0 <= k < i ==> (#[trigger] albums_view(self.albums@)[k]).barcode != Some(
                        code@,
                    ),
            decreases n - i,
        {
            let matched = match &self.albums[i].barcode {
                Some(b) => b.eq(code),
                None => false,
            };
            proof {
                assert(albums_view(self.albums@)[i as int] == self.albums@[i as int]@);
            }
            if matched {
                proof {
                    assert(albums_view(self.albums@)[i as int].barcode == Some(code@));
                    assert(barcode_taken(albums_view(self.albums@), code@));
                }
                return true;
            }
            proof {
                assert(albums_view(self.albums@)[i as int].barcode != Some(code@));
            }
            i += 1;
        }
        false
    }

    /// Adds an album with an explicit creation timestamp.  Fails with
    /// `ConstraintViolation` when the title or artist is empty, or when
    /// the barcode is non-null and already in use; otherwise assigns the
    /// next id and appends the entry.
    pub fn add_album_at(&mut self, new: NewAlbum, created_at: String) -> (r: Result<
        i64,
        TrackerError,
    >)
        requires
            old(self)@.wf(),
            old(self)@.id_headroom(),
        ensures
            final(self)@.wf(),
            add_album_post(old(self)@, final(self)@, new, created_at@, r),
    {
        let ghost gnew = new;
        let ghost gcreated = created_at@;
        if new.title.as_str().is_empty() || new.artist.as_str().is_empty() {
            return Err(TrackerError::ConstraintViolation);
        }
        let dup = match &new.barcode {
            Some(code) => self.barcode_in_use(code),
            None => false,
        };
        if dup {
            return Err(TrackerError::ConstraintViolation);
        }
        proof {
            if gnew.barcode is Some {
                assert(!barcode_taken(old(self)@.albums, gnew.barcode->0@));
            }
        }
        let id = self.next_album_id;
        let NewAlbum { title, artist, cover_url, barcode } = new;
        let cover_url = match cover_url {
            Some(c) => c,
            None => "default-cover.jpg".to_owned(),
        };
        let album = Album { id, title, artist, cover_url, barcode, created_at };
        proof {
            assert(album@ =~= new_album_v(gnew, old(self)@.next_album_id, gcreated));
        }
        self.albums.push(album);
        self.next_album_id = id + 1;
        proof {
            let pre = old(self)@;
            let post = self@;
            assert(post.albums =~= pre.albums.push(new_album_v(gnew, pre.next_album_id, gcreated)));
            assert(post.sessions =~= pre.sessions);
            assert forall|i: int, j: int|
                0 <= i < j < post.albums.len() && (#[trigger] post.albums[i]).barcode is Some
                implies (#[trigger] post.albums[j]).barcode != post.albums[i].barcode by {
                if j == post.albums.len() - 1 && post.albums[j].barcode is Some {
                    assert(post.albums[j].barcode->0 == gnew.barcode->0@);
                    assert(!barcode_taken(pre.albums, post.albums[j].barcode->0));
                    assert(pre.albums[i].barcode != post.albums[j].barcode);
                }
            }
            assert forall|i: int| 0 <= i < post.albums.len() implies (
            #[trigger] post.albums[i]).title.len() > 0 && post.albums[i].artist.len() > 0 by {
                if i == post.albums.len() - 1 {
                    assert(post.albums[i] == new_album_v(gnew, pre.next_album_id, gcreated));
                }
            }
            assert forall|i: int| 0 <= i < post.sessions.len() implies has_album_id(
                post.albums,
                (#[trigger] post.sessions[i]).album_id,
            ) by {
                assert(has_album_id(pre.albums, pre.sessions[i].album_id));
                let k = choose|k: int|
                    0 <= k < pre.albums.len() && (#[trigger] pre.albums[k]).id
                        == pre.sessions[i].album_id;
                assert(post.albums[k].id == post.sessions[i].album_id);
            }
        }
        Ok(id)
    }

    /// Adds an album, stamping it with the current time.
    pub fn add_album(&mut self, new: NewAlbum) -> (r: Result<i64, TrackerError>)
        requires
            old(self)@.wf(),
            old(self)@.id_headroom(),
        ensures
            final(self)@.wf(),
            exists|c: Seq<char>| add_album_post(old(self)@, final(self)@, new, c, r),
    {
        let created_at = now_rfc3339();
        let ghost c = created_at@;
        let r = self.add_album_at(new, created_at);
        proof {
            assert(add_album_post(old(self)@, self@, new, c, r));
        }
        r
    }

    /// Deletes an album and, with it, every session that references it.
    /// Deleting a missing album is a no-op success.
    pub fn delete_album(&mut self, id: i64)
        requires
            old(self)@.wf(),
        ensures
            final(self)@.wf(),
            delete_album_post(old(self)@, final(self)@, id),
    {
        let ghost orig_albums = self.albums@;
        let ghost orig_sessions = self.sessions@;
        let mut kept_albums: Vec<Album> = Vec::new();
        let ghost mut k: int = 0;
        proof {
            assert(orig_albums.take(0).filter(|a: Album| a.id != id) =~= Seq::<Album>::empty());
            assert(self.albums@ =~= orig_albums.subrange(0, orig_albums.len() as int));
        }
        while self.albums.len() > 0
            invariant
                0 <= k <= orig_albums.len(),
                self.albums@ == orig_albums.subrange(k, orig_albums.len() as int),
                kept_albums@ == orig_albums.take(k).filter(|a: Album| a.id != id),
                self.sessions@ == orig_sessions,
                self.next_album_id == old(self).next_album_id,
                self.next_session_id == old(self).next_session_id,
            decreases orig_albums.len() - k,
        {
            let a = self.albums.remove(0);
            proof {
                assert(a == orig_albums[k]);
                assert(self.albums@ =~= orig_albums.subrange(k + 1, orig_albums.len() as int));
                assert(orig_albums.take(k + 1) =~= orig_albums.take(k).push(orig_albums[k]));
                Seq::lemma_filter_push(orig_albums.take(k), orig_albums[k], |a: Album| a.id != id);
            }
            if a.id != id {
                kept_albums.push(a);
            }
            proof {
                k = k + 1;
            }
        }
        proof {
            assert(orig_albums.take(k) =~= orig_albums);
        }
        self.albums = kept_albums;
        let ghost albums_after = self.albums@;
        proof {
            assert(albums_after == orig_albums.filter(|a: Album| a.id != id));
        }

        let mut kept_sessions: Vec<PlaySession> = Vec::new();
        let ghost mut m: int = 0;
        proof {
            assert(orig_sessions.take(0).filter(|s: PlaySession| s.album_id != id)
                =~= Seq::<PlaySession>::empty());
            assert(self.sessions@ =~= orig_sessions.subrange(0, orig_sessions.len() as int));
        }
        while self.sessions.len() > 0
            invariant
                0 <= m <= orig_sessions.len(),
                self.sessions@ == orig_sessions.subrange(m, orig_sessions.len() as int),
                kept_sessions@ == orig_sessions.take(m).filter(|s: PlaySession| s.album_id != id),
                self.albums@ == albums_after,
                albums_after == orig_albums.filter(|a: Album| a.id != id),
                self.next_album_id == old(self).next_album_id,
                self.next_session_id == old(self).next_session_id,
            decreases orig_sessions.len() - m,
        {
            let se = self.sessions.remove(0);
            proof {
                assert(se == orig_sessions[m]);
                assert(self.sessions@ =~= orig_sessions.subrange(m + 1, orig_sessions.len() as int));
                assert(orig_sessions.take(m + 1) =~= orig_sessions.take(m).push(orig_sessions[m]));
                Seq::lemma_filter_push(
                    orig_sessions.take(m),
                    orig_sessions[m],
                    |s: PlaySession| s.album_id != id,
                );
            }
            if se.album_id != id {
                kept_sessions.push(se);
            }
            proof {
                m = m + 1;
            }
        }
        proof {
            assert(orig_sessions.take(m) =~= orig_sessions);
        }
        self.sessions = kept_sessions;

        proof {
            vstd::seq_lib::lemma_filter_view_commute(
                orig_albums,
                |a: Album| a.id != id,
                |a: AlbumV| a.id != id,
            );
            assert(albums_view(orig_albums) =~= orig_albums.map_values(|x: Album| x.view()));
            assert(albums_view(self.albums@) =~= orig_albums.filter(|a: Album| a.id != id)
                .map_values(|x: Album| x.view()));
            assert(self@.albums == albums_without(old(self)@.albums, id));
            vstd::seq_lib::lemma_filter_view_commute(
                orig_sessions,
                |s: PlaySession| s.album_id != id,
                |s: PlaySessionV| s.album_id != id,
            );
            assert(sessions_view(orig_sessions) =~= orig_sessions.map_values(
                |x: PlaySession| x.view(),
            ));
            assert(sessions_view(self.sessions@) =~= orig_sessions.filter(
                |s: PlaySession| s.album_id != id,
            ).map_values(|x: PlaySession| x.view()));
            assert(self@.sessions == sessions_without(old(self)@.sessions, id));
            lemma_delete_preserves_wf(old(self)@, self@, id);
        }
    }

    /// Looks an album up by barcode; `None`, not an error, when no album
    /// carries the code.
    pub fn find_album_by_barcode(&self, code: &String) -> (r: Option<&Album>)
        ensures
            match r {
                Some(a) => barcode_taken(self@.albums, code@) && a@.barcode == Some(code@)
                    && exists|i: int|
                    0 <= i < self@.albums.len() && #[trigger] self@.albums[i] == a@,
                None => !barcode_taken(self@.albums, code@),
            },
    {
        let n = self.albums.len();
        let mut i: usize = 0;
        while i < n
            invariant
                n == self.albums.len(),
                i <= n,
                forall|k: int|
                    0 <= k < i ==> (#[trigger] albums_view(self.albums@)[k]).barcode != Some(
                        code@,
                    ),
            decreases n - i,
        {
            let matched = match &self.albums[i].barcode {
                Some(b) => b.eq(code),
                None => false,
            };
            proof {
                assert(albums_view(self.albums@)[i as int] == self.albums@[i as int]@);
            }
            if matched {
                proof {
                    assert(albums_view(self.albums@)[i as int].barcode == Some(code@));
                    assert(barcode_taken(albums_view(self.albums@), code@));
                    assert(self@.albums[i as int] == self.albums@[i as int]@);
                }
                return Some(&self.albums[i]);
            }
            proof {
                assert(albums_view(self.albums@)[i as int].barcode != Some(code@));
            }
            i += 1;
        }
        None
    }

    fn contains_album(&self, id: i64) -> (r: bool)
        ensures
            r == has_album_id(self@.albums, id),
    {
        let n = self.albums.len();
        let mut i: usize = 0;
        while i < n
            invariant
                n == self.albums.len(),
                i <= n,
                forall|k: int| 0 <= k < i ==> (#[trigger] albums_view(self.albums@)[k]).id != id,
            decreases n - i,
        {
            proof {
                assert(albums_view(self.albums@)[i as int] == self.albums@[i as int]@);
            }
            if self.albums[i].id == id {
                proof {
                    assert(has_album_id(albums_view(self.albums@), id));
                }
                return true;
            }
            i += 1;
        }
        false
    }

    fn find_open_session(&self, album_id: i64) -> (r: Option<usize>)
        ensures
            match r {
                Some(i) => i < self.sessions@.len() && open_for(self@.sessions[i as int], album_id),
                None => !has_open_session(self@.sessions, album_id),
            },
    {
        let n = self.sessions.len();
        let mut i: usize = 0;
        while i < n
            invariant
                n == self.sessions.len(),
                i <= n,
                forall|k: int|
                    0 <= k < i ==> !open_for(#[trigger] sessions_view(self.sessions@)[k], album_id),
            decreases n - i,
        {
            proof {
                assert(sessions_view(self.sessions@)[i as int] == self.sessions@[i as int]@);
            }
            let is_open = match &self.sessions[i].finished_at {
                Some(_) => false,
                None => true,
            };
            if self.sessions[i].album_id == album_id && is_open {
                return Some(i);
            }
            i += 1;
        }
        None
    }

    /// Starts a session with an explicit start timestamp: the album must
    /// exist, at most one session per album may be open at a time, and a
    /// timestamp that does not parse is rejected at the boundary.
    pub fn start_session_at(&mut self, album_id: i64, started_at: String) -> (r: Result<
        i64,
        TrackerError,
    >)
        requires
            old(self)@.wf(),
            old(self)@.id_headroom(),
        ensures
            final(self)@.wf(),
            start_session_post(old(self)@, final(self)@, album_id, started_at@, r),
    {
        if !self.contains_album(album_id) {
            return Err(TrackerError::NotFound);
        }
        match self.find_open_session(album_id) {
            Some(i) => {
                proof {
                    assert(has_open_session(self@.sessions, album_id));
                }
                return Err(TrackerError::ConflictAlreadyPlaying);
            },
            None => {},
        }
        if parse_timestamp(started_at.as_str()).is_none() {
            return Err(TrackerError::MalformedTimestamp);
        }
        let ghost gstarted = started_at@;
        let id = self.next_session_id;
        let session = PlaySession { id, album_id, started_at, finished_at: None };
        proof {
            assert(session@ =~= new_session_v(id, album_id, gstarted, None));
        }
        self.sessions.push(session);
        self.next_session_id = id + 1;
        proof {
            let pre = old(self)@;
            let post = self@;
            assert(post.sessions =~= pre.sessions.push(
                new_session_v(pre.next_session_id, album_id, gstarted, None),
            ));
            assert(post.albums =~= pre.albums);
            Self::lemma_push_session_preserves_wf(
                pre,
                post,
                new_session_v(pre.next_session_id, album_id, gstarted, None),
            );
        }
        Ok(id)
    }

    /// Starts a session; with no timestamp supplied, the current time is
    /// used.
    pub fn start_session(&mut self, album_id: i64, started_at: Option<String>) -> (r: Result<
        i64,
        TrackerError,
    >)
        requires
            old(self)@.wf(),
            old(self)@.id_headroom(),
        ensures
            final(self)@.wf(),
            (match started_at {
                Some(su) => start_session_post(old(self)@, final(self)@, album_id, su@, r),
                None => exists|c: Seq<char>| start_session_post(
                    old(self)@,
                    final(self)@,
                    album_id,
                    c,
                    r,
                ),
            }),
    {
        match started_at {
            Some(su) => self.start_session_at(album_id, su),
            None => {
                let now = now_rfc3339();
                let ghost c = now@;
                let r = self.start_session_at(album_id, now);
                proof {
                    assert(start_session_post(old(self)@, self@, album_id, c, r));
                }
                r
            },
        }
    }

    /// Finishes the album's open session with an explicit finish timestamp.
    /// Fails with `NoOpenSession`, leaving the state unchanged, when
    /// nothing is open; an unparsable timestamp is rejected at the
    /// boundary.
    pub fn finish_session_at(&mut self, album_id: i64, finished_at: String) -> (r: Result<
        (),
        TrackerError,
    >)
        requires
            old(self)@.wf(),
        ensures
            final(self)@.wf(),
            finish_session_post(old(self)@, final(self)@, album_id, finished_at@, r),
    {
        let idx = match self.find_open_session(album_id) {
            Some(i) => i,
            None => {
                return Err(TrackerError::NoOpenSession);
            },
        };
        proof {
            assert(has_open_session(self@.sessions, album_id));
        }
        if parse_timestamp(finished_at.as_str()).is_none() {
            return Err(TrackerError::MalformedTimestamp);
        }
        let ghost gfin = finished_at@;
        let updated = PlaySession {
            id: self.sessions[idx].id,
            album_id: self.sessions[idx].album_id,
            started_at: self.sessions[idx].started_at.clone(),
            finished_at: Some(finished_at),
        };
        proof {
            assert(updated@ =~= (PlaySessionV {
                id: old(self)@.sessions[idx as int].id,
                album_id: old(self)@.sessions[idx as int].album_id,
                started_at: old(self)@.sessions[idx as int].started_at,
                finished_at: Some(gfin),
            }));
        }
        self.sessions.set(idx, updated);
        proof {
            let pre = old(self)@;
            let post = self@;
            assert(post.sessions =~= pre.sessions.update(
                idx as int,
                (PlaySessionV {
                    id: pre.sessions[idx as int].id,
                    album_id: pre.sessions[idx as int].album_id,
                    started_at: pre.sessions[idx as int].started_at,
                    finished_at: Some(gfin),
                }),
            ));
            assert(closes_open_at(pre.sessions, post.sessions, album_id, gfin, idx as int));
            assert(post.albums =~= pre.albums);
            Self::lemma_close_session_preserves_wf(pre, post, album_id, gfin, idx as int);
        }
        Ok(())
    }

    /// Finishes the album's open session; with no timestamp supplied, the
    /// current time is used.
    pub fn finish_session(&mut self, album_id: i64, finished_at: Option<String>) -> (r: Result<
        (),
        TrackerError,
    >)
        requires
            old(self)@.wf(),
        ensures
            final(self)@.wf(),
            (match finished_at {
                Some(fu) => finish_session_post(old(self)@, final(self)@, album_id, fu@, r),
                None => exists|c: Seq<char>| finish_session_post(
                    old(self)@,
                    final(self)@,
                    album_id,
                    c,
                    r,
                ),
            }),
    {
        match finished_at {
            Some(fu) => self.finish_session_at(album_id, fu),
            None => {
                let now = now_rfc3339();
                let ghost c = now@;
                let r = self.finish_session_at(album_id, now);
                proof {
                    assert(finish_session_post(old(self)@, self@, album_id, c, r));
                }
                r
            },
        }
    }

    /// Logs a completed play directly, with both timestamps known up
    /// front, bypassing the open/close protocol.
    pub fn log_completed_session(
        &mut self,
        album_id: i64,
        started_at: String,
        finished_at: String,
    ) -> (r: Result<i64, TrackerError>)
        requires
            old(self)@.wf(),
            old(self)@.id_headroom(),
        ensures
            final(self)@.wf(),
            log_completed_post(old(self)@, final(self)@, album_id, started_at@, finished_at@, r),
    {
        if !self.contains_album(album_id) {
            return Err(TrackerError::NotFound);
        }
        if parse_timestamp(started_at.as_str()).is_none() || parse_timestamp(
            finished_at.as_str(),
        ).is_none() {
            return Err(TrackerError::MalformedTimestamp);
        }
        let ghost gstarted = started_at@;
        let ghost gfin = finished_at@;
        let id = self.next_session_id;
        let session = PlaySession { id, album_id, started_at, finished_at: Some(finished_at) };
        proof {
            assert(session@ =~= new_session_v(id, album_id, gstarted, Some(gfin)));
        }
        self.sessions.push(session);
        self.next_session_id = id + 1;
        proof {
            let pre = old(self)@;
            let post = self@;
            assert(post.sessions =~= pre.sessions.push(
                new_session_v(pre.next_session_id, album_id, gstarted, Some(gfin)),
            ));
            assert(post.albums =~= pre.albums);
            Self::lemma_push_session_preserves_wf(
                pre,
                post,
                new_session_v(pre.next_session_id, album_id, gstarted, Some(gfin)),
            );
        }
        Ok(id)
    }

    fn album_by_id(&self, id: i64) -> (r: &Album)
        requires
            has_album_id(self@.albums, id),
        ensures
            find_album_v(self@.albums, id) == Some(r@),
    {
        let n = self.albums.len();
        let mut i: usize = 0;
        while i < n
            invariant
                n == self.albums.len(),
                i <= n,
                has_album_id(albums_view(self.albums@), id),
                forall|k: int| 0 <= k < i ==> (#[trigger] albums_view(self.albums@)[k]).id != id,
            decreases n - i,
        {
            proof {
                assert(albums_view(self.albums@)[i as int] == self.albums@[i as int]@);
            }
            if self.albums[i].id == id {
                proof {
                    lemma_find_album_v_at(albums_view(self.albums@), id, i as int);
                }
                return &self.albums[i];
            }
            i += 1;
        }
        // Unreachable: the precondition guarantees a matching album.
        proof {
            assert(false);
        }
        &self.albums[0]
    }

    /// The history listing: every selected session, joined with its album's
    /// fields and its duration label, ordered by start timestamp
    /// descending.  A malformed stored record yields an invalid-duration
    /// label for that row; the listing itself always succeeds.
    #[verifier::loop_isolation(false)]
    pub fn list_history(&self, album_filter: Option<i64>) -> (r: Vec<HistoryItem>)
        requires
            self@.wf(),
        ensures
            list_history_post(self@, album_filter, items_view(r@)),
    {
        broadcast use vstd::seq_lib::group_filter_ensures;

        let ghost av = self@.albums;
        let ghost sv = self@.sessions;
        let ghost src = history_items_seqs(av, sv, album_filter);
        let n = self.sessions.len();
        let mut items: Vec<HistoryItem> = Vec::new();
        let mut keys: Vec<i64> = Vec::new();
        let mut i: usize = 0;
        proof {
            assert(sv.take(0) =~= Seq::<PlaySessionV>::empty());
            assert(selected_sessions(sv.take(0), album_filter) =~= Seq::<PlaySessionV>::empty());
            assert(items_view(items@) =~= history_items_seqs(av, sv.take(0), album_filter));
        }
        while i < n
            invariant
                i <= n,
                items@.len() == keys@.len(),
                items_view(items@) == history_items_seqs(av, sv.take(i as int), album_filter),
                forall|k: int|
                    0 <= k < keys@.len() ==> (#[trigger] keys@[k]) == ts_key(
                        items_view(items@)[k].started_at,
                    ),
            decreases n - i,
        {
            let ghost items_before = items@;
            proof {
                assert(sv.take(i + 1) =~= sv.take(i as int).push(sv[i as int]));
                assert(sv[i as int] == self.sessions@[i as int]@);
            }
            let session_keep = match album_filter {
                None => true,
                Some(fid) => self.sessions[i].album_id == fid,
            };
            if session_keep {
                let session = &self.sessions[i];
                proof {
                    assert(session@ == sv[i as int]);
                    assert(has_album_id(av, session.album_id));
                }
                let album = self.album_by_id(session.album_id);
                let dur = match &session.finished_at {
                    Some(f) => duration_label(session.started_at.as_str(), Some(f.as_str())),
                    None => duration_label(session.started_at.as_str(), None),
                };
                let key = timestamp_key(session.started_at.as_str());
                let it = HistoryItem {
                    session_id: session.id,
                    album_id: session.album_id,
                    title: album.title.clone(),
                    artist: album.artist.clone(),
                    cover_url: album.cover_url.clone(),
                    started_at: session.started_at.clone(),
                    finished_at: clone_opt_string(&session.finished_at),
                    duration: dur,
                };
                proof {
                    assert(find_album_v(av, sv[i as int].album_id) == Some(album@));
                    assert(it@ =~= history_item_v(av, sv[i as int]));
                }
                items.push(it);
                keys.push(key);
                proof {
                    assert(items_view(items@) =~= items_view(items_before).push(
                        history_item_v(av, sv[i as int]),
                    ));
                }
            }
            proof {
                let mapper = |s: PlaySessionV| history_item_v(av, s);
                match album_filter {
                    None => {
                        assert(selected_sessions(sv.take(i + 1), album_filter) =~= selected_sessions(
                            sv.take(i as int),
                            album_filter,
                        ).push(sv[i as int]));
                        assert(selected_sessions(sv.take(i + 1), album_filter).map_values(mapper)
                            =~= selected_sessions(sv.take(i as int), album_filter).map_values(
                            mapper,
                        ).push(history_item_v(av, sv[i as int])));
                    },
                    Some(fid) => {
                        let pred = |s: PlaySessionV| s.album_id == fid;
                        Seq::lemma_filter_push(sv.take(i as int), sv[i as int], pred);
                        if pred(sv[i as int]) {
                            assert(selected_sessions(sv.take(i + 1), album_filter)
                                =~= selected_sessions(sv.take(i as int), album_filter).push(
                                sv[i as int],
                            ));
                            assert(selected_sessions(sv.take(i + 1), album_filter).map_values(
                                mapper,
                            ) =~= selected_sessions(sv.take(i as int), album_filter).map_values(
                                mapper,
                            ).push(history_item_v(av, sv[i as int])));
                        } else {
                            assert(selected_sessions(sv.take(i + 1), album_filter)
                                =~= selected_sessions(sv.take(i as int), album_filter));
                        }
                    },
                }
                assert(items_view(items@) =~= history_items_seqs(av, sv.take(i + 1), album_filter));
            }
            i += 1;
        }
        proof {
            assert(sv.take(n as int) =~= sv);
            assert(items_view(items@) == src);
            assert(src.len() == keys@.len());
        }
        let op = sorted_pair_order(&keys);
        let mut out: Vec<HistoryItem> = Vec::new();
        let mut t: usize = 0;
        while t < op.len()
            invariant
                t <= op@.len(),
                out@.len() == t,
                forall|u: int|
                    0 <= u < t ==> (#[trigger] out@[u])@ == src[(op@[u].1) as int],
            decreases op@.len() - t,
        {
            let idx = op[t].1;
            let it = items[idx].duplicate();
            out.push(it);
            proof {
                assert(items_view(items@)[idx as int] == items@[idx as int]@);
                assert(out@[t as int]@ == src[(op@[t as int].1) as int]);
            }
            t += 1;
        }
        proof {
            let order = op@.map_values(|p: (i64, usize)| p.1 as int);
            assert forall|u: int| 0 <= u < order.len() implies 0 <= #[trigger] order[u]
                < src.len() by {
                assert(0 <= op@[u].1 < keys@.len());
            }
            assert forall|u: int| 0 <= u < items_view(out@).len() implies #[trigger] items_view(
                out@,
            )[u] == src[order[u]] by {
                assert(out@[u]@ == src[(op@[u].1) as int]);
            }
            assert forall|u: int, v: int| 0 <= u < v < order.len() implies order[u]
                != order[v] by {
                assert(op@[u].1 != op@[v].1);
            }
            assert(permutation_into(items_view(out@), src, order));
            assert forall|u: int, v: int| 0 <= u < v < items_view(out@).len() implies ts_key(
                (#[trigger] items_view(out@)[u]).started_at,
            ) >= ts_key((#[trigger] items_view(out@)[v]).started_at) by {
                assert(items_view(out@)[u] == src[(op@[u].1) as int]);
                assert(items_view(out@)[v] == src[(op@[v].1) as int]);
                assert(keys@[op@[u].1 as int] == ts_key(src[(op@[u].1) as int].started_at));
                assert(keys@[op@[v].1 as int] == ts_key(src[(op@[v].1) as int].started_at));
                assert(op@[u].0 >= op@[v].0);
            }
            assert(sorted_by_start_desc(items_view(out@)));
            assert forall|u: int, v: int| 0 <= u < v < order.len() implies ts_key(
                src[#[trigger] order[u]].started_at,
            ) > ts_key(src[#[trigger] order[v]].started_at) || (ts_key(src[order[u]].started_at)
                == ts_key(src[order[v]].started_at) && order[u] < order[v]) by {
                assert(keys@[op@[u].1 as int] == ts_key(src[(op@[u].1) as int].started_at));
                assert(keys@[op@[v].1 as int] == ts_key(src[(op@[v].1) as int].started_at));
                assert(op@[u].0 >= op@[v].0);
                if op@[u].0 == op@[v].0 {
                    assert(op@[u].1 < op@[v].1);
                }
            }
            assert(stable_desc_order(src, order));
            assert(ordered_listing(items_view(out@), src, order));
        }
        out
    }

    /// Appending a fresh session keeps the store well formed, provided an
    /// open one is only appended when its album has none.
    proof fn lemma_push_session_preserves_wf(pre: StoreV, post: StoreV, sv: PlaySessionV)
        requires
            pre.wf(),
            pre.id_headroom(),
            sv.id == pre.next_session_id,
            has_album_id(pre.albums, sv.album_id),
            sv.finished_at is None ==> !has_open_session(pre.sessions, sv.album_id),
            post.sessions == pre.sessions.push(sv),
            post.albums == pre.albums,
            post.next_album_id == pre.next_album_id,
            post.next_session_id == pre.next_session_id + 1,
        ensures
            post.wf(),
    {
        assert forall|i: int| 0 <= i < post.sessions.len() implies has_album_id(
            post.albums,
            (#[trigger] post.sessions[i]).album_id,
        ) by {
            if i < pre.sessions.len() {
                assert(has_album_id(pre.albums, pre.sessions[i].album_id));
            } else {
                assert(post.sessions[i] == sv);
            }
        }
        assert forall|i: int, j: int| 0 <= i < j < post.sessions.len() implies !(open_for(
            #[trigger] post.sessions[i],
            post.sessions[j].album_id,
        ) && (#[trigger] post.sessions[j]).finished_at is None) by {
            if j == post.sessions.len() - 1 {
                assert(post.sessions[j] == sv);
                if open_for(post.sessions[i], sv.album_id) && sv.finished_at is None {
                    assert(open_for(pre.sessions[i], sv.album_id));
                    assert(has_open_session(pre.sessions, sv.album_id));
                }
            }
        }
    }

    /// Closing the open session of an album keeps the store well formed.
    proof fn lemma_close_session_preserves_wf(
        pre: StoreV,
        post: StoreV,
        album_id: i64,
        finished: Seq<char>,
        i: int,
    )
        requires
            pre.wf(),
            closes_open_at(pre.sessions, post.sessions, album_id, finished, i),
            post.albums == pre.albums,
            post.next_album_id == pre.next_album_id,
            post.next_session_id == pre.next_session_id,
        ensures
            post.wf(),
    {
        assert forall|k: int| 0 <= k < post.sessions.len() implies has_album_id(
            post.albums,
            (#[trigger] post.sessions[k]).album_id,
        ) by {
            assert(has_album_id(pre.albums, pre.sessions[k].album_id));
            assert(post.sessions[k].album_id == pre.sessions[k].album_id);
        }
        assert forall|k: int, l: int| 0 <= k < l < post.sessions.len() implies !(open_for(
            #[trigger] post.sessions[k],
            post.sessions[l].album_id,
        ) && (#[trigger] post.sessions[l]).finished_at is None) by {
            if open_for(post.sessions[k], post.sessions[l].album_id)
                && post.sessions[l].finished_at is None {
                assert(k != i && l != i);
                assert(open_for(pre.sessions[k], pre.sessions[l].album_id));
                assert(pre.sessions[l].finished_at is None);
            }
        }
    }
}

} // verus!
