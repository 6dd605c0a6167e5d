//! The laws of the store: how consecutive operations relate.
//!
//! Each lemma here is stated over the ghost view [`StoreV`] and the
//! postcondition predicates of the store's operations, so it applies to
//! every pair of states that the executable operations can produce.

use vstd::prelude::*;

use crate::duration::duration_label_spec;
use crate::model::NewAlbum;
use crate::model::TrackerError;
use crate::model::barcode_taken;
use crate::model::default_cover;
use crate::model::has_album_id;
use crate::model::has_open_session;
use crate::model::history_item_v;
use crate::model::open_for;
use crate::model::opt_view;
use crate::model::PlaySessionV;
use crate::model::HistoryItemV;
use crate::store::StoreV;
use crate::store::add_album_post;
use crate::store::closes_open_at;
use crate::store::delete_album_post;
use crate::store::finish_session_post;
use crate::store::history_items_seqs;
use crate::store::lemma_filter_membership;
use crate::store::list_history_post;
use crate::store::new_album_v;
use crate::store::new_session_v;
use crate::store::ordered_listing;
use crate::store::permutation_into;
use crate::store::selected_sessions;
use crate::store::start_session_post;
use crate::time::epoch_seconds_of;
use crate::time::ts_key;

verus! {

/// An accepted album creation lists exactly one entry with the returned
/// id, and that entry carries the given title and artist and, when no
/// cover was supplied, the default cover reference.
pub proof fn lemma_add_album_lists_once(
    pre: StoreV,
    post: StoreV,
    new: NewAlbum,
    created_at: Seq<char>,
    id: i64,
)
    requires
        pre.wf(),
        add_album_post(pre, post, new, created_at, Ok(id)),
    ensures
        exists|i: int| 0 <= i < post.albums.len() && (#[trigger] post.albums[i]).id == id,
        forall|i: int, j: int|
            0 <= i < j < post.albums.len() ==> !((#[trigger] post.albums[i]).id == id && (
            #[trigger] post.albums[j]).id == id),
        forall|i: int|
            0 <= i < post.albums.len() && (#[trigger] post.albums[i]).id == id ==> {
                &&& post.albums[i].title == new.title@
                &&& post.albums[i].artist == new.artist@
                &&& (new.cover_url is None ==> post.albums[i].cover_url == default_cover())
            },
{
    let nv = new_album_v(new, pre.next_album_id, created_at);
    assert(post.albums[post.albums.len() - 1] == nv);
    assert forall|i: int|
        0 <= i < post.albums.len() && (#[trigger] post.albums[i]).id == id implies {
        &&& post.albums[i].title == new.title@
        &&& post.albums[i].artist == new.artist@
        &&& (new.cover_url is None ==> post.albums[i].cover_url == default_cover())
    } by {
        if i < pre.albums.len() {
            assert(pre.albums[i].id < pre.next_album_id);
        } else {
            assert(post.albums[i] == nv);
        }
    }
}

/// Two albums cannot share a non-null barcode: after one creation with a
/// barcode is accepted, a second creation with the same barcode fails with
/// `ConstraintViolation` and leaves the store unchanged.
pub proof fn lemma_duplicate_barcode_rejected(
    s0: StoreV,
    s1: StoreV,
    s2: StoreV,
    new1: NewAlbum,
    new2: NewAlbum,
    c1: Seq<char>,
    c2: Seq<char>,
    id1: i64,
    r2: Result<i64, TrackerError>,
    code: Seq<char>,
)
    requires
        add_album_post(s0, s1, new1, c1, Ok(id1)),
        add_album_post(s1, s2, new2, c2, r2),
        opt_view(new1.barcode) == Some(code),
        opt_view(new2.barcode) == Some(code),
    ensures
        r2 == Err::<i64, TrackerError>(TrackerError::ConstraintViolation),
        s2 == s1,
{
    let nv = new_album_v(new1, s0.next_album_id, c1);
    assert(s1.albums[s1.albums.len() - 1] == nv);
    assert(nv.barcode == Some(code));
    assert(barcode_taken(s1.albums, code));
}

/// Deleting an album cascades: no history listing taken afterwards, with
/// any filter, returns a row of that album.
pub proof fn lemma_delete_cascades(
    pre: StoreV,
    post: StoreV,
    id: i64,
    filter: Option<i64>,
    out: Seq<HistoryItemV>,
)
    requires
        delete_album_post(pre, post, id),
        list_history_post(post, filter, out),
    ensures
        forall|k: int| 0 <= k < out.len() ==> (#[trigger] out[k]).album_id != id,
{
    broadcast use vstd::seq_lib::group_filter_ensures;

    let src = history_items_seqs(post.albums, post.sessions, filter);
    let order = choose|order: Seq<int>| ordered_listing(out, src, order);
    assert(permutation_into(out, src, order));
    let sel = selected_sessions(post.sessions, filter);
    let sp = |s: PlaySessionV| s.album_id != id;
    assert(post.sessions == pre.sessions.filter(sp));
    assert forall|m: int| 0 <= m < sel.len() implies (#[trigger] sel[m]).album_id != id by {
        match filter {
            None => {
                assert(sp(pre.sessions.filter(sp)[m]));
            },
            Some(fid) => {
                let pf = |s: PlaySessionV| s.album_id == fid;
                lemma_filter_membership(post.sessions, pf);
                assert(post.sessions.contains(post.sessions.filter(pf)[m]));
                let w = choose|w: int|
                    0 <= w < post.sessions.len() && post.sessions[w] == post.sessions.filter(pf)[m];
                assert(sp(pre.sessions.filter(sp)[w]));
            },
        }
    }
    assert forall|k: int| 0 <= k < out.len() implies (#[trigger] out[k]).album_id != id by {
        assert(out[k] == src[order[k]]);
        assert(src[order[k]] == history_item_v(post.albums, sel[order[k]]));
        assert(sel[order[k]].album_id != id);
    }
}

/// Starting a session while one is already open for the same album fails
/// with `ConflictAlreadyPlaying` and leaves the store unchanged.
pub proof fn lemma_start_while_open_conflicts(
    s0: StoreV,
    s1: StoreV,
    s2: StoreV,
    album_id: i64,
    t1: Seq<char>,
    t2: Seq<char>,
    sid: i64,
    r2: Result<i64, TrackerError>,
)
    requires
        start_session_post(s0, s1, album_id, t1, Ok(sid)),
        start_session_post(s1, s2, album_id, t2, r2),
    ensures
        r2 == Err::<i64, TrackerError>(TrackerError::ConflictAlreadyPlaying),
        s2 == s1,
{
    let nv = new_session_v(s0.next_session_id, album_id, t1, None);
    assert(s1.sessions[s1.sessions.len() - 1] == nv);
    assert(open_for(nv, album_id));
    assert(has_open_session(s1.sessions, album_id));
    assert(has_album_id(s1.albums, album_id));
}

/// After the open session of an album is finished, a new one may be
/// started: with a parsable timestamp, the start succeeds.
pub proof fn lemma_finish_then_start_succeeds(
    s0: StoreV,
    s1: StoreV,
    s2: StoreV,
    album_id: i64,
    f: Seq<char>,
    t: Seq<char>,
    r: Result<i64, TrackerError>,
)
    requires
        s0.wf(),
        finish_session_post(s0, s1, album_id, f, Ok(())),
        start_session_post(s1, s2, album_id, t, r),
        epoch_seconds_of(t) is Some,
    ensures
        r == Ok::<i64, TrackerError>(s1.next_session_id),
{
    let i = choose|i: int| closes_open_at(s0.sessions, s1.sessions, album_id, f, i);
    assert(open_for(s0.sessions[i], album_id));
    assert(has_album_id(s0.albums, s0.sessions[i].album_id));
    assert forall|j: int| 0 <= j < s1.sessions.len() implies !open_for(
        #[trigger] s1.sessions[j],
        album_id,
    ) by {
        if j == i {
            assert(s1.sessions[j].finished_at == Some(f));
        } else {
            assert(s1.sessions[j] == s0.sessions[j]);
            if open_for(s0.sessions[j], album_id) {
                if j < i {
                    assert(!(open_for(s0.sessions[j], s0.sessions[i].album_id)
                        && s0.sessions[i].finished_at is None));
                } else {
                    assert(!(open_for(s0.sessions[i], s0.sessions[j].album_id)
                        && s0.sessions[j].finished_at is None));
                }
            }
        }
    }
    assert(!has_open_session(s1.sessions, album_id));
    assert(has_album_id(s1.albums, album_id));
}

/// Position `a` of the source listing comes before position `b`: a larger
/// start key, or the same key and an earlier log position.  A strict total
/// order on distinct positions.
spec fn pos_before(src: Seq<HistoryItemV>, a: int, b: int) -> bool {
    ts_key(src[a].started_at) > ts_key(src[b].started_at) || (ts_key(src[a].started_at) == ts_key(
        src[b].started_at,
    ) && a < b)
}

/// An injective enumeration of a finite set that has the set's cardinality
/// hits every element of the set.
proof fn lemma_enum_hits_all(s: Set<int>, o: Seq<int>)
    requires
        s.finite(),
        o.len() == s.len(),
        forall|i: int| 0 <= i < o.len() ==> s.contains(#[trigger] o[i]),
        forall|i: int, j: int| 0 <= i < j < o.len() ==> o[i] != o[j],
    ensures
        forall|v: int| s.contains(v) ==> o.contains(v),
{
    broadcast use vstd::set::group_set_axioms;
    broadcast use vstd::seq_lib::seq_to_set_is_finite;

    assert forall|v: int| s.contains(v) implies o.contains(v) by {
        if !o.contains(v) {
            assert(o.no_duplicates());
            o.unique_seq_to_set();
            let t = o.to_set();
            assert forall|x: int| t.contains(x) implies s.remove(v).contains(x) by {
                assert(o.contains(x));
                let i = choose|i: int| 0 <= i < o.len() && o[i] == x;
                assert(s.contains(x));
                assert(x != v);
            }
            assert(t.subset_of(s.remove(v)));
            vstd::set_lib::lemma_len_subset(t, s.remove(v));
            assert(s.remove(v).len() == s.len() - 1);
            assert(false);
        }
    }
}

/// Two enumerations of the same finite set of positions, both strictly
/// sorted by `pos_before`, are the same sequence.
proof fn lemma_stable_enum_unique(src: Seq<HistoryItemV>, s: Set<int>, o1: Seq<int>, o2: Seq<int>)
    requires
        s.finite(),
        o1.len() == s.len(),
        o2.len() == s.len(),
        forall|i: int| 0 <= i < o1.len() ==> s.contains(#[trigger] o1[i]),
        forall|i: int| 0 <= i < o2.len() ==> s.contains(#[trigger] o2[i]),
        forall|i: int, j: int| 0 <= i < j < o1.len() ==> o1[i] != o1[j],
        forall|i: int, j: int| 0 <= i < j < o2.len() ==> o2[i] != o2[j],
        forall|i: int, j: int|
            0 <= i < j < o1.len() ==> pos_before(src, #[trigger] o1[i], #[trigger] o1[j]),
        forall|i: int, j: int|
            0 <= i < j < o2.len() ==> pos_before(src, #[trigger] o2[i], #[trigger] o2[j]),
    ensures
        o1 == o2,
    decreases s.len(),
{
    broadcast use vstd::set::group_set_axioms;

    if s.len() == 0 {
        assert(o1 =~= o2);
    } else {
        lemma_enum_hits_all(s, o1);
        lemma_enum_hits_all(s, o2);
        let a = o1[0];
        let b = o2[0];
        if a != b {
            assert(o1.contains(b));
            let j = choose|j: int| 0 <= j < o1.len() && o1[j] == b;
            assert(j != 0);
            assert(pos_before(src, a, b));
            assert(o2.contains(a));
            let k = choose|k: int| 0 <= k < o2.len() && o2[k] == a;
            assert(k != 0);
            assert(pos_before(src, b, a));
            assert(false);
        }
        let s2 = s.remove(a);
        let t1 = o1.drop_first();
        let t2 = o2.drop_first();
        assert(s.contains(a));
        assert(s2.len() == s.len() - 1);
        assert forall|i: int| 0 <= i < t1.len() implies s2.contains(#[trigger] t1[i]) by {
            assert(t1[i] == o1[i + 1]);
            assert(o1[i + 1] != o1[0]);
        }
        assert forall|i: int| 0 <= i < t2.len() implies s2.contains(#[trigger] t2[i]) by {
            assert(t2[i] == o2[i + 1]);
            assert(o2[i + 1] != o2[0]);
        }
        assert forall|i: int, j: int| 0 <= i < j < t1.len() implies t1[i] != t1[j] by {
            assert(t1[i] == o1[i + 1] && t1[j] == o1[j + 1]);
        }
        assert forall|i: int, j: int| 0 <= i < j < t2.len() implies t2[i] != t2[j] by {
            assert(t2[i] == o2[i + 1] && t2[j] == o2[j + 1]);
        }
        assert forall|i: int, j: int| 0 <= i < j < t1.len() implies pos_before(
            src,
            #[trigger] t1[i],
            #[trigger] t1[j],
        ) by {
            assert(t1[i] == o1[i + 1] && t1[j] == o1[j + 1]);
            assert(pos_before(src, o1[i + 1], o1[j + 1]));
        }
        assert forall|i: int, j: int| 0 <= i < j < t2.len() implies pos_before(
            src,
            #[trigger] t2[i],
            #[trigger] t2[j],
        ) by {
            assert(t2[i] == o2[i + 1] && t2[j] == o2[j + 1]);
            assert(pos_before(src, o2[i + 1], o2[j + 1]));
        }
        lemma_stable_enum_unique(src, s2, t1, t2);
        assert forall|i: int| 0 <= i < o1.len() implies o1[i] == o2[i] by {
            if i > 0 {
                assert(o1[i] == t1[i - 1]);
                assert(o2[i] == t2[i - 1]);
            }
        }
        assert(o1 =~= o2);
    }
}

/// The history listing is deterministic: for a fixed store value and
/// filter, any two results that meet the listing's postcondition are
/// equal.  The tie order pins them: rows are listed by start key
/// descending and, among equal keys, in log order.
pub proof fn lemma_listing_deterministic(
    v: StoreV,
    filter: Option<i64>,
    out1: Seq<HistoryItemV>,
    out2: Seq<HistoryItemV>,
)
    requires
        list_history_post(v, filter, out1),
        list_history_post(v, filter, out2),
    ensures
        out1 == out2,
{
    broadcast use vstd::set::group_set_axioms;

    let src = history_items_seqs(v.albums, v.sessions, filter);
    let o1 = choose|o: Seq<int>| ordered_listing(out1, src, o);
    let o2 = choose|o: Seq<int>| ordered_listing(out2, src, o);
    let n = src.len() as int;
    let s = vstd::set_lib::set_int_range(0, n);
    vstd::set_lib::lemma_int_range(0, n);
    assert forall|i: int, j: int| 0 <= i < j < o1.len() implies pos_before(
        src,
        #[trigger] o1[i],
        #[trigger] o1[j],
    ) by {}
    assert forall|i: int, j: int| 0 <= i < j < o2.len() implies pos_before(
        src,
        #[trigger] o2[i],
        #[trigger] o2[j],
    ) by {}
    lemma_stable_enum_unique(src, s, o1, o2);
    assert forall|i: int| 0 <= i < out1.len() implies out1[i] == out2[i] by {
        assert(out1[i] == src[o1[i]]);
        assert(out2[i] == src[o2[i]]);
    }
    assert(out1 =~= out2);
}

/// An open session (no finish timestamp) with a parsable start timestamp
/// is labelled `"PRESENT"`.
pub proof fn lemma_open_session_label(started: Seq<char>)
    requires
        epoch_seconds_of(started) is Some,
    ensures
        duration_label_spec(started, None) == "PRESENT"@,
{
}

/// A finish timestamp earlier than the start yields the invalid-duration
/// label; the record itself is kept.
pub proof fn lemma_reversed_interval_label(started: Seq<char>, finished: Seq<char>)
    requires
        epoch_seconds_of(started) is Some,
        epoch_seconds_of(finished) is Some,
        epoch_seconds_of(finished)->0 < epoch_seconds_of(started)->0,
    ensures
        duration_label_spec(started, Some(finished)) == "Invalid duration"@,
{
}

} // verus!
