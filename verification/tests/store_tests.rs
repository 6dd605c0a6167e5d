use record_tracker::model::NewAlbum;
use record_tracker::model::TrackerError;
use record_tracker::store::Store;

fn album_input(title: &str, artist: &str) -> NewAlbum {
    NewAlbum {
        title: title.to_string(),
        artist: artist.to_string(),
        cover_url: None,
        barcode: None,
    }
}

fn album_with_barcode(title: &str, artist: &str, barcode: &str) -> NewAlbum {
    NewAlbum {
        title: title.to_string(),
        artist: artist.to_string(),
        cover_url: None,
        barcode: Some(barcode.to_string()),
    }
}

const T0: &str = "2024-01-01T00:00:00Z";
const T1: &str = "2024-01-01T01:02:03Z";
const T2: &str = "2024-02-01T00:00:00Z";
const T3: &str = "2024-03-01T00:00:00Z";

#[test]
fn add_album_lists_default_cover() {
    let mut store = Store::new();
    let id = store
        .add_album_at(album_input("Blue Train", "John Coltrane"), T0.to_string())
        .unwrap();
    let albums = store.list_albums();
    let matching: Vec<_> = albums.iter().filter(|a| a.id == id).collect();
    assert_eq!(matching.len(), 1);
    assert_eq!(matching[0].title, "Blue Train");
    assert_eq!(matching[0].artist, "John Coltrane");
    assert_eq!(matching[0].cover_url, "default-cover.jpg");
    assert_eq!(matching[0].created_at, T0);
    assert!(matching[0].barcode.is_none());
}

#[test]
fn add_album_explicit_cover() {
    let mut store = Store::new();
    let new = NewAlbum {
        title: "Kind of Blue".to_string(),
        artist: "Miles Davis".to_string(),
        cover_url: Some("kob.jpg".to_string()),
        barcode: None,
    };
    let id = store.add_album_at(new, T0.to_string()).unwrap();
    let albums = store.list_albums();
    assert_eq!(albums.len(), 1);
    assert_eq!(albums[0].id, id);
    assert_eq!(albums[0].cover_url, "kob.jpg");
}

#[test]
fn add_album_now_assigns_fresh_ids() {
    let mut store = Store::new();
    assert!(store.has_id_headroom());
    let a = store.add_album(album_input("A", "X")).unwrap();
    let b = store.add_album(album_input("B", "Y")).unwrap();
    assert_ne!(a, b);
    assert_eq!(store.list_albums().len(), 2);
}

#[test]
fn empty_title_rejected() {
    let mut store = Store::new();
    let r = store.add_album_at(album_input("", "X"), T0.to_string());
    assert_eq!(r, Err(TrackerError::ConstraintViolation));
    assert!(store.list_albums().is_empty());
    let r = store.add_album(album_input("", "X"));
    assert_eq!(r, Err(TrackerError::ConstraintViolation));
    assert!(store.list_albums().is_empty());
}

#[test]
fn empty_artist_rejected() {
    let mut store = Store::new();
    let r = store.add_album_at(album_input("A", ""), T0.to_string());
    assert_eq!(r, Err(TrackerError::ConstraintViolation));
    assert!(store.list_albums().is_empty());
}

#[test]
fn duplicate_barcode_rejected() {
    let mut store = Store::new();
    store
        .add_album_at(album_with_barcode("A", "X", "0123456789012"), T0.to_string())
        .unwrap();
    let r = store.add_album_at(album_with_barcode("B", "Y", "0123456789012"), T0.to_string());
    assert_eq!(r, Err(TrackerError::ConstraintViolation));
    assert_eq!(store.list_albums().len(), 1);
}

#[test]
fn distinct_barcodes_accepted() {
    let mut store = Store::new();
    store
        .add_album_at(album_with_barcode("A", "X", "111"), T0.to_string())
        .unwrap();
    store
        .add_album_at(album_with_barcode("B", "Y", "222"), T0.to_string())
        .unwrap();
    assert_eq!(store.list_albums().len(), 2);
}

#[test]
fn find_album_by_barcode_hit() {
    let mut store = Store::new();
    store
        .add_album_at(album_with_barcode("A", "X", "111"), T0.to_string())
        .unwrap();
    let id = store
        .add_album_at(album_with_barcode("B", "Y", "222"), T0.to_string())
        .unwrap();
    let found = store.find_album_by_barcode(&"222".to_string()).unwrap();
    assert_eq!(found.id, id);
    assert_eq!(found.title, "B");
}

#[test]
fn find_album_by_barcode_miss() {
    let mut store = Store::new();
    store
        .add_album_at(album_with_barcode("A", "X", "111"), T0.to_string())
        .unwrap();
    assert!(store.find_album_by_barcode(&"999".to_string()).is_none());
}

#[test]
fn delete_album_cascades_to_sessions() {
    let mut store = Store::new();
    let a = store.add_album_at(album_input("A", "X"), T0.to_string()).unwrap();
    let b = store.add_album_at(album_input("B", "Y"), T0.to_string()).unwrap();
    store
        .log_completed_session(a, T0.to_string(), T1.to_string())
        .unwrap();
    store
        .log_completed_session(a, T2.to_string(), T3.to_string())
        .unwrap();
    store
        .log_completed_session(b, T0.to_string(), T1.to_string())
        .unwrap();
    store.delete_album(a);
    assert_eq!(store.list_albums().len(), 1);
    let history = store.list_history(None);
    assert_eq!(history.len(), 1);
    assert_eq!(history[0].album_id, b);
    assert!(store.list_history(Some(a)).is_empty());
}

#[test]
fn delete_missing_album_is_noop() {
    let mut store = Store::new();
    store.add_album_at(album_input("A", "X"), T0.to_string()).unwrap();
    store.delete_album(42);
    assert_eq!(store.list_albums().len(), 1);
}

#[test]
fn start_session_twice_conflicts() {
    let mut store = Store::new();
    let a = store.add_album_at(album_input("A", "X"), T0.to_string()).unwrap();
    store.start_session_at(a, T0.to_string()).unwrap();
    let r = store.start_session_at(a, T2.to_string());
    assert_eq!(r, Err(TrackerError::ConflictAlreadyPlaying));
    let r = store.start_session(a, None);
    assert_eq!(r, Err(TrackerError::ConflictAlreadyPlaying));
}

#[test]
fn finish_then_start_succeeds() {
    let mut store = Store::new();
    let a = store.add_album_at(album_input("A", "X"), T0.to_string()).unwrap();
    store.start_session_at(a, T0.to_string()).unwrap();
    store.finish_session_at(a, T1.to_string()).unwrap();
    let r = store.start_session_at(a, T2.to_string());
    assert!(r.is_ok());
    let history = store.list_history(None);
    assert_eq!(history.len(), 2);
}

#[test]
fn finish_without_open_session_fails_and_preserves_state() {
    let mut store = Store::new();
    let a = store.add_album_at(album_input("A", "X"), T0.to_string()).unwrap();
    store
        .log_completed_session(a, T0.to_string(), T1.to_string())
        .unwrap();
    let before: Vec<_> = store
        .list_history(None)
        .iter()
        .map(|h| (h.session_id, h.started_at.clone(), h.finished_at.clone()))
        .collect();
    let r = store.finish_session_at(a, T2.to_string());
    assert_eq!(r, Err(TrackerError::NoOpenSession));
    let r = store.finish_session(a, None);
    assert_eq!(r, Err(TrackerError::NoOpenSession));
    let after: Vec<_> = store
        .list_history(None)
        .iter()
        .map(|h| (h.session_id, h.started_at.clone(), h.finished_at.clone()))
        .collect();
    assert_eq!(before, after);
    assert_eq!(store.list_albums().len(), 1);
}

#[test]
fn finish_checks_open_session_before_timestamp() {
    // With nothing open the error is NoOpenSession whatever the
    // timestamp; the referenced state is checked first.
    let mut store = Store::new();
    let a = store.add_album_at(album_input("A", "X"), T0.to_string()).unwrap();
    let r = store.finish_session_at(a, "not a timestamp".to_string());
    assert_eq!(r, Err(TrackerError::NoOpenSession));
}

#[test]
fn stable_order_for_equal_start_keys() {
    // Sessions with the same start timestamp keep their log order.
    let mut store = Store::new();
    let a = store.add_album_at(album_input("A", "X"), T0.to_string()).unwrap();
    let s1 = store
        .log_completed_session(a, T0.to_string(), T1.to_string())
        .unwrap();
    let s2 = store
        .log_completed_session(a, T0.to_string(), T2.to_string())
        .unwrap();
    let s3 = store
        .log_completed_session(a, T2.to_string(), T3.to_string())
        .unwrap();
    let history = store.list_history(None);
    assert_eq!(history.len(), 3);
    assert_eq!(history[0].session_id, s3);
    assert_eq!(history[1].session_id, s1);
    assert_eq!(history[2].session_id, s2);
}

#[test]
fn start_session_on_missing_album_fails() {
    let mut store = Store::new();
    let r = store.start_session_at(7, T0.to_string());
    assert_eq!(r, Err(TrackerError::NotFound));
}

#[test]
fn log_session_on_missing_album_fails() {
    let mut store = Store::new();
    let r = store.log_completed_session(7, T0.to_string(), T1.to_string());
    assert_eq!(r, Err(TrackerError::NotFound));
}

#[test]
fn malformed_timestamps_rejected_at_boundary() {
    let mut store = Store::new();
    let a = store.add_album_at(album_input("A", "X"), T0.to_string()).unwrap();
    let r = store.start_session_at(a, "yesterday".to_string());
    assert_eq!(r, Err(TrackerError::MalformedTimestamp));
    let r = store.log_completed_session(a, T0.to_string(), "later".to_string());
    assert_eq!(r, Err(TrackerError::MalformedTimestamp));
    let r = store.log_completed_session(a, "2024-01-01T00:00:00".to_string(), T1.to_string());
    assert_eq!(r, Err(TrackerError::MalformedTimestamp));
    store.start_session_at(a, T0.to_string()).unwrap();
    let r = store.finish_session_at(a, "never".to_string());
    assert_eq!(r, Err(TrackerError::MalformedTimestamp));
    assert_eq!(store.list_history(None).len(), 1);
}

#[test]
fn start_session_defaults_to_now() {
    let mut store = Store::new();
    let a = store.add_album_at(album_input("A", "X"), T0.to_string()).unwrap();
    store.start_session(a, None).unwrap();
    let history = store.list_history(None);
    assert_eq!(history.len(), 1);
    assert_eq!(history[0].duration, "PRESENT");
    assert!(history[0].finished_at.is_none());
}

#[test]
fn finish_session_defaults_to_now() {
    let mut store = Store::new();
    let a = store.add_album_at(album_input("A", "X"), T0.to_string()).unwrap();
    store.start_session_at(a, T0.to_string()).unwrap();
    store.finish_session(a, None).unwrap();
    let history = store.list_history(None);
    assert_eq!(history.len(), 1);
    assert!(history[0].finished_at.is_some());
    assert_ne!(history[0].duration, "PRESENT");
}

#[test]
fn history_is_sorted_by_start_descending() {
    let mut store = Store::new();
    let a = store.add_album_at(album_input("A", "X"), T0.to_string()).unwrap();
    store
        .log_completed_session(a, T2.to_string(), T3.to_string())
        .unwrap();
    store
        .log_completed_session(a, T0.to_string(), T1.to_string())
        .unwrap();
    store
        .log_completed_session(a, T3.to_string(), T3.to_string())
        .unwrap();
    let history = store.list_history(None);
    assert_eq!(history.len(), 3);
    assert_eq!(history[0].started_at, T3);
    assert_eq!(history[1].started_at, T2);
    assert_eq!(history[2].started_at, T0);
}

#[test]
fn history_joins_album_fields() {
    let mut store = Store::new();
    let new = NewAlbum {
        title: "Blue Train".to_string(),
        artist: "John Coltrane".to_string(),
        cover_url: Some("bt.jpg".to_string()),
        barcode: None,
    };
    let a = store.add_album_at(new, T0.to_string()).unwrap();
    let sid = store
        .log_completed_session(a, T0.to_string(), T1.to_string())
        .unwrap();
    let history = store.list_history(None);
    assert_eq!(history.len(), 1);
    assert_eq!(history[0].session_id, sid);
    assert_eq!(history[0].album_id, a);
    assert_eq!(history[0].title, "Blue Train");
    assert_eq!(history[0].artist, "John Coltrane");
    assert_eq!(history[0].cover_url, "bt.jpg");
    assert_eq!(history[0].started_at, T0);
    assert_eq!(history[0].finished_at.as_deref(), Some(T1));
}

#[test]
fn history_filter_selects_one_album() {
    let mut store = Store::new();
    let a = store.add_album_at(album_input("A", "X"), T0.to_string()).unwrap();
    let b = store.add_album_at(album_input("B", "Y"), T0.to_string()).unwrap();
    store
        .log_completed_session(a, T0.to_string(), T1.to_string())
        .unwrap();
    store
        .log_completed_session(b, T2.to_string(), T3.to_string())
        .unwrap();
    let only_a = store.list_history(Some(a));
    assert_eq!(only_a.len(), 1);
    assert_eq!(only_a[0].album_id, a);
    let all = store.list_history(None);
    assert_eq!(all.len(), 2);
}

#[test]
fn history_duration_exact_value() {
    let mut store = Store::new();
    let a = store.add_album_at(album_input("A", "X"), T0.to_string()).unwrap();
    store
        .log_completed_session(a, T0.to_string(), T1.to_string())
        .unwrap();
    let history = store.list_history(None);
    assert_eq!(history[0].duration, "1hr, 2min, 3sec");
}

#[test]
fn reversed_record_keeps_listing_intact() {
    let mut store = Store::new();
    let a = store.add_album_at(album_input("A", "X"), T0.to_string()).unwrap();
    store
        .log_completed_session(a, T2.to_string(), T0.to_string())
        .unwrap();
    store
        .log_completed_session(a, T0.to_string(), T1.to_string())
        .unwrap();
    let history = store.list_history(None);
    assert_eq!(history.len(), 2);
    assert_eq!(history[0].started_at, T2);
    assert_eq!(history[0].duration, "Invalid duration");
    assert_eq!(history[1].started_at, T0);
    assert_eq!(history[1].duration, "1hr, 2min, 3sec");
}
