use radio_sync::playlist::PlaylistEntry;
use radio_sync::synchronizer::{ItemOutcome, Synchronizer};

fn entry(artist: &str, title: &str) -> PlaylistEntry {
    PlaylistEntry { artist: artist.to_string(), title: title.to_string() }
}

#[test]
fn builds_queries_from_artist_and_title() {
    let e = entry("LYNKS", "Tennis Song");
    assert_eq!(e.track_query(), "LYNKS Tennis Song".to_string());
}

#[test]
fn an_empty_playlist_synchronizes_to_zero_additions() {
    let sync = Synchronizer::new(Vec::new());
    assert!(sync.next_query().is_none());
    assert_eq!(sync.added_count(), 0);
    assert_eq!(sync.missed_count(), 0);
    assert!(!sync.is_aborted());
}

#[test]
fn a_miss_is_skipped_and_the_run_continues() {
    let entries = vec![entry("A", "1"), entry("B", "2"), entry("C", "3")];
    let mut sync = Synchronizer::new(entries);

    assert_eq!(sync.next_query().unwrap(), "A 1".to_string());
    let msg = sync.record(ItemOutcome::Added { name: "One".to_string() }).unwrap();
    assert_eq!(msg, "- Added track: One".to_string());

    assert_eq!(sync.next_query().unwrap(), "B 2".to_string());
    let msg = sync.record(ItemOutcome::NotFound).unwrap();
    assert_eq!(msg, "- Track not found: B 2".to_string());

    assert_eq!(sync.next_query().unwrap(), "C 3".to_string());
    let msg = sync.record(ItemOutcome::Added { name: "Three".to_string() }).unwrap();
    assert_eq!(msg, "- Added track: Three".to_string());

    assert!(sync.next_query().is_none());
    assert_eq!(sync.added_count(), 2);
    assert_eq!(sync.missed_count(), 1);
    assert_eq!(sync.attempted_count(), 3);
    assert!(!sync.is_aborted());
}

#[test]
fn a_transport_failure_aborts_the_remaining_entries() {
    let entries = vec![entry("A", "1"), entry("B", "2"), entry("C", "3")];
    let mut sync = Synchronizer::new(entries);

    assert_eq!(sync.next_query().unwrap(), "A 1".to_string());
    sync.record(ItemOutcome::Added { name: "One".to_string() }).unwrap();

    assert_eq!(sync.next_query().unwrap(), "B 2".to_string());
    assert!(sync.record(ItemOutcome::TransportFailed).is_none());

    // the third entry is never attempted
    assert!(sync.next_query().is_none());
    assert!(sync.is_aborted());
    assert_eq!(sync.added_count(), 1);
    assert_eq!(sync.missed_count(), 0);
    assert_eq!(sync.attempted_count(), 2);
}
