use p2boards::cache::{cache_leaderboard, canonical_snapshot, snapshot_change, SnapshotStore};

#[test]
fn volatile_field_is_cut_out() {
    assert_eq!(
        canonical_snapshot("a=1,totalLeaderboardEntries=500,b=2"),
        b"a=1,b=2".to_vec()
    );
}

#[test]
fn snapshot_without_the_field_is_already_canonical() {
    assert_eq!(canonical_snapshot("a=1,b=2"), b"a=1,b=2".to_vec());
    assert_eq!(canonical_snapshot(""), Vec::<u8>::new());
}

#[test]
fn field_at_the_end_is_cut_to_the_end() {
    assert_eq!(
        canonical_snapshot("a=1,totalLeaderboardEntries=500"),
        b"a=1,".to_vec()
    );
}

#[test]
fn only_the_first_occurrence_is_cut() {
    assert_eq!(
        canonical_snapshot(
            "{\"totalLeaderboardEntries\":12,\"x\":1,\"totalLeaderboardEntries\":13}"
        ),
        b"{\"\"x\":1,\"totalLeaderboardEntries\":13}".to_vec()
    );
}

#[test]
fn non_ascii_text_is_kept_byte_for_byte() {
    assert_eq!(
        canonical_snapshot("name=Zoë,totalLeaderboardEntries=9,é=1"),
        "name=Zoë,é=1".as_bytes().to_vec()
    );
}

#[test]
fn first_sighting_is_a_change() {
    assert_eq!(snapshot_change(None, "a=1"), Some(b"a=1".to_vec()));
}

#[test]
fn equal_canonical_text_is_no_change() {
    assert_eq!(
        snapshot_change(Some(b"a=1,b=2"), "a=1,totalLeaderboardEntries=7,b=2"),
        None
    );
}

#[test]
fn different_canonical_text_is_a_change() {
    assert_eq!(
        snapshot_change(Some(b"a=1,b=2"), "a=1,totalLeaderboardEntries=7,b=3"),
        Some(b"a=1,b=3".to_vec())
    );
}

#[test]
fn same_text_twice_changes_then_not() {
    let mut store = SnapshotStore::new();
    let text = "a=1,totalLeaderboardEntries=500,b=2";
    assert!(cache_leaderboard(&mut store, 47458, text));
    assert!(!cache_leaderboard(&mut store, 47458, text));
    assert_eq!(store.get(47458), Some(&b"a=1,b=2".to_vec()));
}

#[test]
fn entry_count_change_alone_is_noise() {
    let mut store = SnapshotStore::new();
    assert!(cache_leaderboard(&mut store, 1, "a=1,totalLeaderboardEntries=500,b=2"));
    assert!(!cache_leaderboard(&mut store, 1, "a=1,totalLeaderboardEntries=501,b=2"));
}

#[test]
fn new_content_after_repeats_overwrites() {
    let mut store = SnapshotStore::new();
    let old = "a=1,totalLeaderboardEntries=500,b=2";
    assert!(cache_leaderboard(&mut store, 5, old));
    assert!(!cache_leaderboard(&mut store, 5, old));
    assert!(cache_leaderboard(&mut store, 5, "a=1,totalLeaderboardEntries=500,b=3"));
    assert_eq!(store.get(5), Some(&b"a=1,b=3".to_vec()));
    assert!(!cache_leaderboard(&mut store, 5, "a=1,totalLeaderboardEntries=2,b=3"));
}

#[test]
fn leaderboards_are_kept_apart() {
    let mut store = SnapshotStore::new();
    assert!(cache_leaderboard(&mut store, 1, "x"));
    assert!(cache_leaderboard(&mut store, 2, "x"));
    assert!(!cache_leaderboard(&mut store, 1, "x"));
    assert_eq!(store.get(3), None);
}

#[test]
fn put_replaces_the_stored_text() {
    let mut store = SnapshotStore::new();
    store.put(9, b"old".to_vec());
    store.put(9, b"new".to_vec());
    assert_eq!(store.get(9), Some(&b"new".to_vec()));
}

#[test]
fn value_between_two_labels_is_cut_with_the_closing_label() {
    assert_eq!(
        canonical_snapshot("<totalLeaderboardEntries>500</totalLeaderboardEntries><entry>a</entry>"),
        b"<><entry>a</entry>".to_vec()
    );
    assert_eq!(
        canonical_snapshot("head totalLeaderboardEntries 500 totalLeaderboardEntries tail"),
        b"head  tail".to_vec()
    );
}

#[test]
fn boundary_before_closing_label_ends_the_field() {
    assert_eq!(
        canonical_snapshot("a totalLeaderboardEntries=5,b totalLeaderboardEntries c"),
        b"a b totalLeaderboardEntries c".to_vec()
    );
}

#[test]
fn tagged_snapshots_still_detect_new_entries() {
    let mut store = SnapshotStore::new();
    let first = "<totalLeaderboardEntries>500</totalLeaderboardEntries><entry>a</entry>";
    let noise = "<totalLeaderboardEntries>501</totalLeaderboardEntries><entry>a</entry>";
    let newer = "<totalLeaderboardEntries>501</totalLeaderboardEntries><entry>b</entry>";
    assert!(cache_leaderboard(&mut store, 7, first));
    assert!(!cache_leaderboard(&mut store, 7, noise));
    assert!(cache_leaderboard(&mut store, 7, newer));
    assert_eq!(store.get(7), Some(&b"<><entry>b</entry>".to_vec()));
}
