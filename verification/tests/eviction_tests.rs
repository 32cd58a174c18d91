use music_cache::storage::EvictCandidate;
use music_cache::storage::Storage;

fn candidate(id: &str, last_played: Option<u64>, audio: Option<u64>, cover: Option<u64>) -> EvictCandidate {
    EvictCandidate {
        audio_id: id.to_string(),
        last_played,
        audio_size: audio,
        cover_size: cover,
    }
}

#[test]
fn storage_knows_its_paths() {
    let s = Storage::new("/data/app".to_string());
    assert_eq!(s.app_dir, "/data/app");
    assert_eq!(s.config_file, "/data/app/musicfree.json");
}

#[test]
fn usage_sums_each_category() {
    let s = Storage::new("/data/app".to_string());
    let u = s.get_storage_usage(&vec![100, 200, 50], &vec![100, 200], &vec![50]);
    assert_eq!(u.total_bytes, 350);
    assert_eq!(u.audio_bytes, 300);
    assert_eq!(u.cover_bytes, 50);
    assert_eq!(u.audio_count, 2);
}

#[test]
fn usage_of_missing_subtrees_is_zero() {
    let s = Storage::new("/data/app".to_string());
    let u = s.get_storage_usage(&vec![], &vec![], &vec![]);
    assert_eq!(u.total_bytes, 0);
    assert_eq!(u.audio_bytes, 0);
    assert_eq!(u.cover_bytes, 0);
    assert_eq!(u.audio_count, 0);
}

#[test]
fn cleanup_within_budget_is_empty() {
    let s = Storage::new("/data/app".to_string());
    let entries = vec![candidate("a", None, Some(1000), None)];
    // 1 MB of usage against a 2 MB budget: nothing to do, and the empty
    // result says so rather than failing.
    let r = s.cleanup_cache(&entries, 1 << 20, 2);
    assert_eq!(r.deleted_files, 0);
    assert_eq!(r.freed_bytes, 0);
    assert!(r.deleted_audios.is_empty());
}

#[test]
fn eviction_prefers_never_played_in_catalog_order() {
    let s = Storage::new("/data/app".to_string());
    // Catalog order A, B, C, D with last-played stamps [None, 10, 5, None]:
    // the victim order starts with the never-played A and D.
    let entries = vec![
        candidate("A", None, Some(600), None),
        candidate("B", Some(10), Some(600), None),
        candidate("C", Some(5), Some(600), None),
        candidate("D", None, Some(600), None),
    ];
    // Total 2400 bytes over a 1200-byte budget (0 MB budget would evict
    // everything, so drive the sizes directly): freeing exactly two entries
    // crosses the threshold.
    let r = s.cleanup_cache(&entries, 2400, 0);
    // A zero-megabyte budget needs 2400 bytes freed: all four would go; use
    // a tailored call instead.
    assert_eq!(r.deleted_audios.len(), 4);
    assert_eq!(r.deleted_audios[0], "A");
    assert_eq!(r.deleted_audios[1], "D");
    assert_eq!(r.deleted_audios[2], "C");
    assert_eq!(r.deleted_audios[3], "B");
}

#[test]
fn eviction_stops_at_first_sufficient_point() {
    let s = Storage::new("/data/app".to_string());
    let entries = vec![
        candidate("A", None, Some(600 << 20), None),
        candidate("B", Some(10), Some(600 << 20), None),
        candidate("C", Some(5), Some(600 << 20), None),
        candidate("D", None, Some(600 << 20), None),
    ];
    // 2400 MB in use against a 1200 MB budget: exactly the two never-played
    // entries A and D must go, in catalog order, and nothing more.
    let r = s.cleanup_cache(&entries, 2400 << 20, 1200);
    assert_eq!(r.deleted_audios, vec!["A".to_string(), "D".to_string()]);
    assert_eq!(r.deleted_files, 2);
    assert_eq!(r.freed_bytes, 1200 << 20);
}

#[test]
fn eviction_counts_covers_and_tolerates_missing_files() {
    let s = Storage::new("/data/app".to_string());
    let entries = vec![
        candidate("A", None, None, Some(100 << 20)),
        candidate("B", Some(3), Some(200 << 20), Some(50 << 20)),
    ];
    // 300 MB in use against a 10 MB budget: everything goes. A's audio file
    // is already missing — not an error, and not a deleted file.
    let r = s.cleanup_cache(&entries, 300 << 20, 10);
    assert_eq!(r.deleted_audios, vec!["A".to_string(), "B".to_string()]);
    assert_eq!(r.deleted_files, 3);
    assert_eq!(r.freed_bytes, 350 << 20);
}

#[test]
fn eviction_exhausts_the_list_when_the_budget_is_not_met() {
    let s = Storage::new("/data/app".to_string());
    let entries = vec![candidate("A", Some(1), Some(1 << 20), None)];
    // 100 MB in use, 1 MB freed at most, 2 MB budget: the list is exhausted
    // and the shortfall is not an error.
    let r = s.cleanup_cache(&entries, 100 << 20, 2);
    assert_eq!(r.deleted_audios, vec!["A".to_string()]);
    assert_eq!(r.deleted_files, 1);
    assert_eq!(r.freed_bytes, 1 << 20);
}

#[test]
fn victim_order_sorts_stably_by_last_played() {
    let entries = vec![
        candidate("w", Some(9), None, None),
        candidate("x", Some(2), None, None),
        candidate("y", Some(2), None, None),
        candidate("z", None, None, None),
    ];
    let order = music_cache::storage::victim_order(&entries);
    assert_eq!(order, vec![3, 1, 2, 0]);
}
