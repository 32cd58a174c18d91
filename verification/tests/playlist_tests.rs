use music_cache::audio::Audio;
use music_cache::audio::LocalAudio;
use music_cache::error::AppError;
use music_cache::playlist::LocalPlaylist;
use music_cache::playlist::Playlist;
use music_cache::playlist_manager::PlaylistManager;

fn entry(id: &str, duration: Option<u64>) -> LocalAudio {
    LocalAudio::new(
        format!("assets/bili/audios/{}.mp3", id),
        None,
        Audio {
            id: id.to_string(),
            title: format!("Track {}", id),
            download_url: format!("https://example.test/{}", id),
            local_url: None,
            author: vec![],
            cover: None,
            tags: vec![],
            duration,
            platform: "bili".to_string(),
            date: 0,
            format: None,
        },
        0,
    )
}

fn ids(p: &LocalPlaylist) -> Vec<String> {
    p.audios.iter().map(|a| a.audio.id.clone()).collect()
}

#[test]
fn new_playlist_has_a_hashed_identifier() {
    let p = LocalPlaylist::new("road trip".to_string(), "bili".to_string(), 42);
    assert_eq!(p.id.len(), 32);
    assert!(p.id.chars().all(|c| c.is_ascii_hexdigit()));
    assert_ne!(p.id, "road trip");
    assert_eq!(p.name, "road trip");
    assert_eq!(p.created_at, 42);
    assert_eq!(p.updated_at, 42);
    assert!(p.audios.is_empty());
    // The same name always derives the same identifier.
    let q = LocalPlaylist::new("road trip".to_string(), "web".to_string(), 43);
    assert_eq!(p.id, q.id);
}

#[test]
fn playlist_add_and_remove_stamp_updates() {
    let mut p = LocalPlaylist::new("mix".to_string(), "bili".to_string(), 1);
    p.add_audio(entry("a", None), 5);
    assert_eq!(p.updated_at, 5);
    p.add_audio(entry("b", None), 6);
    assert!(p.remove_audio("a", 9));
    assert_eq!(p.updated_at, 9);
    assert_eq!(ids(&p), vec!["b".to_string()]);
    assert!(!p.remove_audio("a", 11));
    assert_eq!(p.updated_at, 9);
}

#[test]
fn total_duration_skips_unknown_durations() {
    let mut p = LocalPlaylist::new("mix".to_string(), "bili".to_string(), 1);
    p.add_audio(entry("a", Some(100)), 2);
    p.add_audio(entry("b", None), 3);
    p.add_audio(entry("c", Some(50)), 4);
    assert_eq!(p.total_duration(), 150);
}

#[test]
fn total_duration_saturates() {
    let mut p = LocalPlaylist::new("mix".to_string(), "bili".to_string(), 1);
    p.add_audio(entry("a", Some(u64::MAX)), 2);
    p.add_audio(entry("b", Some(100)), 3);
    assert_eq!(p.total_duration(), u64::MAX);
}

#[test]
fn remote_playlist_counts_its_audios() {
    let p = Playlist {
        title: Some("remote".to_string()),
        cover: None,
        audios: vec![],
        platform: "bili".to_string(),
        total_duration: None,
    };
    assert_eq!(p.total_audio_count(), 0);
}

#[test]
fn manager_create_and_rename() {
    let p = PlaylistManager.create_playlist("fresh", "bili", 10).unwrap();
    assert_eq!(p.name, "fresh");
    let mut p = p;
    PlaylistManager::rename_playlist(&mut p, "renamed".to_string(), 11);
    assert_eq!(p.name, "renamed");
    assert_eq!(p.updated_at, 11);
    // Renaming keeps the identifier derived from the original name.
    let fresh_again = PlaylistManager.create_playlist("fresh", "bili", 12).unwrap();
    assert_eq!(p.id, fresh_again.id);
}

#[test]
fn adding_a_duplicate_entry_is_a_no_op() {
    let mut p = LocalPlaylist::new("mix".to_string(), "bili".to_string(), 1);
    PlaylistManager::add_audio_to_playlist(&mut p, entry("a", None), 2).unwrap();
    PlaylistManager::add_audio_to_playlist(&mut p, entry("b", None), 3).unwrap();
    PlaylistManager::add_audio_to_playlist(&mut p, entry("a", None), 4).unwrap();
    assert_eq!(ids(&p), vec!["a".to_string(), "b".to_string()]);
    assert_eq!(p.updated_at, 3);
}

#[test]
fn reorder_moves_and_clamps() {
    let mut p = LocalPlaylist::new("mix".to_string(), "bili".to_string(), 1);
    for id in ["a", "b", "c"] {
        p.add_audio(entry(id, None), 2);
    }
    PlaylistManager::reorder_playlist(&mut p, "a", 2, 9).unwrap();
    assert_eq!(ids(&p), vec!["b".to_string(), "c".to_string(), "a".to_string()]);
    assert_eq!(p.updated_at, 9);
    // An out-of-range position clamps to the end rather than failing.
    PlaylistManager::reorder_playlist(&mut p, "b", 99, 10).unwrap();
    assert_eq!(ids(&p), vec!["c".to_string(), "a".to_string(), "b".to_string()]);
    // Moving an entry onto its own position changes nothing.
    PlaylistManager::reorder_playlist(&mut p, "c", 0, 11).unwrap();
    assert_eq!(p.updated_at, 10);
    match PlaylistManager::reorder_playlist(&mut p, "zzz", 0, 12) {
        Err(AppError::AudioNotFound(id)) => assert_eq!(id, "zzz"),
        other => panic!("expected a missing-audio error, got {:?}", other),
    }
}

#[test]
fn duplicate_playlist_copies_under_a_new_name() {
    let mut p = LocalPlaylist::new("mix".to_string(), "bili".to_string(), 1);
    p.description = Some("late night".to_string());
    p.add_audio(entry("a", None), 2);
    let copy = PlaylistManager.duplicate_playlist(&p, 50).unwrap();
    assert_eq!(copy.name, "mix (Copy)");
    assert_ne!(copy.id, p.id);
    assert_eq!(copy.description, p.description);
    assert_eq!(ids(&copy), ids(&p));
    assert_eq!(copy.created_at, 50);
}

#[test]
fn merge_appends_only_new_entries() {
    let mut target = LocalPlaylist::new("mix".to_string(), "bili".to_string(), 1);
    target.add_audio(entry("a", None), 2);
    target.add_audio(entry("b", None), 2);
    let mut source = LocalPlaylist::new("other".to_string(), "bili".to_string(), 1);
    source.add_audio(entry("b", None), 3);
    source.add_audio(entry("c", None), 3);
    source.add_audio(entry("c", None), 3);
    PlaylistManager.merge_playlists(&mut target, &source, 9).unwrap();
    assert_eq!(
        ids(&target),
        vec!["a".to_string(), "b".to_string(), "c".to_string()]
    );
    assert_eq!(target.updated_at, 9);
}

#[test]
fn shuffle_keeps_exactly_the_same_entries() {
    let mut p = LocalPlaylist::new("mix".to_string(), "bili".to_string(), 1);
    for id in ["a", "b", "c", "d", "e", "f"] {
        p.add_audio(entry(id, None), 2);
    }
    let mut before = ids(&p);
    PlaylistManager::shuffle_playlist(&mut p, 77);
    let mut after = ids(&p);
    assert_eq!(p.updated_at, 77);
    assert_eq!(after.len(), 6);
    before.sort();
    after.sort();
    assert_eq!(before, after);
}

#[test]
fn remove_through_the_manager_reports_the_outcome() {
    let mut p = LocalPlaylist::new("mix".to_string(), "bili".to_string(), 1);
    p.add_audio(entry("a", None), 2);
    assert!(PlaylistManager::remove_audio_from_playlist(&mut p, "a", 5).unwrap());
    assert!(!PlaylistManager::remove_audio_from_playlist(&mut p, "a", 6).unwrap());
}
