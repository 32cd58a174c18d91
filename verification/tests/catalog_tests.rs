use music_cache::audio::Audio;
use music_cache::audio::LocalAudio;
use music_cache::catalog::Config;
use music_cache::playlist::LocalPlaylist;

fn asset(id: &str, title: &str) -> Audio {
    Audio {
        id: id.to_string(),
        title: title.to_string(),
        download_url: format!("https://example.test/{}", id),
        local_url: None,
        author: vec!["Someone".to_string()],
        cover: None,
        tags: vec![],
        duration: Some(180),
        platform: "bili".to_string(),
        date: 1_700_000_000,
        format: None,
    }
}

fn entry(id: &str, title: &str) -> LocalAudio {
    LocalAudio::new(
        format!("assets/bili/audios/{}.mp3", id),
        None,
        asset(id, title),
        1_700_000_100,
    )
}

#[test]
fn new_catalog_has_defaults() {
    let c = Config::new();
    assert_eq!(c.audios.len(), 0);
    assert_eq!(c.playlists.len(), 0);
    assert!(c.settings.auto_download_cover);
    assert_eq!(c.settings.default_audio_format, "mp3");
    assert!(c.settings.download_path.is_none());
    assert!(c.settings.max_cache_size.is_none());
}

#[test]
fn add_audio_appends_in_order() {
    let mut c = Config::new();
    c.add_audio(entry("a", "First"));
    c.add_audio(entry("b", "Second"));
    assert_eq!(c.audios.len(), 2);
    assert_eq!(c.audios[0].audio.id, "a");
    assert_eq!(c.audios[1].audio.id, "b");
}

#[test]
fn duplicate_add_is_a_no_op() {
    let mut c = Config::new();
    c.add_audio(entry("a", "First"));
    c.add_audio(entry("b", "Second"));
    c.add_audio(entry("a", "Renamed duplicate"));
    assert_eq!(c.audios.len(), 2);
    assert_eq!(c.audios[0].audio.id, "a");
    assert_eq!(c.audios[0].audio.title, "First");
    assert_eq!(c.audios[1].audio.id, "b");
}

#[test]
fn remove_audio_reports_whether_anything_left() {
    let mut c = Config::new();
    c.add_audio(entry("a", "First"));
    c.add_audio(entry("b", "Second"));
    assert!(c.remove_audio("a"));
    assert_eq!(c.audios.len(), 1);
    assert_eq!(c.audios[0].audio.id, "b");
    assert!(!c.remove_audio("zzz"));
    assert_eq!(c.audios.len(), 1);
}

#[test]
fn find_audio_returns_first_match() {
    let mut c = Config::new();
    c.add_audio(entry("a", "First"));
    c.add_audio(entry("b", "Second"));
    assert!(c.find_audio("b").is_some());
    assert_eq!(c.find_audio("b").unwrap().audio.title, "Second");
    assert!(c.find_audio("missing").is_none());
}

#[test]
fn playlists_add_remove_find() {
    let mut c = Config::new();
    let p = LocalPlaylist::new("road trip".to_string(), "bili".to_string(), 7);
    let id = p.id.clone();
    c.add_playlist(p);
    assert_eq!(c.playlists.len(), 1);
    // Adding the same identifier again changes nothing.
    let again = LocalPlaylist::new("road trip".to_string(), "bili".to_string(), 9);
    c.add_playlist(again);
    assert_eq!(c.playlists.len(), 1);
    assert_eq!(c.playlists[0].created_at, 7);
    assert!(c.find_playlist(&id).is_some());
    assert!(c.remove_playlist(&id));
    assert!(!c.remove_playlist(&id));
    assert!(c.find_playlist(&id).is_none());
}

#[test]
fn default_catalog_is_empty() {
    let c = Config::default();
    assert_eq!(c.audios.len(), 0);
    assert_eq!(c.playlists.len(), 0);
    assert!(!c.settings.auto_download_cover);
    assert_eq!(c.settings.default_audio_format, "");
}
