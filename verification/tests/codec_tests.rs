use music_cache::audio::Audio;
use music_cache::audio::AudioFormat;
use music_cache::audio::LocalAudio;
use music_cache::catalog::AppSettings;
use music_cache::catalog::Config;
use music_cache::codec::load_config_text;
use music_cache::codec::save_config_text;
use music_cache::playlist::LocalPlaylist;

fn full_entry() -> LocalAudio {
    let mut e = LocalAudio::new(
        "assets/bili/audios/k.flac".to_string(),
        Some("assets/bili/covers/c.jpg".to_string()),
        Audio {
            id: "id-1".to_string(),
            title: "A \"quoted\" title \\ with control\u{0001} and emoji \u{1F3B5}".to_string(),
            download_url: "https://example.test/song?x=1&y=2".to_string(),
            local_url: Some("/local/copy.flac".to_string()),
            author: vec!["Ана".to_string(), "Blue".to_string()],
            cover: Some("https://img.test/c.jpg".to_string()),
            tags: vec!["tag one".to_string(), "тег".to_string()],
            duration: Some(12345),
            platform: "bili".to_string(),
            date: 1_700_000_000,
            format: Some(AudioFormat::Flac),
        },
        1_700_000_777,
    );
    e.record_file_size(987654321);
    e.increment_play_count(1_700_000_999);
    e
}

fn full_config() -> Config {
    let mut playlist = LocalPlaylist::new("mix".to_string(), "bili".to_string(), 5);
    playlist.description = Some("line\nbreak".to_string());
    playlist.add_audio(full_entry(), 6);
    Config {
        audios: vec![full_entry()],
        playlists: vec![playlist],
        settings: AppSettings {
            download_path: Some("/data/app".to_string()),
            max_cache_size: Some(2048),
            auto_download_cover: true,
            default_audio_format: "mp3".to_string(),
        },
    }
}

fn assert_same_entry(a: &LocalAudio, b: &LocalAudio) {
    assert_eq!(a.path, b.path);
    assert_eq!(a.cover_path, b.cover_path);
    assert_eq!(a.file_size, b.file_size);
    assert_eq!(a.created_at, b.created_at);
    assert_eq!(a.last_played, b.last_played);
    assert_eq!(a.play_count, b.play_count);
    assert_eq!(a.audio.id, b.audio.id);
    assert_eq!(a.audio.title, b.audio.title);
    assert_eq!(a.audio.download_url, b.audio.download_url);
    assert_eq!(a.audio.local_url, b.audio.local_url);
    assert_eq!(a.audio.author, b.audio.author);
    assert_eq!(a.audio.cover, b.audio.cover);
    assert_eq!(a.audio.tags, b.audio.tags);
    assert_eq!(a.audio.duration, b.audio.duration);
    assert_eq!(a.audio.platform, b.audio.platform);
    assert_eq!(a.audio.date, b.audio.date);
    assert!(a.audio.format == b.audio.format);
}

#[test]
fn a_full_catalog_survives_the_round_trip() {
    let original = full_config();
    let text = save_config_text(&original);
    let loaded = load_config_text(text.as_str()).unwrap();
    assert_eq!(loaded.audios.len(), 1);
    assert_same_entry(&loaded.audios[0], &original.audios[0]);
    assert_eq!(loaded.playlists.len(), 1);
    let (p, q) = (&loaded.playlists[0], &original.playlists[0]);
    assert_eq!(p.id, q.id);
    assert_eq!(p.name, q.name);
    assert_eq!(p.description, q.description);
    assert_eq!(p.cover_path, q.cover_path);
    assert_eq!(p.cover, q.cover);
    assert_eq!(p.platform, q.platform);
    assert_eq!(p.created_at, q.created_at);
    assert_eq!(p.updated_at, q.updated_at);
    assert_eq!(p.audios.len(), 1);
    assert_same_entry(&p.audios[0], &q.audios[0]);
    assert_eq!(loaded.settings.download_path, original.settings.download_path);
    assert_eq!(loaded.settings.max_cache_size, original.settings.max_cache_size);
    assert_eq!(
        loaded.settings.auto_download_cover,
        original.settings.auto_download_cover
    );
    assert_eq!(
        loaded.settings.default_audio_format,
        original.settings.default_audio_format
    );
}

#[test]
fn an_empty_catalog_survives_the_round_trip() {
    let original = Config::new();
    let text = save_config_text(&original);
    let loaded = load_config_text(text.as_str()).unwrap();
    assert_eq!(loaded.audios.len(), 0);
    assert_eq!(loaded.playlists.len(), 0);
    assert!(loaded.settings.auto_download_cover);
    assert_eq!(loaded.settings.default_audio_format, "mp3");
}

#[test]
fn saving_twice_reproduces_the_same_document() {
    let original = full_config();
    let text = save_config_text(&original);
    let loaded = load_config_text(text.as_str()).unwrap();
    let text2 = save_config_text(&loaded);
    assert_eq!(text, text2);
}

#[test]
fn the_document_is_one_json_object_with_the_three_fields() {
    let text = save_config_text(&Config::new());
    assert_eq!(
        text,
        "{\"audios\":[],\"playlists\":[],\"settings\":{\"download_path\":null,\
         \"max_cache_size\":null,\"auto_download_cover\":true,\
         \"default_audio_format\":\"mp3\"}}"
    );
}

#[test]
fn a_damaged_document_is_refused() {
    assert!(load_config_text("").is_err());
    assert!(load_config_text("{}").is_err());
    assert!(load_config_text("not json at all").is_err());
    let text = save_config_text(&full_config());
    let truncated = &text[..text.len() - 1];
    assert!(load_config_text(truncated).is_err());
    let padded = format!("{} ", text);
    assert!(load_config_text(padded.as_str()).is_err());
}
