use music_cache::audio::Audio;
use music_cache::audio::LocalAudio;
use music_cache::error::AppError;
use music_cache::metadata::MetadataExtractor;

#[test]
fn messages_carry_a_label_and_the_detail() {
    assert_eq!(
        AppError::Io("disk gone".to_string()).message(),
        "IO error: disk gone"
    );
    assert_eq!(
        AppError::Download("timeout".to_string()).message(),
        "Download error: timeout"
    );
    assert_eq!(
        AppError::InvalidPath("escape".to_string()).message(),
        "Invalid path: escape"
    );
    assert_eq!(
        AppError::AudioNotFound("x".to_string()).message(),
        "Audio not found: x"
    );
    assert_eq!(
        AppError::PlaylistNotFound("p".to_string()).message(),
        "Playlist not found: p"
    );
    assert_eq!(AppError::StorageQuotaExceeded.message(), "Storage quota exceeded");
    assert_eq!(AppError::Cancelled.message(), "Operation cancelled");
    assert_eq!(AppError::Json("bad".to_string()).message(), "JSON error: bad");
    assert_eq!(
        AppError::Network("refused".to_string()).message(),
        "Network error: refused"
    );
    assert_eq!(
        AppError::Unknown("odd".to_string()).message(),
        "Unknown error: odd"
    );
}

#[test]
fn entries_track_playback() {
    let mut e = LocalAudio::new(
        "assets/web/audios/k.mp3".to_string(),
        None,
        Audio {
            id: "k".to_string(),
            title: "t".to_string(),
            download_url: "u".to_string(),
            local_url: None,
            author: vec![],
            cover: None,
            tags: vec![],
            duration: None,
            platform: "web".to_string(),
            date: 0,
            format: None,
        },
        1000,
    );
    assert_eq!(e.play_count, 0);
    assert!(e.last_played.is_none());
    e.increment_play_count(2000);
    e.increment_play_count(3000);
    assert_eq!(e.play_count, 2);
    assert_eq!(e.last_played, Some(3000));
    e.record_file_size(555);
    assert_eq!(e.file_size, Some(555));
}

#[test]
fn metadata_extraction_reports_nothing_without_a_backend() {
    let m = MetadataExtractor.extract_from_file("/somewhere/file.mp3").unwrap();
    assert!(m.title.is_none());
    assert!(m.artist.is_none());
    assert!(m.duration.is_none());
    let art = MetadataExtractor.extract_album_art("/somewhere/file.mp3").unwrap();
    assert!(art.is_none());
}
