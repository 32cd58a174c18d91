use music_cache::importer::build_imported_audio;
use music_cache::importer::is_audio_extension;

#[test]
fn audio_extensions_are_recognised_in_any_casing() {
    for ext in ["mp3", "MP3", "m4a", "FLAC", "wav", "Ogg", "aac", "WMA"] {
        assert!(is_audio_extension(ext), "{} should count as audio", ext);
    }
    for ext in ["txt", "jpg", "mp4", "", "mp33"] {
        assert!(!is_audio_extension(ext), "{} should not count as audio", ext);
    }
}

#[test]
fn imported_files_become_local_assets() {
    let a = build_imported_audio(
        "/music/one.mp3",
        Some("Named".to_string()),
        Some("Artist".to_string()),
        Some(99),
        "one.mp3",
        1234,
    );
    assert_eq!(a.id.len(), 32);
    assert!(a.id.chars().all(|c| c.is_ascii_hexdigit()));
    assert_eq!(a.title, "Named");
    assert_eq!(a.author, vec!["Artist".to_string()]);
    assert_eq!(a.local_url, Some("/music/one.mp3".to_string()));
    assert_eq!(a.download_url, "");
    assert_eq!(a.platform, "local");
    assert_eq!(a.duration, Some(99));
    assert_eq!(a.date, 1234);
    assert!(a.format.is_none());
}

#[test]
fn imports_without_metadata_fall_back_to_the_file_name() {
    let a = build_imported_audio("/music/two.flac", None, None, None, "two.flac", 5);
    assert_eq!(a.title, "two.flac");
    assert_eq!(a.author, vec!["Unknown Artist".to_string()]);
    assert!(a.duration.is_none());
    // The key comes from the path, so two imports of the same file collide
    // onto one identifier.
    let b = build_imported_audio("/music/two.flac", None, None, None, "two.flac", 6);
    assert_eq!(a.id, b.id);
}
