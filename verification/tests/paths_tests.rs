use music_cache::audio::AudioFormat;
use music_cache::error::AppError;
use music_cache::paths::get_config_path;
use music_cache::paths::resolve_audio_path;
use music_cache::paths::resolve_cover_path;
use music_cache::paths::resolve_read_path;

#[test]
fn audio_path_layout_and_determinism() {
    let p1 = resolve_audio_path("bili", "https://example.test/song", &Some(AudioFormat::Flac));
    let p2 = resolve_audio_path("bili", "https://example.test/song", &Some(AudioFormat::Flac));
    assert_eq!(p1, p2);
    assert!(p1.starts_with("assets/bili/audios/"));
    assert!(p1.ends_with(".flac"));
    // MD5 of the documented example input, to pin the key derivation.
    let hashed = resolve_audio_path("bili", "abcdefghijklmnopqrstuvwxyz", &None);
    assert_eq!(
        hashed,
        "assets/bili/audios/c3fcd3d76192e4007dfb496cca67e13b.mp3"
    );
}

#[test]
fn default_format_is_mp3() {
    let p = resolve_audio_path("web", "u", &None);
    assert!(p.ends_with(".mp3"));
}

#[test]
fn extension_per_format() {
    assert_eq!(AudioFormat::Mp3.extension(), ".mp3");
    assert_eq!(AudioFormat::M4a.extension(), ".m4a");
    assert_eq!(AudioFormat::Flac.extension(), ".flac");
    assert_eq!(AudioFormat::Wav.extension(), ".wav");
    assert_eq!(AudioFormat::Ogg.extension(), ".ogg");
}

#[test]
fn cover_path_uses_the_basename() {
    let p = resolve_cover_path("bili", "https://img.test/a/b/cover.jpg").unwrap();
    assert_eq!(p, "assets/bili/covers/cover.jpg");
    let whole = resolve_cover_path("bili", "plainname").unwrap();
    assert_eq!(whole, "assets/bili/covers/plainname");
}

#[test]
fn cover_url_without_basename_is_invalid() {
    match resolve_cover_path("bili", "https://img.test/dir/") {
        Err(AppError::InvalidUrl(_)) => {},
        other => panic!("expected an invalid URL error, got {:?}", other),
    }
    match resolve_cover_path("bili", "") {
        Err(AppError::InvalidUrl(_)) => {},
        other => panic!("expected an invalid URL error, got {:?}", other),
    }
}

#[test]
fn read_paths_resolve_under_the_root() {
    let p = resolve_read_path("/data/app", "assets/bili/audios/x.mp3").unwrap();
    assert_eq!(p, "/data/app/assets/bili/audios/x.mp3");
}

#[test]
fn traversal_is_rejected_before_any_filesystem_access() {
    match resolve_read_path("/data/app", "../../etc/passwd") {
        Err(AppError::InvalidPath(_)) => {},
        other => panic!("expected an invalid path error, got {:?}", other),
    }
    match resolve_read_path("/data/app", "a/../b") {
        Err(AppError::InvalidPath(_)) => {},
        other => panic!("expected an invalid path error, got {:?}", other),
    }
    match resolve_read_path("/data/app", "/etc/passwd") {
        Err(AppError::InvalidPath(_)) => {},
        other => panic!("expected an invalid path error, got {:?}", other),
    }
    // Dots inside a name are not traversal.
    assert!(resolve_read_path("/data/app", "a..b/c.mp3").is_ok());
}

#[test]
fn config_file_lives_under_the_root() {
    assert_eq!(get_config_path("/data/app"), "/data/app/musicfree.json");
}
