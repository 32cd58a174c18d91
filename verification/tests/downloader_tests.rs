use music_cache::audio::Audio;
use music_cache::downloader::arrange_batch_results;
use music_cache::downloader::BatchOutcome;
use music_cache::downloader::DownloadAction;
use music_cache::downloader::DownloadEvent;
use music_cache::downloader::Downloader;
use music_cache::error::AppError;

fn asset(id: &str, url: &str, cover: Option<&str>) -> Audio {
    Audio {
        id: id.to_string(),
        title: format!("Track {}", id),
        download_url: url.to_string(),
        local_url: None,
        author: vec![],
        cover: cover.map(|c| c.to_string()),
        tags: vec![],
        duration: None,
        platform: "bili".to_string(),
        date: 0,
        format: None,
    }
}

#[test]
fn downloader_allows_three_in_flight() {
    let d = Downloader::new("/data/app".to_string());
    assert_eq!(d.max_concurrent, 3);
    assert_eq!(d.download_dir, "/data/app");
}

#[test]
fn audio_path_is_deterministic_and_hashed() {
    let d = Downloader::new("/data/app".to_string());
    let a = asset("one", "https://example.test/song", None);
    let (m1, _) = d.start_download(a.clone(), 100);
    let (m2, _) = d.start_download(a.clone(), 999);
    // The same asset addresses the same file, whenever the download runs.
    assert_eq!(m1.audio_path, m2.audio_path);
    // The key is the MD5 of the URL, not the URL itself.
    assert!(m1.audio_path.starts_with("assets/bili/audios/"));
    assert!(m1.audio_path.ends_with(".mp3"));
    let key = &m1.audio_path["assets/bili/audios/".len()..m1.audio_path.len() - 4];
    assert_eq!(key.len(), 32);
    assert!(key.chars().all(|c| c.is_ascii_hexdigit()));
    assert!(!m1.audio_path.contains("example.test"));
}

#[test]
fn cached_audio_skips_the_fetch() {
    let d = Downloader::new("/data/app".to_string());
    let a = asset("one", "https://example.test/song", None);
    let (mut m, first) = d.start_download(a, 100);
    match first {
        DownloadAction::CheckFile(p) => assert_eq!(p, m.audio_path),
        other => panic!("expected a presence check, got {:?}", other),
    }
    // The file is already cached: the pipeline goes straight to measuring
    // it, and never asks to fetch.
    match m.step(DownloadEvent::Presence(true)) {
        DownloadAction::StatFile(p) => assert_eq!(p, m.audio_path),
        other => panic!("expected a stat, got {:?}", other),
    }
    match m.step(DownloadEvent::Size(Some(4096))) {
        DownloadAction::Finish(entry) => {
            assert_eq!(entry.path, m.audio_path);
            assert_eq!(entry.file_size, Some(4096));
            assert_eq!(entry.created_at, 100);
            assert_eq!(entry.play_count, 0);
            assert!(entry.last_played.is_none());
            assert!(entry.cover_path.is_none());
        },
        other => panic!("expected the finished entry, got {:?}", other),
    }
    assert!(m.is_finished());
}

#[test]
fn missing_audio_is_fetched_written_and_recorded() {
    let d = Downloader::new("/data/app".to_string());
    let a = asset("one", "https://example.test/song", Some("https://img.test/c.jpg"));
    let (mut m, _) = d.start_download(a, 7);
    match m.step(DownloadEvent::Presence(false)) {
        DownloadAction::FetchAudio(url) => assert_eq!(url, "https://example.test/song"),
        other => panic!("expected a fetch, got {:?}", other),
    }
    match m.step(DownloadEvent::Fetched(None)) {
        DownloadAction::WriteAudio(p) => assert_eq!(p, m.audio_path),
        other => panic!("expected a write, got {:?}", other),
    }
    match m.step(DownloadEvent::Written(None)) {
        DownloadAction::CheckFile(p) => assert_eq!(p, "assets/bili/covers/c.jpg"),
        other => panic!("expected a cover check, got {:?}", other),
    }
    match m.step(DownloadEvent::Presence(false)) {
        DownloadAction::FetchCover(url) => assert_eq!(url, "https://img.test/c.jpg"),
        other => panic!("expected a cover fetch, got {:?}", other),
    }
    match m.step(DownloadEvent::Fetched(None)) {
        DownloadAction::WriteCover(p) => assert_eq!(p, "assets/bili/covers/c.jpg"),
        other => panic!("expected a cover write, got {:?}", other),
    }
    match m.step(DownloadEvent::Written(None)) {
        DownloadAction::StatFile(_) => {},
        other => panic!("expected a stat, got {:?}", other),
    }
    match m.step(DownloadEvent::Size(None)) {
        DownloadAction::Finish(entry) => {
            assert_eq!(entry.cover_path, Some("assets/bili/covers/c.jpg".to_string()));
            assert!(entry.file_size.is_none());
            assert_eq!(entry.created_at, 7);
        },
        other => panic!("expected the finished entry, got {:?}", other),
    }
}

#[test]
fn audio_fetch_failure_is_fatal_with_a_download_error() {
    let d = Downloader::new("/data/app".to_string());
    let a = asset("one", "https://example.test/song", None);
    let (mut m, _) = d.start_download(a, 7);
    m.step(DownloadEvent::Presence(false));
    match m.step(DownloadEvent::Fetched(Some("connection reset".to_string()))) {
        DownloadAction::Fail(AppError::Download(msg)) => {
            assert_eq!(msg, "Failed to download audio: connection reset");
        },
        other => panic!("expected a download failure, got {:?}", other),
    }
    assert!(m.is_finished());
}

#[test]
fn cover_fetch_failure_is_not_fatal() {
    let d = Downloader::new("/data/app".to_string());
    let a = asset("one", "https://example.test/song", Some("https://img.test/c.jpg"));
    let (mut m, _) = d.start_download(a, 7);
    m.step(DownloadEvent::Presence(true));
    m.step(DownloadEvent::Presence(false));
    // The cover fetch fails; the download still succeeds, without a cover.
    match m.step(DownloadEvent::Fetched(Some("404".to_string()))) {
        DownloadAction::StatFile(_) => {},
        other => panic!("expected a stat, got {:?}", other),
    }
    match m.step(DownloadEvent::Size(Some(1))) {
        DownloadAction::Finish(entry) => assert!(entry.cover_path.is_none()),
        other => panic!("expected the finished entry, got {:?}", other),
    }
}

#[test]
fn unusable_cover_url_is_skipped() {
    let d = Downloader::new("/data/app".to_string());
    let a = asset("one", "https://example.test/song", Some("https://img.test/dir/"));
    let (mut m, _) = d.start_download(a, 7);
    // The cover URL has no basename: the pipeline keeps going without it.
    match m.step(DownloadEvent::Presence(true)) {
        DownloadAction::StatFile(_) => {},
        other => panic!("expected a stat, got {:?}", other),
    }
}

#[test]
fn unexpected_event_fails_the_pipeline() {
    let d = Downloader::new("/data/app".to_string());
    let a = asset("one", "https://example.test/song", None);
    let (mut m, _) = d.start_download(a, 7);
    match m.step(DownloadEvent::Size(Some(1))) {
        DownloadAction::Fail(AppError::Unknown(_)) => {},
        other => panic!("expected an unknown failure, got {:?}", other),
    }
}

fn ok_outcome(i: usize, id: &str) -> BatchOutcome {
    let a = asset(id, "https://example.test/x", None);
    (
        i,
        Ok(music_cache::audio::LocalAudio::new(
            format!("assets/bili/audios/{}.mp3", id),
            None,
            a,
            0,
        )),
    )
}

#[test]
fn batch_results_come_back_in_input_order() {
    // Three tasks report out of order; slot order follows the inputs.
    let outcomes: Vec<BatchOutcome> = vec![
        ok_outcome(2, "c"),
        (1, Err(AppError::Download("boom".to_string()))),
        ok_outcome(0, "a"),
    ];
    let r = arrange_batch_results(3, outcomes);
    assert_eq!(r.len(), 3);
    assert_eq!(r[0].as_ref().unwrap().audio.id, "a");
    assert!(matches!(r[1], Err(AppError::Download(_))));
    assert_eq!(r[2].as_ref().unwrap().audio.id, "c");
}

#[test]
fn one_failure_leaves_the_other_results_alone() {
    // Asset 1's fetch always fails; 0 and 2 still succeed, in order.
    let outcomes: Vec<BatchOutcome> = vec![
        ok_outcome(0, "a"),
        (1, Err(AppError::Download("always fails".to_string()))),
        ok_outcome(2, "c"),
    ];
    let r = arrange_batch_results(3, outcomes);
    assert!(r[0].is_ok());
    assert!(r[1].is_err());
    assert!(r[2].is_ok());
}

#[test]
fn a_task_that_never_reported_is_a_missing_outcome() {
    let outcomes: Vec<BatchOutcome> = vec![ok_outcome(0, "a")];
    let r = arrange_batch_results(2, outcomes);
    assert!(r[0].is_ok());
    assert!(matches!(r[1], Err(AppError::NotFound(_))));
}

#[test]
fn duplicate_outcomes_keep_the_first() {
    let outcomes: Vec<BatchOutcome> = vec![
        (0, Err(AppError::Download("first".to_string()))),
        ok_outcome(0, "late-retry"),
    ];
    let r = arrange_batch_results(1, outcomes);
    assert!(matches!(&r[0], Err(AppError::Download(m)) if m == "first"));
}
