use music_cache::audio::Audio;
use music_cache::audio::LocalAudio;
use music_cache::search::SearchQuery;
use music_cache::search::SearchService;

fn entry(id: &str, title: &str, authors: &[&str], tags: &[&str], duration: Option<u64>) -> LocalAudio {
    LocalAudio::new(
        format!("assets/bili/audios/{}.mp3", id),
        None,
        Audio {
            id: id.to_string(),
            title: title.to_string(),
            download_url: format!("https://example.test/{}", id),
            local_url: None,
            author: authors.iter().map(|a| a.to_string()).collect(),
            cover: None,
            tags: tags.iter().map(|t| t.to_string()).collect(),
            duration,
            platform: "bili".to_string(),
            date: 0,
            format: None,
        },
        0,
    )
}

fn empty_query() -> SearchQuery {
    SearchQuery {
        keyword: None,
        artist: None,
        title: None,
        tags: None,
        platform: None,
        min_duration: None,
        max_duration: None,
    }
}

fn library() -> Vec<LocalAudio> {
    vec![
        entry("1", "Morning Light", &["Ana Blue"], &["Calm", "piano"], Some(200)),
        entry("2", "NIGHT drive", &["DJ Red"], &["synth"], Some(300)),
        entry("3", "Quiet Nights", &["ana blue", "Guest"], &["Piano"], None),
    ]
}

#[test]
fn empty_query_matches_everything() {
    let lib = library();
    let r = SearchService.search(&lib, &empty_query());
    assert_eq!(r.total_count, 3);
    assert_eq!(r.audios.len(), 3);
    assert_eq!(r.audios[0].audio.id, "1");
}

#[test]
fn keyword_is_case_insensitive_across_fields() {
    let lib = library();
    let mut q = empty_query();
    q.keyword = Some("NIGHT".to_string());
    let r = SearchService.search(&lib, &q);
    // "NIGHT drive" by title and "Quiet Nights" by title, case-folded.
    assert_eq!(r.total_count, 2);
    assert_eq!(r.audios[0].audio.id, "2");
    assert_eq!(r.audios[1].audio.id, "3");

    let mut q2 = empty_query();
    q2.keyword = Some("PIANO".to_string());
    let r2 = SearchService.search(&lib, &q2);
    // Found through the tags, folded on both sides.
    assert_eq!(r2.total_count, 2);
}

#[test]
fn artist_filter_folds_case() {
    let lib = library();
    let mut q = empty_query();
    q.artist = Some("ANA blue".to_string());
    let r = SearchService.search(&lib, &q);
    assert_eq!(r.total_count, 2);
    assert_eq!(r.audios[0].audio.id, "1");
    assert_eq!(r.audios[1].audio.id, "3");
}

#[test]
fn tag_filter_matches_any_queried_tag() {
    let lib = library();
    let mut q = empty_query();
    q.tags = Some(vec!["PIANO".to_string(), "missing".to_string()]);
    let r = SearchService.search(&lib, &q);
    assert_eq!(r.total_count, 2);
}

#[test]
fn duration_bounds_exclude_unknown_durations() {
    let lib = library();
    let mut q = empty_query();
    q.min_duration = Some(250);
    let r = SearchService.search(&lib, &q);
    assert_eq!(r.total_count, 1);
    assert_eq!(r.audios[0].audio.id, "2");

    let mut q2 = empty_query();
    q2.max_duration = Some(250);
    let r2 = SearchService.search(&lib, &q2);
    // Entry 3 has no duration and is excluded by a duration bound.
    assert_eq!(r2.total_count, 1);
    assert_eq!(r2.audios[0].audio.id, "1");
}

#[test]
fn platform_filter_is_exact() {
    let lib = library();
    let mut q = empty_query();
    q.platform = Some("bili".to_string());
    assert_eq!(SearchService.search(&lib, &q).total_count, 3);
    q.platform = Some("BILI".to_string());
    assert_eq!(SearchService.search(&lib, &q).total_count, 0);
}

#[test]
fn suggestions_are_sorted_distinct_and_folded() {
    let lib = vec![
        entry("1", "night drive", &["Nia"], &["nightcore"], None),
        entry("2", "Night Drive", &["nia"], &[], None),
        entry("3", "Nothing Here", &["Someone"], &["Night"], None),
    ];
    let s = SearchService.suggest(&lib, "NI", 10);
    // Titles, authors and #tags whose folded text starts with "ni", sorted
    // lexicographically with duplicates collapsed.
    assert_eq!(
        s,
        vec![
            "#Night".to_string(),
            "#nightcore".to_string(),
            "Nia".to_string(),
            "Night Drive".to_string(),
            "nia".to_string(),
            "night drive".to_string(),
        ]
    );
}

#[test]
fn suggestions_are_cut_off_at_the_limit() {
    let lib = vec![
        entry("1", "alpha", &[], &[], None),
        entry("2", "beta", &[], &[], None),
        entry("3", "also", &[], &[], None),
    ];
    let s = SearchService.suggest(&lib, "", 2);
    assert_eq!(s, vec!["alpha".to_string(), "also".to_string()]);
    let all = SearchService.suggest(&lib, "a", 10);
    assert_eq!(all, vec!["alpha".to_string(), "also".to_string()]);
}
