//! Turning local audio files the user points at into catalog entries.
//!
//! Walking directories and reading tags happen outside this crate; what the
//! import decides — which extensions count as audio, and what the imported
//! entry carries — lives here.

use vstd::prelude::*;
use crate::audio::Audio;
use crate::paths::md5_hex;
use crate::paths::md5_hex_of;
use crate::search::lower_of;
use crate::search::to_lowercase;
use crate::text::str_eq;

verus! {

use vstd::string::StringExecFns;

/// The file extensions, case-folded, the importer accepts as audio.
pub open spec fn is_audio_extension_folded(ext: Seq<char>) -> bool {
    ||| lower_of(ext) == "mp3"@
    ||| lower_of(ext) == "m4a"@
    ||| lower_of(ext) == "flac"@
    ||| lower_of(ext) == "wav"@
    ||| lower_of(ext) == "ogg"@
    ||| lower_of(ext) == "aac"@
    ||| lower_of(ext) == "wma"@
}

/// Whether a file extension, in any casing, names an audio format the
/// importer accepts.
pub fn is_audio_extension(ext: &str) -> (r: bool)
    ensures
        r == is_audio_extension_folded(ext@),
{
    let folded = to_lowercase(ext);
    let f = folded.as_str();
    str_eq(f, "mp3") || str_eq(f, "m4a") || str_eq(f, "flac") || str_eq(f, "wav") || str_eq(
        f,
        "ogg",
    ) || str_eq(f, "aac") || str_eq(f, "wma")
}

/// The asset record an imported local file receives: keyed by the MD5 of
/// its path, titled after its metadata or its file name, attributed to its
/// metadata artist or an unknown one, on the `local` platform, with no
/// source URL.
pub fn build_imported_audio(
    file_path: &str,
    title: Option<String>,
    artist: Option<String>,
    duration: Option<u64>,
    file_name: &str,
    now: u64,
) -> (r: Audio)
    ensures
        r.id@ == md5_hex_of(file_path@),
        r.title@ == match title {
            Some(t) => t@,
            None => file_name@,
        },
        r.download_url@ == Seq::<char>::empty(),
        r.local_url matches Some(l) && l@ == file_path@,
        r.author.deep_view() =~= seq![
            match artist {
                Some(a) => a@,
                None => "Unknown Artist"@,
            },
        ],
        r.cover is None,
        r.tags@.len() == 0,
        r.duration == duration,
        r.platform@ == "local"@,
        r.date == now,
        r.format is None,
{
    let id = md5_hex(file_path);
    let final_title = match title {
        Some(t) => t,
        None => String::from_str(file_name),
    };
    let author = match artist {
        Some(a) => a,
        None => String::from_str("Unknown Artist"),
    };
    let mut authors: Vec<String> = Vec::new();
    authors.push(author);
    Audio {
        id,
        title: final_title,
        download_url: String::new(),
        local_url: Some(String::from_str(file_path)),
        author: authors,
        cover: None,
        tags: Vec::new(),
        duration,
        platform: String::from_str("local"),
        date: now,
        format: None,
    }
}

} // verus!
