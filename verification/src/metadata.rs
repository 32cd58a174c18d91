//! Audio metadata extraction. No tag-parsing backend is wired in yet, so
//! every lookup reports that nothing could be read.

use vstd::prelude::*;
use crate::error::AppError;

verus! {

/// What a tag parser can read out of one audio file. Durations are kept in
/// whole seconds.
#[derive(Debug, Clone)]
pub struct AudioMetadata {
    pub title: Option<String>,
    pub artist: Option<String>,
    pub album: Option<String>,
    pub year: Option<u32>,
    pub genre: Option<String>,
    pub track_number: Option<u32>,
    pub duration: Option<u64>,
    pub bitrate: Option<u32>,
    pub sample_rate: Option<u32>,
}

/// Reads embedded metadata out of audio files.
pub struct MetadataExtractor;

impl MetadataExtractor {
    /// Reads the embedded tags of the file; with no backend wired in, every
    /// field comes back empty.
    pub fn extract_from_file(&self, file_path: &str) -> (r: Result<AudioMetadata, AppError>)
        ensures
            r matches Ok(m) && m.title is None && m.artist is None && m.album is None
                && m.year is None && m.genre is None && m.track_number is None && m.duration
                is None && m.bitrate is None && m.sample_rate is None,
    {
        let _ = file_path;
        Ok(
            AudioMetadata {
                title: None,
                artist: None,
                album: None,
                year: None,
                genre: None,
                track_number: None,
                duration: None,
                bitrate: None,
                sample_rate: None,
            },
        )
    }

    /// Reads the album art embedded in the file; with no backend wired in,
    /// there is none.
    pub fn extract_album_art(&self, file_path: &str) -> (r: Result<Option<Vec<u8>>, AppError>)
        ensures
            r matches Ok(a) && a is None,
    {
        let _ = file_path;
        Ok(None)
    }
}

} // verus!
