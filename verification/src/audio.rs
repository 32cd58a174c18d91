//! Logical assets and their cached, catalog-owned counterparts.

use vstd::prelude::*;

verus! {

/// The audio formats the cache can address on disk.
#[derive(Debug, Clone, Copy, PartialEq, Eq, Structural)]
pub enum AudioFormat {
    Mp3,
    M4a,
    Flac,
    Wav,
    Ogg,
}

impl AudioFormat {
    /// The file extension of each format, dot included.
    pub open spec fn extension_chars(self) -> Seq<char> {
        match self {
            AudioFormat::Mp3 => ".mp3"@,
            AudioFormat::M4a => ".m4a"@,
            AudioFormat::Flac => ".flac"@,
            AudioFormat::Wav => ".wav"@,
            AudioFormat::Ogg => ".ogg"@,
        }
    }

    pub fn extension(&self) -> (r: &str)
        ensures
            r@ == self.extension_chars(),
    {
        match self {
            AudioFormat::Mp3 => ".mp3",
            AudioFormat::M4a => ".m4a",
            AudioFormat::Flac => ".flac",
            AudioFormat::Wav => ".wav",
            AudioFormat::Ogg => ".ogg",
        }
    }
}

/// A source-provided asset: what a remote platform says about one audio.
#[derive(Debug, Clone)]
pub struct Audio {
    pub id: String,
    pub title: String,
    pub download_url: String,
    pub local_url: Option<String>,
    pub author: Vec<String>,
    pub cover: Option<String>,
    pub tags: Vec<String>,
    /// Duration in whole seconds.
    pub duration: Option<u64>,
    pub platform: String,
    /// Creation date as seconds since the epoch.
    pub date: u64,
    pub format: Option<AudioFormat>,
}

/// The mathematical value of an [`Audio`]: every text field as its
/// character sequence.
pub struct AudioView {
    pub id: Seq<char>,
    pub title: Seq<char>,
    pub download_url: Seq<char>,
    pub local_url: Option<Seq<char>>,
    pub author: Seq<Seq<char>>,
    pub cover: Option<Seq<char>>,
    pub tags: Seq<Seq<char>>,
    pub duration: Option<u64>,
    pub platform: Seq<char>,
    pub date: u64,
    pub format: Option<AudioFormat>,
}

impl View for Audio {
    type V = AudioView;

    open spec fn view(&self) -> AudioView {
        AudioView {
            id: self.id@,
            title: self.title@,
            download_url: self.download_url@,
            local_url: self.local_url.deep_view(),
            author: self.author.deep_view(),
            cover: self.cover.deep_view(),
            tags: self.tags.deep_view(),
            duration: self.duration,
            platform: self.platform@,
            date: self.date,
            format: self.format,
        }
    }
}

/// The mathematical values of a list of catalog entries.
pub open spec fn entry_views(s: Seq<LocalAudio>) -> Seq<LocalAudioView> {
    s.map_values(|a: LocalAudio| a@)
}

/// A copy of an optional text, equal to the original.
pub fn duplicate_opt_string(o: &Option<String>) -> (r: Option<String>)
    ensures
        r == *o,
{
    match o {
        Some(s) => Some(s.clone()),
        None => None,
    }
}

/// A copy of a text list whose contents equal the original's.
pub fn duplicate_strings(v: &Vec<String>) -> (r: Vec<String>)
    ensures
        r@ == v@,
        r.deep_view() == v.deep_view(),
{
    let r = v.clone();
    proof {
        assert forall|i: int| 0 <= i < v@.len() implies r@[i] == v@[i] by {
            assert(cloned::<String>(v@[i], r@[i]));
        }
        assert(r@ =~= v@);
    }
    r
}

impl Audio {
    /// A copy of the asset, field for field.
    pub fn duplicate(&self) -> (r: Audio)
        ensures
            r@ == self@,
            r.id == self.id,
            r.title == self.title,
            r.download_url == self.download_url,
            r.local_url == self.local_url,
            r.cover == self.cover,
            r.duration == self.duration,
            r.platform == self.platform,
            r.date == self.date,
            r.format == self.format,
    {
        Audio {
            id: self.id.clone(),
            title: self.title.clone(),
            download_url: self.download_url.clone(),
            local_url: duplicate_opt_string(&self.local_url),
            author: duplicate_strings(&self.author),
            cover: duplicate_opt_string(&self.cover),
            tags: duplicate_strings(&self.tags),
            duration: self.duration,
            platform: self.platform.clone(),
            date: self.date,
            format: self.format,
        }
    }
}

/// A catalog entry: an asset together with its on-disk location and its
/// usage statistics.
#[derive(Debug, Clone)]
pub struct LocalAudio {
    /// Path of the audio file, relative to the owned asset root.
    pub path: String,
    /// Path of the cover file, relative to the asset root, if one is cached.
    pub cover_path: Option<String>,
    pub audio: Audio,
    /// Size of the audio file in bytes, cached best-effort.
    pub file_size: Option<u64>,
    /// Seconds since the epoch when the entry was created.
    pub created_at: u64,
    /// Seconds since the epoch of the most recent playback, if any.
    pub last_played: Option<u64>,
    /// How often the entry was played; monotonic, saturating at its maximum.
    pub play_count: u32,
}

/// The mathematical value of a [`LocalAudio`].
pub struct LocalAudioView {
    pub path: Seq<char>,
    pub cover_path: Option<Seq<char>>,
    pub audio: AudioView,
    pub file_size: Option<u64>,
    pub created_at: u64,
    pub last_played: Option<u64>,
    pub play_count: u32,
}

impl View for LocalAudio {
    type V = LocalAudioView;

    open spec fn view(&self) -> LocalAudioView {
        LocalAudioView {
            path: self.path@,
            cover_path: self.cover_path.deep_view(),
            audio: self.audio@,
            file_size: self.file_size,
            created_at: self.created_at,
            last_played: self.last_played,
            play_count: self.play_count,
        }
    }
}

impl LocalAudio {
    /// A fresh entry for a file cached at `path` at time `now`: never played,
    /// size not yet known.
    pub fn new(path: String, cover_path: Option<String>, audio: Audio, now: u64) -> (r:
        LocalAudio)
        ensures
            r.path == path,
            r.cover_path == cover_path,
            r.audio == audio,
            r.file_size is None,
            r.created_at == now,
            r.last_played is None,
            r.play_count == 0,
    {
        LocalAudio {
            path,
            cover_path,
            audio,
            file_size: None,
            created_at: now,
            last_played: None,
            play_count: 0,
        }
    }

    /// Records one playback at time `now`: the play count grows by one
    /// (saturating at its maximum) and `now` becomes the last played time.
    pub fn increment_play_count(&mut self, now: u64)
        ensures
            final(self).play_count == if old(self).play_count < u32::MAX {
                old(self).play_count + 1
            } else {
                u32::MAX as int
            },
            final(self).last_played == Some(now),
            final(self).path == old(self).path,
            final(self).cover_path == old(self).cover_path,
            final(self).audio == old(self).audio,
            final(self).file_size == old(self).file_size,
            final(self).created_at == old(self).created_at,
    {
        if self.play_count < u32::MAX {
            self.play_count = self.play_count + 1;
        }
        self.last_played = Some(now);
    }

    /// A copy of the entry, equal to the original in value.
    pub fn duplicate(&self) -> (r: LocalAudio)
        ensures
            r@ == self@,
            r.path == self.path,
            r.cover_path == self.cover_path,
            r.file_size == self.file_size,
            r.created_at == self.created_at,
            r.last_played == self.last_played,
            r.play_count == self.play_count,
    {
        LocalAudio {
            path: self.path.clone(),
            cover_path: duplicate_opt_string(&self.cover_path),
            audio: self.audio.duplicate(),
            file_size: self.file_size,
            created_at: self.created_at,
            last_played: self.last_played,
            play_count: self.play_count,
        }
    }

    /// Records the cached file's size once the caller has measured it.
    pub fn record_file_size(&mut self, size: u64)
        ensures
            final(self).file_size == Some(size),
            final(self).path == old(self).path,
            final(self).cover_path == old(self).cover_path,
            final(self).audio == old(self).audio,
            final(self).created_at == old(self).created_at,
            final(self).last_played == old(self).last_played,
            final(self).play_count == old(self).play_count,
    {
        self.file_size = Some(size);
    }
}

} // verus!
