//! The single persisted aggregate: every cached asset, every owned
//! playlist, and the application settings, loaded and saved as a whole.

use vstd::prelude::*;
use crate::audio::LocalAudio;
use crate::audio::LocalAudioView;
use crate::playlist::keeps_other_id;
use crate::playlist::retain_other_ids;
use crate::playlist::LocalPlaylist;
use crate::playlist::LocalPlaylistView;
use crate::text::str_eq;

verus! {

use vstd::string::StringExecFns;

/// Application settings persisted with the catalog.
#[derive(Debug, Clone)]
pub struct AppSettings {
    /// Overrides the download directory when set.
    pub download_path: Option<String>,
    /// The eviction budget in megabytes, when one is set.
    pub max_cache_size: Option<u64>,
    /// Whether covers are fetched along with audios.
    pub auto_download_cover: bool,
    /// The format assumed for assets that declare none.
    pub default_audio_format: String,
}

/// The mathematical value of an [`AppSettings`].
pub struct AppSettingsView {
    pub download_path: Option<Seq<char>>,
    pub max_cache_size: Option<u64>,
    pub auto_download_cover: bool,
    pub default_audio_format: Seq<char>,
}

impl View for AppSettings {
    type V = AppSettingsView;

    open spec fn view(&self) -> AppSettingsView {
        AppSettingsView {
            download_path: self.download_path.deep_view(),
            max_cache_size: self.max_cache_size,
            auto_download_cover: self.auto_download_cover,
            default_audio_format: self.default_audio_format@,
        }
    }
}

impl Default for AppSettings {
    /// Everything unset: no path override, no budget, covers not fetched,
    /// empty default format.
    fn default() -> (r: AppSettings)
        ensures
            r.download_path is None,
            r.max_cache_size is None,
            !r.auto_download_cover,
            r.default_audio_format@ == Seq::<char>::empty(),
    {
        AppSettings {
            download_path: None,
            max_cache_size: None,
            auto_download_cover: false,
            default_audio_format: String::new(),
        }
    }
}

/// The aggregate root the cache persists: an ordered list of cached assets,
/// the owned playlists, and the settings.
#[derive(Debug, Clone)]
pub struct Config {
    pub audios: Vec<LocalAudio>,
    pub playlists: Vec<LocalPlaylist>,
    pub settings: AppSettings,
}

/// The mathematical value of a [`Config`].
pub struct ConfigView {
    pub audios: Seq<LocalAudioView>,
    pub playlists: Seq<LocalPlaylistView>,
    pub settings: AppSettingsView,
}

impl View for Config {
    type V = ConfigView;

    open spec fn view(&self) -> ConfigView {
        ConfigView {
            audios: Seq::new(self.audios@.len(), |i: int| self.audios@[i]@),
            playlists: Seq::new(self.playlists@.len(), |i: int| self.playlists@[i]@),
            settings: self.settings@,
        }
    }
}

/// Whether any entry of `audios` carries the asset identifier `id`.
pub open spec fn has_audio_id(audios: Seq<LocalAudio>, id: Seq<char>) -> bool {
    exists|i: int| 0 <= i < audios.len() && #[trigger] audios[i].audio.id@ == id
}

/// Whether any playlist of `playlists` carries the identifier `id`.
pub open spec fn has_playlist_id(playlists: Seq<LocalPlaylist>, id: Seq<char>) -> bool {
    exists|i: int| 0 <= i < playlists.len() && #[trigger] playlists[i].id@ == id
}

/// The predicate a playlist meets when it does **not** carry the identifier
/// `id`: what removal by identifier keeps.
pub open spec fn keeps_other_playlist_id(id: Seq<char>) -> spec_fn(LocalPlaylist) -> bool {
    |p: LocalPlaylist| p.id@ != id
}

impl Default for Config {
    /// An empty catalog with default settings.
    fn default() -> (r: Config)
        ensures
            r.audios@.len() == 0,
            r.playlists@.len() == 0,
            r.settings.download_path is None,
            r.settings.max_cache_size is None,
            !r.settings.auto_download_cover,
            r.settings.default_audio_format@ == Seq::<char>::empty(),
    {
        Config { audios: Vec::new(), playlists: Vec::new(), settings: AppSettings::default() }
    }
}

impl Config {
    /// The catalog seeded on first access: empty lists, covers fetched
    /// automatically, MP3 as the default format.
    pub fn new() -> (r: Config)
        ensures
            r.audios@.len() == 0,
            r.playlists@.len() == 0,
            r.settings.download_path is None,
            r.settings.max_cache_size is None,
            r.settings.auto_download_cover,
            r.settings.default_audio_format@ == "mp3"@,
    {
        Config {
            audios: Vec::new(),
            playlists: Vec::new(),
            settings: AppSettings {
                download_path: None,
                max_cache_size: None,
                auto_download_cover: true,
                default_audio_format: String::from_str("mp3"),
            },
        }
    }

    /// Appends an asset unless one with the same identifier is already
    /// listed; adding a duplicate identifier leaves the catalog unchanged.
    pub fn add_audio(&mut self, audio: LocalAudio)
        ensures
            has_audio_id(old(self).audios@, audio.audio.id@) ==> *final(self) == *old(self),
            !has_audio_id(old(self).audios@, audio.audio.id@) ==> final(self).audios@ == old(
                self,
            ).audios@.push(audio),
            final(self).playlists == old(self).playlists,
            final(self).settings == old(self).settings,
    {
        if !has_audio(&self.audios, audio.audio.id.as_str()) {
            self.audios.push(audio);
        }
    }

    /// Removes every asset with the given identifier, keeping the order of
    /// the rest; reports whether anything was removed.
    pub fn remove_audio(&mut self, audio_id: &str) -> (removed: bool)
        ensures
            final(self).audios@ == old(self).audios@.filter(keeps_other_id(audio_id@)),
            removed == has_audio_id(old(self).audios@, audio_id@),
            final(self).playlists == old(self).playlists,
            final(self).settings == old(self).settings,
    {
        retain_other_ids(&mut self.audios, audio_id)
    }

    /// The first asset with the given identifier, if the catalog lists one.
    pub fn find_audio(&self, audio_id: &str) -> (r: Option<&LocalAudio>)
        ensures
            match r {
                Some(a) => exists|i: int|
                    {
                        &&& 0 <= i < self.audios@.len()
                        &&& *a == self.audios@[i]
                        &&& #[trigger] self.audios@[i].audio.id@ == audio_id@
                        &&& forall|k: int|
                            0 <= k < i ==> #[trigger] self.audios@[k].audio.id@ != audio_id@
                    },
                None => !has_audio_id(self.audios@, audio_id@),
            },
    {
        let n = self.audios.len();
        let mut i: usize = 0;
        while i < n
            invariant
                0 <= i <= n,
                n == self.audios@.len(),
                forall|k: int| 0 <= k < i ==> #[trigger] self.audios@[k].audio.id@ != audio_id@,
            decreases n - i,
        {
            if str_eq(self.audios[i].audio.id.as_str(), audio_id) {
                return Some(&self.audios[i]);
            }
            i = i + 1;
        }
        None
    }

    /// Appends a playlist unless one with the same identifier is already
    /// listed; adding a duplicate identifier leaves the catalog unchanged.
    pub fn add_playlist(&mut self, playlist: LocalPlaylist)
        ensures
            has_playlist_id(old(self).playlists@, playlist.id@) ==> *final(self) == *old(self),
            !has_playlist_id(old(self).playlists@, playlist.id@) ==> final(self).playlists@ == old(
                self,
            ).playlists@.push(playlist),
            final(self).audios == old(self).audios,
            final(self).settings == old(self).settings,
    {
        if !has_playlist(&self.playlists, playlist.id.as_str()) {
            self.playlists.push(playlist);
        }
    }

    /// Removes every playlist with the given identifier, keeping the order
    /// of the rest; reports whether anything was removed.
    pub fn remove_playlist(&mut self, playlist_id: &str) -> (removed: bool)
        ensures
            final(self).playlists@ == old(self).playlists@.filter(
                keeps_other_playlist_id(playlist_id@),
            ),
            removed == has_playlist_id(old(self).playlists@, playlist_id@),
            final(self).audios == old(self).audios,
            final(self).settings == old(self).settings,
    {
        retain_other_playlists(&mut self.playlists, playlist_id)
    }

    /// The first playlist with the given identifier, if the catalog lists
    /// one.
    pub fn find_playlist(&self, playlist_id: &str) -> (r: Option<&LocalPlaylist>)
        ensures
            match r {
                Some(p) => exists|i: int|
                    {
                        &&& 0 <= i < self.playlists@.len()
                        &&& *p == self.playlists@[i]
                        &&& #[trigger] self.playlists@[i].id@ == playlist_id@
                        &&& forall|k: int|
                            0 <= k < i ==> #[trigger] self.playlists@[k].id@ != playlist_id@
                    },
                None => !has_playlist_id(self.playlists@, playlist_id@),
            },
    {
        let n = self.playlists.len();
        let mut i: usize = 0;
        while i < n
            invariant
                0 <= i <= n,
                n == self.playlists@.len(),
                forall|k: int| 0 <= k < i ==> #[trigger] self.playlists@[k].id@ != playlist_id@,
            decreases n - i,
        {
            if str_eq(self.playlists[i].id.as_str(), playlist_id) {
                return Some(&self.playlists[i]);
            }
            i = i + 1;
        }
        None
    }
}

/// Whether `audios` lists an asset with identifier `audio_id`.
fn has_audio(audios: &Vec<LocalAudio>, audio_id: &str) -> (r: bool)
    ensures
        r == has_audio_id(audios@, audio_id@),
{
    let n = audios.len();
    let mut i: usize = 0;
    while i < n
        invariant
            0 <= i <= n,
            n == audios@.len(),
            forall|k: int| 0 <= k < i ==> #[trigger] audios@[k].audio.id@ != audio_id@,
        decreases n - i,
    {
        if str_eq(audios[i].audio.id.as_str(), audio_id) {
            return true;
        }
        i = i + 1;
    }
    false
}

/// Whether `playlists` lists a playlist with identifier `playlist_id`.
fn has_playlist(playlists: &Vec<LocalPlaylist>, playlist_id: &str) -> (r: bool)
    ensures
        r == has_playlist_id(playlists@, playlist_id@),
{
    let n = playlists.len();
    let mut i: usize = 0;
    while i < n
        invariant
            0 <= i <= n,
            n == playlists@.len(),
            forall|k: int| 0 <= k < i ==> #[trigger] playlists@[k].id@ != playlist_id@,
        decreases n - i,
    {
        if str_eq(playlists[i].id.as_str(), playlist_id) {
            return true;
        }
        i = i + 1;
    }
    false
}

/// Removes, in place and order-preserving, every playlist whose identifier
/// equals `playlist_id`; reports whether any was dropped.
fn retain_other_playlists(playlists: &mut Vec<LocalPlaylist>, playlist_id: &str) -> (removed:
    bool)
    ensures
        final(playlists)@ == old(playlists)@.filter(keeps_other_playlist_id(playlist_id@)),
        removed == has_playlist_id(old(playlists)@, playlist_id@),
{
    let ghost orig = old(playlists)@;
    let ghost pred = keeps_other_playlist_id(playlist_id@);
    let mut i: usize = 0;
    let ghost mut j: int = 0;
    let mut removed = false;
    proof {
        assert(orig.take(0).filter(pred) =~= Seq::<LocalPlaylist>::empty()) by {
            reveal(Seq::filter);
        }
        assert(orig.skip(0) =~= orig);
        assert(playlists@ =~= orig.take(0).filter(pred) + orig.skip(0));
    }
    while i < playlists.len()
        invariant
            0 <= j <= orig.len(),
            playlists@ == orig.take(j).filter(pred) + orig.skip(j),
            i == orig.take(j).filter(pred).len(),
            pred == keeps_other_playlist_id(playlist_id@),
            removed == (exists|k: int| 0 <= k < j && #[trigger] orig[k].id@ == playlist_id@),
            i <= j,
        decreases orig.len() - j,
    {
        proof {
            assert(j < orig.len()) by {
                if j == orig.len() {
                    assert(orig.skip(j) =~= Seq::<LocalPlaylist>::empty());
                }
            }
            assert(playlists@[i as int] == orig.skip(j)[0]);
            assert(orig.skip(j)[0] == orig[j]);
            assert(orig.take(j + 1).drop_last() =~= orig.take(j));
            assert(orig.take(j + 1).last() == orig[j]);
            assert(orig.take(j + 1).filter(pred) == if pred(orig[j]) {
                orig.take(j).filter(pred).push(orig[j])
            } else {
                orig.take(j).filter(pred)
            }) by {
                reveal(Seq::filter);
            }
        }
        if str_eq(playlists[i].id.as_str(), playlist_id) {
            playlists.remove(i);
            removed = true;
            proof {
                assert(playlists@ =~= orig.take(j + 1).filter(pred) + orig.skip(j + 1));
            }
        } else {
            i = i + 1;
            proof {
                assert(playlists@ =~= orig.take(j + 1).filter(pred) + orig.skip(j + 1));
            }
        }
        proof {
            j = j + 1;
        }
    }
    proof {
        assert(orig.skip(j) =~= Seq::<LocalPlaylist>::empty());
        assert(j == orig.len());
        assert(orig.take(j) =~= orig);
        assert(playlists@ =~= orig.filter(pred));
    }
    removed
}

} // verus!
