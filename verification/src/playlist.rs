//! Remote playlists as a source reports them, and the locally owned
//! playlists the catalog persists.

use vstd::prelude::*;
use crate::audio::Audio;
use crate::audio::LocalAudio;
use crate::audio::LocalAudioView;
use crate::paths::md5_hex;
use crate::paths::md5_hex_of;
use crate::text::str_eq;

verus! {

/// A playlist as a remote source reports it.
#[derive(Debug, Clone)]
pub struct Playlist {
    pub title: Option<String>,
    pub cover: Option<String>,
    pub audios: Vec<Audio>,
    pub platform: String,
    pub total_duration: Option<u64>,
}

impl Playlist {
    pub fn total_audio_count(&self) -> (r: usize)
        ensures
            r == self.audios@.len(),
    {
        self.audios.len()
    }
}

/// The predicate a catalog entry meets when it does **not** carry the asset
/// identifier `id`: what removal by identifier keeps.
pub open spec fn keeps_other_id(id: Seq<char>) -> spec_fn(LocalAudio) -> bool {
    |a: LocalAudio| a.audio.id@ != id
}

/// Removes, in place and order-preserving, every entry whose asset
/// identifier equals `audio_id`; reports whether any entry was dropped.
pub(crate) fn retain_other_ids(audios: &mut Vec<LocalAudio>, audio_id: &str) -> (removed: bool)
    ensures
        final(audios)@ == old(audios)@.filter(keeps_other_id(audio_id@)),
        removed == (final(audios)@.len() != old(audios)@.len()),
        removed == (exists|i: int|
            0 <= i < old(audios)@.len() && old(audios)@[i].audio.id@ == audio_id@),
{
    let ghost orig = old(audios)@;
    let ghost pred = keeps_other_id(audio_id@);
    let mut i: usize = 0;
    let ghost mut j: int = 0;
    let mut removed = false;
    proof {
        assert(orig.take(0).filter(pred) =~= Seq::<LocalAudio>::empty()) by {
            reveal(Seq::filter);
        }
        assert(orig.skip(0) =~= orig);
        assert(audios@ =~= orig.take(0).filter(pred) + orig.skip(0));
    }
    while i < audios.len()
        invariant
            0 <= j <= orig.len(),
            audios@ == orig.take(j).filter(pred) + orig.skip(j),
            i == orig.take(j).filter(pred).len(),
            pred == keeps_other_id(audio_id@),
            removed == (exists|k: int| 0 <= k < j && orig[k].audio.id@ == audio_id@),
            removed == (i != j),
            i <= j,
        decreases orig.len() - j,
    {
        proof {
            assert(j < orig.len()) by {
                if j == orig.len() {
                    assert(orig.skip(j) =~= Seq::<LocalAudio>::empty());
                }
            }
            assert(audios@[i as int] == orig.skip(j)[0]);
            assert(orig.skip(j)[0] == orig[j]);
            assert(orig.take(j + 1).drop_last() =~= orig.take(j));
            assert(orig.take(j + 1).last() == orig[j]);
            assert(orig.take(j + 1).filter(pred) == if pred(orig[j]) {
                orig.take(j).filter(pred).push(orig[j])
            } else {
                orig.take(j).filter(pred)
            }) by {
                reveal(Seq::filter);
            }
        }
        if str_eq(audios[i].audio.id.as_str(), audio_id) {
            audios.remove(i);
            removed = true;
            proof {
                assert(audios@ =~= orig.take(j + 1).filter(pred) + orig.skip(j + 1));
            }
        } else {
            i = i + 1;
            proof {
                assert(audios@ =~= orig.take(j + 1).filter(pred) + orig.skip(j + 1));
            }
        }
        proof {
            j = j + 1;
        }
    }
    proof {
        assert(orig.skip(j) =~= Seq::<LocalAudio>::empty());
        assert(j == orig.len());
        assert(orig.take(j) =~= orig);
        assert(audios@ =~= orig.filter(pred));
    }
    removed
}

/// A locally owned playlist persisted in the catalog.
#[derive(Debug, Clone)]
pub struct LocalPlaylist {
    /// Derived from the playlist's name at creation.
    pub id: String,
    pub name: String,
    pub description: Option<String>,
    pub cover_path: Option<String>,
    pub cover: Option<String>,
    pub audios: Vec<LocalAudio>,
    pub platform: String,
    pub created_at: u64,
    pub updated_at: u64,
}

/// The mathematical value of a [`LocalPlaylist`].
pub struct LocalPlaylistView {
    pub id: Seq<char>,
    pub name: Seq<char>,
    pub description: Option<Seq<char>>,
    pub cover_path: Option<Seq<char>>,
    pub cover: Option<Seq<char>>,
    pub audios: Seq<LocalAudioView>,
    pub platform: Seq<char>,
    pub created_at: u64,
    pub updated_at: u64,
}

impl View for LocalPlaylist {
    type V = LocalPlaylistView;

    open spec fn view(&self) -> LocalPlaylistView {
        LocalPlaylistView {
            id: self.id@,
            name: self.name@,
            description: self.description.deep_view(),
            cover_path: self.cover_path.deep_view(),
            cover: self.cover.deep_view(),
            audios: Seq::new(self.audios@.len(), |i: int| self.audios@[i]@),
            platform: self.platform@,
            created_at: self.created_at,
            updated_at: self.updated_at,
        }
    }
}

/// The sum of the declared durations of a sequence of entries; entries
/// without one contribute zero.
pub open spec fn durations_sum(audios: Seq<LocalAudioView>) -> int
    decreases audios.len(),
{
    if audios.len() == 0 {
        0
    } else {
        durations_sum(audios.drop_last()) + match audios.last().audio.duration {
            Some(d) => d as int,
            None => 0,
        }
    }
}

impl LocalPlaylist {
    /// A fresh, empty playlist created at time `now`; its identifier is the
    /// MD5 key of its name.
    pub fn new(name: String, platform: String, now: u64) -> (r: LocalPlaylist)
        ensures
            r.id@ == md5_hex_of(name@),
            r.name == name,
            r.description is None,
            r.cover_path is None,
            r.cover is None,
            r.audios@.len() == 0,
            r.platform == platform,
            r.created_at == now,
            r.updated_at == now,
    {
        let id = md5_hex(name.as_str());
        LocalPlaylist {
            id,
            name,
            description: None,
            cover_path: None,
            cover: None,
            audios: Vec::new(),
            platform,
            created_at: now,
            updated_at: now,
        }
    }

    /// Appends an entry and stamps the playlist as updated at `now`.
    pub fn add_audio(&mut self, audio: LocalAudio, now: u64)
        ensures
            final(self).audios@ == old(self).audios@.push(audio),
            final(self).updated_at == now,
            final(self).id == old(self).id,
            final(self).name == old(self).name,
            final(self).description == old(self).description,
            final(self).cover_path == old(self).cover_path,
            final(self).cover == old(self).cover,
            final(self).platform == old(self).platform,
            final(self).created_at == old(self).created_at,
    {
        self.audios.push(audio);
        self.updated_at = now;
    }

    /// Removes every entry whose asset identifier equals `audio_id` and, if
    /// any was removed, stamps the playlist as updated at `now`. Reports
    /// whether anything was removed.
    pub fn remove_audio(&mut self, audio_id: &str, now: u64) -> (removed: bool)
        ensures
            final(self).audios@ == old(self).audios@.filter(keeps_other_id(audio_id@)),
            removed == (final(self).audios@.len() != old(self).audios@.len()),
            removed == (exists|i: int|
                0 <= i < old(self).audios@.len() && old(self).audios@[i].audio.id@ == audio_id@),
            final(self).updated_at == if removed {
                now
            } else {
                old(self).updated_at
            },
            final(self).id == old(self).id,
            final(self).name == old(self).name,
            final(self).description == old(self).description,
            final(self).cover_path == old(self).cover_path,
            final(self).cover == old(self).cover,
            final(self).platform == old(self).platform,
            final(self).created_at == old(self).created_at,
    {
        let removed = retain_other_ids(&mut self.audios, audio_id);
        if removed {
            self.updated_at = now;
        }
        removed
    }

    /// The combined declared duration of every entry, saturating at the
    /// largest representable value.
    pub fn total_duration(&self) -> (r: u64)
        ensures
            r == if durations_sum(self@.audios) <= u64::MAX {
                durations_sum(self@.audios)
            } else {
                u64::MAX as int
            },
    {
        let ghost all = self@.audios;
        let mut total: u64 = 0;
        let n = self.audios.len();
        let mut i: usize = 0;
        while i < n
            invariant
                0 <= i <= n,
                n == self.audios@.len(),
                all == self@.audios,
                all.len() == n,
                forall|k: int| 0 <= k < n ==> all[k] == self.audios@[k]@,
                total == if durations_sum(all.take(i as int)) <= u64::MAX {
                    durations_sum(all.take(i as int))
                } else {
                    u64::MAX as int
                },
            decreases n - i,
        {
            let d = match self.audios[i].audio.duration {
                Some(d) => d,
                None => 0,
            };
            proof {
                assert(all.take(i + 1).drop_last() =~= all.take(i as int));
                assert(all.take(i + 1).last() == all[i as int]);
            }
            total = total.saturating_add(d);
            i = i + 1;
        }
        proof {
            assert(all.take(n as int) =~= all);
        }
        total
    }
}

} // verus!
