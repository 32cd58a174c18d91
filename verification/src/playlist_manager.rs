//! The pure playlist mutations the catalog persists after each command.

use vstd::prelude::*;
use crate::audio::entry_views;
use crate::audio::LocalAudio;
use crate::audio::LocalAudioView;
use crate::error::AppError;
use crate::paths::md5_hex_of;
use crate::playlist::LocalPlaylist;
use crate::text::str_eq;

verus! {

use vstd::string::StringExecFns;

/// Relies on rand::random_range: a value drawn uniformly from `0..n`. It
/// panics only on an empty range, which `n > 0` rules out; nothing more can
/// be promised of a random value.
#[verifier::external_body]
fn rand_below(n: usize) -> (r: usize)
    requires
        n > 0,
    ensures
        r < n,
{
    rand::random_range(0..n)
}

/// Whether any entry of `audios` carries the asset identifier `id`.
pub open spec fn views_have_id(audios: Seq<LocalAudioView>, id: Seq<char>) -> bool {
    exists|i: int| 0 <= i < audios.len() && #[trigger] audios[i].audio.id == id
}

/// The entries of `target` with every entry of `source` whose identifier is
/// not yet listed appended, in source order; duplicates inside `source`
/// collapse onto their first occurrence.
pub open spec fn merge_views(t: Seq<LocalAudioView>, s: Seq<LocalAudioView>) -> Seq<
    LocalAudioView,
>
    decreases s.len(),
{
    if s.len() == 0 {
        t
    } else if views_have_id(t, s.first().audio.id) {
        merge_views(t, s.drop_first())
    } else {
        merge_views(t.push(s.first()), s.drop_first())
    }
}

/// Creates, renames, reorders, merges and shuffles the catalog's playlists.
pub struct PlaylistManager;

impl PlaylistManager {
    /// A fresh, empty playlist named `name`, created at time `now`.
    pub fn create_playlist(&self, name: &str, platform: &str, now: u64) -> (r: Result<
        LocalPlaylist,
        AppError,
    >)
        ensures
            r matches Ok(p) && p.id@ == md5_hex_of(name@) && p.name@ == name@ && p.platform@
                == platform@ && p.audios@.len() == 0 && p.description is None && p.cover is None
                && p.cover_path is None && p.created_at == now && p.updated_at == now,
    {
        Ok(LocalPlaylist::new(String::from_str(name), String::from_str(platform), now))
    }

    /// Gives the playlist a new name and stamps it as updated at `now`; its
    /// identifier does not change.
    pub fn rename_playlist(playlist: &mut LocalPlaylist, new_name: String, now: u64)
        ensures
            final(playlist).name == new_name,
            final(playlist).updated_at == now,
            final(playlist).id == old(playlist).id,
            final(playlist).description == old(playlist).description,
            final(playlist).cover_path == old(playlist).cover_path,
            final(playlist).cover == old(playlist).cover,
            final(playlist).audios == old(playlist).audios,
            final(playlist).platform == old(playlist).platform,
            final(playlist).created_at == old(playlist).created_at,
    {
        playlist.name = new_name;
        playlist.updated_at = now;
    }

    /// Appends the entry unless its asset identifier is already listed;
    /// adding a duplicate leaves the playlist unchanged, and is no error.
    pub fn add_audio_to_playlist(playlist: &mut LocalPlaylist, audio: LocalAudio, now: u64) -> (r:
        Result<(), AppError>)
        ensures
            r is Ok,
            crate::catalog::has_audio_id(old(playlist).audios@, audio.audio.id@)
                ==> *final(playlist) == *old(playlist),
            !crate::catalog::has_audio_id(old(playlist).audios@, audio.audio.id@) ==> {
                &&& final(playlist).audios@ == old(playlist).audios@.push(audio)
                &&& final(playlist).updated_at == now
                &&& final(playlist).id == old(playlist).id
                &&& final(playlist).name == old(playlist).name
                &&& final(playlist).description == old(playlist).description
                &&& final(playlist).cover_path == old(playlist).cover_path
                &&& final(playlist).cover == old(playlist).cover
                &&& final(playlist).platform == old(playlist).platform
                &&& final(playlist).created_at == old(playlist).created_at
            },
    {
        if !playlist_has_audio(&playlist.audios, audio.audio.id.as_str()) {
            playlist.add_audio(audio, now);
        }
        Ok(())
    }

    /// Removes every entry with the given identifier, stamping the playlist
    /// as updated at `now` when anything was removed; reports whether it
    /// was.
    pub fn remove_audio_from_playlist(
        playlist: &mut LocalPlaylist,
        audio_id: &str,
        now: u64,
    ) -> (r: Result<bool, AppError>)
        ensures
            r matches Ok(removed) && {
                &&& final(playlist).audios@ == old(playlist).audios@.filter(
                    crate::playlist::keeps_other_id(audio_id@),
                )
                &&& removed == crate::catalog::has_audio_id(old(playlist).audios@, audio_id@)
                &&& final(playlist).updated_at == if removed {
                    now
                } else {
                    old(playlist).updated_at
                }
                &&& final(playlist).id == old(playlist).id
                &&& final(playlist).name == old(playlist).name
                &&& final(playlist).platform == old(playlist).platform
                &&& final(playlist).created_at == old(playlist).created_at
            },
    {
        Ok(playlist.remove_audio(audio_id, now))
    }

    /// Moves the first entry with the given identifier to `new_position`,
    /// clamped into the valid range, and stamps the playlist as updated at
    /// `now`; moving an entry onto its own position changes nothing. Fails
    /// with `AudioNotFound` when no entry carries the identifier.
    pub fn reorder_playlist(
        playlist: &mut LocalPlaylist,
        audio_id: &str,
        new_position: usize,
        now: u64,
    ) -> (r: Result<(), AppError>)
        ensures
            final(playlist).id == old(playlist).id,
            final(playlist).name == old(playlist).name,
            final(playlist).description == old(playlist).description,
            final(playlist).cover_path == old(playlist).cover_path,
            final(playlist).cover == old(playlist).cover,
            final(playlist).platform == old(playlist).platform,
            final(playlist).created_at == old(playlist).created_at,
            !crate::catalog::has_audio_id(old(playlist).audios@, audio_id@) ==> (r matches Err(e)
                && e matches AppError::AudioNotFound(m) && m@ == audio_id@ && *final(playlist)
                == *old(playlist)),
            crate::catalog::has_audio_id(old(playlist).audios@, audio_id@) ==> (r is Ok && {
                let idx = choose|idx: int|
                    {
                        &&& 0 <= idx < old(playlist).audios@.len()
                        &&& (#[trigger] old(playlist).audios@[idx]).audio.id@ == audio_id@
                        &&& forall|k: int|
                            0 <= k < idx ==> (#[trigger] old(playlist).audios@[k]).audio.id@
                                != audio_id@
                    };
                if idx == new_position {
                    *final(playlist) == *old(playlist)
                } else {
                    let clamped = if new_position <= old(playlist).audios@.len() - 1 {
                        new_position as int
                    } else {
                        old(playlist).audios@.len() - 1
                    };
                    &&& final(playlist).audios@ == old(playlist).audios@.remove(idx).insert(
                        clamped,
                        old(playlist).audios@[idx],
                    )
                    &&& final(playlist).updated_at == now
                }
            }),
    {
        let ghost orig = old(playlist).audios@;
        let current = match first_audio_index(&playlist.audios, audio_id) {
            Some(idx) => idx,
            None => {
                return Err(AppError::AudioNotFound(String::from_str(audio_id)));
            },
        };
        proof {
            let idx = choose|idx: int|
                0 <= idx < orig.len() && (#[trigger] orig[idx]).audio.id@ == audio_id@ && forall|
                    k: int,
                |
                    0 <= k < idx ==> (#[trigger] orig[k]).audio.id@ != audio_id@;
            assert(idx == current as int) by {
                if idx < current as int {
                    assert(orig[idx].audio.id@ != audio_id@);
                }
                if (current as int) < idx {
                    assert(orig[current as int].audio.id@ != audio_id@);
                }
            }
        }
        if current == new_position {
            return Ok(());
        }
        let entry = playlist.audios.remove(current);
        let len_after = playlist.audios.len();
        let actual = if new_position < len_after {
            new_position
        } else {
            len_after
        };
        playlist.audios.insert(actual, entry);
        playlist.updated_at = now;
        Ok(())
    }

    /// A copy of the playlist created at `now`, named after the original
    /// with " (Copy)" appended — its identifier derives from that name —
    /// holding the same entries, description and covers.
    pub fn duplicate_playlist(&self, playlist: &LocalPlaylist, now: u64) -> (r: Result<
        LocalPlaylist,
        AppError,
    >)
        ensures
            r matches Ok(p) && {
                &&& p.name@ == playlist.name@ + " (Copy)"@
                &&& p.id@ == md5_hex_of(playlist.name@ + " (Copy)"@)
                &&& p.description == playlist.description
                &&& p.cover == playlist.cover
                &&& p.cover_path == playlist.cover_path
                &&& entry_views(p.audios@) == entry_views(playlist.audios@)
                &&& p.platform@ == playlist.platform@
                &&& p.created_at == now
                &&& p.updated_at == now
            },
    {
        let name = playlist.name.clone().concat(" (Copy)");
        let mut copy = LocalPlaylist::new(name, playlist.platform.clone(), now);
        copy.description = crate::audio::duplicate_opt_string(&playlist.description);
        copy.cover = crate::audio::duplicate_opt_string(&playlist.cover);
        copy.cover_path = crate::audio::duplicate_opt_string(&playlist.cover_path);
        copy.audios = duplicate_entries(&playlist.audios);
        Ok(copy)
    }

    /// Appends to `target` every entry of `source` whose asset identifier
    /// is not yet listed, in source order, and stamps `target` as updated
    /// at `now`.
    pub fn merge_playlists(
        &self,
        target: &mut LocalPlaylist,
        source: &LocalPlaylist,
        now: u64,
    ) -> (r: Result<(), AppError>)
        ensures
            r is Ok,
            entry_views(final(target).audios@) == merge_views(
                entry_views(old(target).audios@),
                entry_views(source.audios@),
            ),
            final(target).updated_at == now,
            final(target).id == old(target).id,
            final(target).name == old(target).name,
            final(target).description == old(target).description,
            final(target).cover_path == old(target).cover_path,
            final(target).cover == old(target).cover,
            final(target).platform == old(target).platform,
            final(target).created_at == old(target).created_at,
    {
        let ghost t0 = entry_views(old(target).audios@);
        let ghost src = entry_views(source.audios@);
        let n = source.audios.len();
        let mut j: usize = 0;
        proof {
            assert(src.skip(0) =~= src);
        }
        while j < n
            invariant
                0 <= j <= n,
                n == source.audios@.len(),
                src == entry_views(source.audios@),
                src.len() == n,
                forall|k: int| 0 <= k < n ==> src[k] == source.audios@[k]@,
                merge_views(t0, src) == merge_views(entry_views(target.audios@), src.skip(j as int)),
                target.id == old(target).id,
                target.name == old(target).name,
                target.description == old(target).description,
                target.cover_path == old(target).cover_path,
                target.cover == old(target).cover,
                target.platform == old(target).platform,
                target.created_at == old(target).created_at,
                target.updated_at == old(target).updated_at,
            decreases n - j,
        {
            let ghost cur = entry_views(target.audios@);
            proof {
                assert(src.skip(j as int).len() > 0);
                assert(src.skip(j as int).first() == src[j as int]);
                assert(src.skip(j as int).drop_first() =~= src.skip(j + 1));
            }
            let already = playlist_has_audio(&target.audios, source.audios[j].audio.id.as_str());
            proof {
                assert(already == views_have_id(cur, src[j as int].audio.id)) by {
                    assert(forall|k: int|
                        0 <= k < target.audios@.len() ==> (#[trigger] cur[k]) == target.audios@[k]@);
                    if already {
                        let w = choose|w: int|
                            0 <= w < target.audios@.len() && (#[trigger] target.audios@[w]).audio.id@
                                == source.audios@[j as int].audio.id@;
                        assert(cur[w].audio.id == src[j as int].audio.id);
                    } else {
                        if views_have_id(cur, src[j as int].audio.id) {
                            let w = choose|w: int|
                                0 <= w < cur.len() && (#[trigger] cur[w]).audio.id == src[j as int].audio.id;
                            assert(target.audios@[w].audio.id@ == source.audios@[j as int].audio.id@);
                        }
                    }
                }
            }
            if !already {
                let copy = source.audios[j].duplicate();
                target.audios.push(copy);
                proof {
                    assert(entry_views(target.audios@) =~= cur.push(src[j as int]));
                }
            }
            j = j + 1;
        }
        proof {
            assert(src.skip(n as int) =~= Seq::<LocalAudioView>::empty());
        }
        target.updated_at = now;
        Ok(())
    }

    /// Rearranges the playlist's entries into a random order — the same
    /// entries, as a multiset — and stamps it as updated at `now`.
    pub fn shuffle_playlist(playlist: &mut LocalPlaylist, now: u64)
        ensures
            entry_views(final(playlist).audios@).to_multiset() == entry_views(
                old(playlist).audios@,
            ).to_multiset(),
            final(playlist).audios@.len() == old(playlist).audios@.len(),
            final(playlist).updated_at == now,
            final(playlist).id == old(playlist).id,
            final(playlist).name == old(playlist).name,
            final(playlist).description == old(playlist).description,
            final(playlist).cover_path == old(playlist).cover_path,
            final(playlist).cover == old(playlist).cover,
            final(playlist).platform == old(playlist).platform,
            final(playlist).created_at == old(playlist).created_at,
    {
        broadcast use vstd::seq_lib::group_to_multiset_ensures;

        let n = playlist.audios.len();
        let mut i: usize = 0;
        while i < n
            invariant
                0 <= i <= n,
                n == playlist.audios@.len(),
                entry_views(playlist.audios@).to_multiset() == entry_views(
                    old(playlist).audios@,
                ).to_multiset(),
                playlist.id == old(playlist).id,
                playlist.name == old(playlist).name,
                playlist.description == old(playlist).description,
                playlist.cover_path == old(playlist).cover_path,
                playlist.cover == old(playlist).cover,
                playlist.platform == old(playlist).platform,
                playlist.created_at == old(playlist).created_at,
                playlist.updated_at == old(playlist).updated_at,
            decreases n - i,
        {
            broadcast use vstd::seq_lib::group_to_multiset_ensures;

            let ghost before = playlist.audios@;
            let pick = i + rand_below(n - i);
            let entry = playlist.audios.remove(pick);
            let ghost mid = playlist.audios@;
            playlist.audios.insert(i, entry);
            proof {
                assert(entry_views(mid) =~= entry_views(before).remove(pick as int));
                assert(entry_views(playlist.audios@) =~= entry_views(mid).insert(
                    i as int,
                    before[pick as int]@,
                ));
                assert(entry_views(before).remove(pick as int).to_multiset() =~= entry_views(
                    before,
                ).to_multiset().remove(entry_views(before)[pick as int]));
                assert(entry_views(mid).insert(i as int, before[pick as int]@).to_multiset()
                    =~= entry_views(mid).to_multiset().insert(before[pick as int]@));
                assert(entry_views(before)[pick as int] == before[pick as int]@);
                assert(entry_views(playlist.audios@).to_multiset() =~= entry_views(
                    before,
                ).to_multiset());
            }
            i = i + 1;
        }
        playlist.updated_at = now;
    }
}

/// The position of the first entry carrying the asset identifier
/// `audio_id`, if any does.
fn first_audio_index(audios: &Vec<LocalAudio>, audio_id: &str) -> (r: Option<usize>)
    ensures
        match r {
            Some(idx) => idx < audios@.len() && audios@[idx as int].audio.id@ == audio_id@
                && forall|k: int|
                0 <= k < idx ==> (#[trigger] audios@[k]).audio.id@ != audio_id@,
            None => !exists|i: int|
                0 <= i < audios@.len() && (#[trigger] audios@[i]).audio.id@ == audio_id@,
        },
{
    let n = audios.len();
    let mut i: usize = 0;
    while i < n
        invariant
            0 <= i <= n,
            n == audios@.len(),
            forall|k: int| 0 <= k < i ==> (#[trigger] audios@[k]).audio.id@ != audio_id@,
        decreases n - i,
    {
        if str_eq(audios[i].audio.id.as_str(), audio_id) {
            return Some(i);
        }
        i = i + 1;
    }
    None
}

/// Whether `audios` lists an entry with asset identifier `audio_id`.
fn playlist_has_audio(audios: &Vec<LocalAudio>, audio_id: &str) -> (r: bool)
    ensures
        r == exists|i: int|
            0 <= i < audios@.len() && (#[trigger] audios@[i]).audio.id@ == audio_id@,
{
    let n = audios.len();
    let mut i: usize = 0;
    while i < n
        invariant
            0 <= i <= n,
            n == audios@.len(),
            forall|k: int| 0 <= k < i ==> (#[trigger] audios@[k]).audio.id@ != audio_id@,
        decreases n - i,
    {
        if str_eq(audios[i].audio.id.as_str(), audio_id) {
            return true;
        }
        i = i + 1;
    }
    false
}

/// Copies a list of entries; the copies equal the originals in value.
fn duplicate_entries(audios: &Vec<LocalAudio>) -> (r: Vec<LocalAudio>)
    ensures
        entry_views(r@) == entry_views(audios@),
{
    let n = audios.len();
    let mut r: Vec<LocalAudio> = Vec::new();
    let mut i: usize = 0;
    while i < n
        invariant
            0 <= i <= n,
            n == audios@.len(),
            r@.len() == i,
            forall|k: int| 0 <= k < i ==> (#[trigger] r@[k])@ == audios@[k]@,
        decreases n - i,
    {
        let copy = audios[i].duplicate();
        r.push(copy);
        i = i + 1;
    }
    proof {
        assert(entry_views(r@) =~= entry_views(audios@));
    }
    r
}

} // verus!
