//! The persisted form of the catalog: one JSON document with the fields
//! `audios`, `playlists` and `settings`, written compactly with a fixed key
//! order. [`save_config_text`] produces exactly the encoding the spec
//! functions here describe, and [`load_config_text`] reads any saved
//! catalog back to an equal value, so a catalog survives a save/load round
//! trip field for field.

use vstd::prelude::*;
use crate::audio::Audio;
use crate::audio::AudioFormat;
use crate::audio::AudioView;
use crate::audio::LocalAudio;
use crate::audio::LocalAudioView;
use crate::catalog::AppSettings;
use crate::catalog::AppSettingsView;
use crate::catalog::Config;
use crate::catalog::ConfigView;
use crate::error::AppError;
use crate::playlist::LocalPlaylist;
use crate::playlist::LocalPlaylistView;

verus! {

use vstd::string::StrSliceExecFns;
use vstd::string::StringExecFns;

// --- The encoding, as spec functions ---------------------------------------

/// The sixteen lowercase hexadecimal digits.
pub open spec fn hex_digit(n: int) -> char {
    if n == 0 {
        '0'
    } else if n == 1 {
        '1'
    } else if n == 2 {
        '2'
    } else if n == 3 {
        '3'
    } else if n == 4 {
        '4'
    } else if n == 5 {
        '5'
    } else if n == 6 {
        '6'
    } else if n == 7 {
        '7'
    } else if n == 8 {
        '8'
    } else if n == 9 {
        '9'
    } else if n == 10 {
        'a'
    } else if n == 11 {
        'b'
    } else if n == 12 {
        'c'
    } else if n == 13 {
        'd'
    } else if n == 14 {
        'e'
    } else {
        'f'
    }
}

/// How one character is written inside a JSON string: quotes and
/// backslashes escaped, control characters as `\u00..`, everything else as
/// itself.
pub open spec fn enc_char(c: char) -> Seq<char> {
    if c == '"' {
        seq!['\\', '"']
    } else if c == '\\' {
        seq!['\\', '\\']
    } else if (c as u32) < 0x20 {
        seq!['\\', 'u', '0', '0', hex_digit((c as u32) as int / 16), hex_digit(
            (c as u32) as int % 16,
        )]
    } else {
        seq![c]
    }
}

/// The escaped body of a JSON string.
pub open spec fn enc_chars(s: Seq<char>) -> Seq<char>
    decreases s.len(),
{
    if s.len() == 0 {
        Seq::empty()
    } else {
        enc_char(s.first()) + enc_chars(s.drop_first())
    }
}

/// A JSON string: the escaped body between quotes.
pub open spec fn enc_string(s: Seq<char>) -> Seq<char> {
    seq!['"'] + enc_chars(s) + seq!['"']
}

/// An unsigned number in decimal.
pub open spec fn dec_chars(n: int) -> Seq<char>
    decreases n,
{
    if n < 10 {
        seq![hex_digit(if n < 0 {
            0
        } else {
            n
        })]
    } else {
        dec_chars(n / 10).push(hex_digit(n % 10))
    }
}

/// A JSON boolean.
pub open spec fn enc_bool(b: bool) -> Seq<char> {
    if b {
        "true"@
    } else {
        "false"@
    }
}

/// An optional JSON string: `null` where there is none.
pub open spec fn enc_opt_string(o: Option<Seq<char>>) -> Seq<char> {
    match o {
        Some(s) => enc_string(s),
        None => "null"@,
    }
}

/// An optional number: `null` where there is none.
pub open spec fn enc_opt_u64(o: Option<u64>) -> Seq<char> {
    match o {
        Some(n) => dec_chars(n as int),
        None => "null"@,
    }
}

/// An audio format as its lowercase JSON string.
pub open spec fn enc_format(f: AudioFormat) -> Seq<char> {
    match f {
        AudioFormat::Mp3 => "\"mp3\""@,
        AudioFormat::M4a => "\"m4a\""@,
        AudioFormat::Flac => "\"flac\""@,
        AudioFormat::Wav => "\"wav\""@,
        AudioFormat::Ogg => "\"ogg\""@,
    }
}

/// An optional audio format: `null` where none is declared.
pub open spec fn enc_opt_format(o: Option<AudioFormat>) -> Seq<char> {
    match o {
        Some(f) => enc_format(f),
        None => "null"@,
    }
}

/// The comma-separated items of a list of JSON strings.
pub open spec fn enc_string_items(l: Seq<Seq<char>>) -> Seq<char>
    decreases l.len(),
{
    if l.len() == 0 {
        Seq::empty()
    } else if l.len() == 1 {
        enc_string(l.first())
    } else {
        enc_string(l.first()) + seq![','] + enc_string_items(l.drop_first())
    }
}

/// A JSON list of strings.
pub open spec fn enc_string_list(l: Seq<Seq<char>>) -> Seq<char> {
    seq!['['] + enc_string_items(l) + seq![']']
}

/// The first half of an asset object: its identity, title, source and
/// authors.
pub open spec fn enc_audio_head(a: AudioView) -> Seq<char> {
    "{\"id\":"@ + enc_string(a.id) + ",\"title\":"@ + enc_string(a.title) + ",\"download_url\":"@
        + enc_string(a.download_url) + ",\"local_url\":"@ + enc_opt_string(a.local_url)
        + ",\"author\":"@ + enc_string_list(a.author)
}

/// The second half of an asset object: its cover, tags, duration, platform,
/// date and format.
pub open spec fn enc_audio_tail(a: AudioView) -> Seq<char> {
    ",\"cover\":"@ + enc_opt_string(a.cover) + ",\"tags\":"@ + enc_string_list(a.tags)
        + ",\"duration\":"@ + enc_opt_u64(a.duration) + ",\"platform\":"@ + enc_string(a.platform)
        + ",\"date\":"@ + dec_chars(a.date as int) + ",\"format\":"@ + enc_opt_format(a.format)
        + "}"@
}

/// One asset as a JSON object with a fixed key order.
pub open spec fn enc_audio(a: AudioView) -> Seq<char> {
    enc_audio_head(a) + enc_audio_tail(a)
}

/// The first half of a catalog entry object: its paths and its asset.
pub open spec fn enc_local_audio_head(l: LocalAudioView) -> Seq<char> {
    "{\"path\":"@ + enc_string(l.path) + ",\"cover_path\":"@ + enc_opt_string(l.cover_path)
        + ",\"audio\":"@ + enc_audio(l.audio)
}

/// The second half of a catalog entry object: its size and usage stamps.
pub open spec fn enc_local_audio_tail(l: LocalAudioView) -> Seq<char> {
    ",\"file_size\":"@ + enc_opt_u64(l.file_size) + ",\"created_at\":"@ + dec_chars(
        l.created_at as int,
    ) + ",\"last_played\":"@ + enc_opt_u64(l.last_played) + ",\"play_count\":"@ + dec_chars(
        l.play_count as int,
    ) + "}"@
}

/// One catalog entry as a JSON object with a fixed key order.
pub open spec fn enc_local_audio(l: LocalAudioView) -> Seq<char> {
    enc_local_audio_head(l) + enc_local_audio_tail(l)
}

/// The comma-separated items of a list of catalog entries.
pub open spec fn enc_local_audio_items(l: Seq<LocalAudioView>) -> Seq<char>
    decreases l.len(),
{
    if l.len() == 0 {
        Seq::empty()
    } else if l.len() == 1 {
        enc_local_audio(l.first())
    } else {
        enc_local_audio(l.first()) + seq![','] + enc_local_audio_items(l.drop_first())
    }
}

/// A JSON list of catalog entries.
pub open spec fn enc_local_audio_list(l: Seq<LocalAudioView>) -> Seq<char> {
    seq!['['] + enc_local_audio_items(l) + seq![']']
}

/// The first half of a playlist object: its identifier, name, description
/// and covers.
pub open spec fn enc_playlist_head(p: LocalPlaylistView) -> Seq<char> {
    "{\"id\":"@ + enc_string(p.id) + ",\"name\":"@ + enc_string(p.name) + ",\"description\":"@
        + enc_opt_string(p.description) + ",\"cover_path\":"@ + enc_opt_string(p.cover_path)
        + ",\"cover\":"@ + enc_opt_string(p.cover)
}

/// The second half of a playlist object: its entries, platform and stamps.
pub open spec fn enc_playlist_tail(p: LocalPlaylistView) -> Seq<char> {
    ",\"audios\":"@ + enc_local_audio_list(p.audios) + ",\"platform\":"@ + enc_string(p.platform)
        + ",\"created_at\":"@ + dec_chars(p.created_at as int) + ",\"updated_at\":"@ + dec_chars(
        p.updated_at as int,
    ) + "}"@
}

/// One playlist as a JSON object with a fixed key order.
pub open spec fn enc_playlist(p: LocalPlaylistView) -> Seq<char> {
    enc_playlist_head(p) + enc_playlist_tail(p)
}

/// The comma-separated items of a list of playlists.
pub open spec fn enc_playlist_items(l: Seq<LocalPlaylistView>) -> Seq<char>
    decreases l.len(),
{
    if l.len() == 0 {
        Seq::empty()
    } else if l.len() == 1 {
        enc_playlist(l.first())
    } else {
        enc_playlist(l.first()) + seq![','] + enc_playlist_items(l.drop_first())
    }
}

/// A JSON list of playlists.
pub open spec fn enc_playlist_list(l: Seq<LocalPlaylistView>) -> Seq<char> {
    seq!['['] + enc_playlist_items(l) + seq![']']
}

/// The settings as a JSON object with a fixed key order.
pub open spec fn enc_settings(s: AppSettingsView) -> Seq<char> {
    "{\"download_path\":"@ + enc_opt_string(s.download_path) + ",\"max_cache_size\":"@
        + enc_opt_u64(s.max_cache_size) + ",\"auto_download_cover\":"@ + enc_bool(
        s.auto_download_cover,
    ) + ",\"default_audio_format\":"@ + enc_string(s.default_audio_format) + "}"@
}

/// The whole catalog as one JSON document.
pub open spec fn enc_config(c: ConfigView) -> Seq<char> {
    "{\"audios\":"@ + enc_local_audio_list(c.audios) + ",\"playlists\":"@ + enc_playlist_list(
        c.playlists,
    ) + ",\"settings\":"@ + enc_settings(c.settings) + "}"@
}

// --- Writing ----------------------------------------------------------------

/// Relies on String::push: appends exactly one character.
#[verifier::external_body]
fn push_char(out: &mut String, c: char)
    ensures
        final(out)@ == old(out)@ + seq![c],
{
    out.push(c);
}

/// The escaped body of one character appended to `out`.
fn emit_char(out: &mut String, c: char)
    ensures
        final(out)@ == old(out)@ + enc_char(c),
{
    if c == '"' {
        push_char(out, '\\');
        push_char(out, '"');
        proof {
            assert(final(out)@ =~= old(out)@ + enc_char(c));
        }
    } else if c == '\\' {
        push_char(out, '\\');
        push_char(out, '\\');
        proof {
            assert(final(out)@ =~= old(out)@ + enc_char(c));
        }
    } else if (c as u32) < 0x20 {
        let code = c as u32;
        push_char(out, '\\');
        push_char(out, 'u');
        push_char(out, '0');
        push_char(out, '0');
        push_char(out, hex_digit_char(code / 16));
        push_char(out, hex_digit_char(code % 16));
        proof {
            assert(final(out)@ =~= old(out)@ + enc_char(c));
        }
    } else {
        push_char(out, c);
        proof {
            assert(final(out)@ =~= old(out)@ + enc_char(c));
        }
    }
}

/// The lowercase hexadecimal digit of a value below sixteen.
fn hex_digit_char(n: u32) -> (r: char)
    requires
        n < 16,
    ensures
        r == hex_digit(n as int),
{
    if n == 0 {
        '0'
    } else if n == 1 {
        '1'
    } else if n == 2 {
        '2'
    } else if n == 3 {
        '3'
    } else if n == 4 {
        '4'
    } else if n == 5 {
        '5'
    } else if n == 6 {
        '6'
    } else if n == 7 {
        '7'
    } else if n == 8 {
        '8'
    } else if n == 9 {
        '9'
    } else if n == 10 {
        'a'
    } else if n == 11 {
        'b'
    } else if n == 12 {
        'c'
    } else if n == 13 {
        'd'
    } else if n == 14 {
        'e'
    } else {
        'f'
    }
}

/// Appending a character to the text extends its escaped body by that
/// character's encoding.
proof fn lemma_enc_chars_snoc(s: Seq<char>, c: char)
    ensures
        enc_chars(s.push(c)) == enc_chars(s) + enc_char(c),
    decreases s.len(),
{
    if s.len() == 0 {
        assert(s.push(c).first() == c);
        assert(s.push(c).drop_first() =~= Seq::<char>::empty());
        assert(enc_chars(Seq::<char>::empty()) =~= Seq::<char>::empty());
        assert(enc_chars(s.push(c)) =~= enc_chars(s) + enc_char(c));
    } else {
        assert(s.push(c).first() == s.first());
        assert(s.push(c).drop_first() =~= s.drop_first().push(c));
        lemma_enc_chars_snoc(s.drop_first(), c);
        assert(enc_chars(s.push(c)) =~= enc_chars(s) + enc_char(c));
    }
}

/// A JSON string appended to `out`.
fn emit_string(out: &mut String, s: &str)
    ensures
        final(out)@ == old(out)@ + enc_string(s@),
{
    push_char(out, '"');
    let n = s.unicode_len();
    let mut i: usize = 0;
    while i < n
        invariant
            0 <= i <= n,
            n == s@.len(),
            out@ == old(out)@ + seq!['"'] + enc_chars(s@.take(i as int)),
        decreases n - i,
    {
        let c = s.get_char(i);
        proof {
            assert(s@.take(i + 1) =~= s@.take(i as int).push(s@[i as int]));
            lemma_enc_chars_snoc(s@.take(i as int), s@[i as int]);
        }
        emit_char(out, c);
        proof {
            assert(out@ =~= old(out)@ + seq!['"'] + enc_chars(s@.take(i + 1)));
        }
        i = i + 1;
    }
    proof {
        assert(s@.take(n as int) =~= s@);
    }
    push_char(out, '"');
    proof {
        assert(out@ =~= old(out)@ + enc_string(s@));
    }
}

/// An unsigned number appended to `out` in decimal.
fn emit_u64(out: &mut String, n: u64)
    ensures
        final(out)@ == old(out)@ + dec_chars(n as int),
    decreases n,
{
    if n < 10 {
        push_char(out, hex_digit_char(n as u32));
    } else {
        emit_u64(out, n / 10);
        push_char(out, hex_digit_char((n % 10) as u32));
        proof {
            assert(out@ =~= old(out)@ + dec_chars(n as int));
        }
    }
}

/// A literal token appended to `out`.
fn emit_lit(out: &mut String, lit: &str)
    ensures
        final(out)@ == old(out)@ + lit@,
{
    out.append(lit);
}

/// An optional JSON string appended to `out`.
fn emit_opt_string(out: &mut String, o: &Option<String>)
    ensures
        final(out)@ == old(out)@ + enc_opt_string(o.deep_view()),
{
    match o {
        Some(s) => emit_string(out, s.as_str()),
        None => emit_lit(out, "null"),
    }
}

/// An optional number appended to `out`.
fn emit_opt_u64(out: &mut String, o: &Option<u64>)
    ensures
        final(out)@ == old(out)@ + enc_opt_u64(*o),
{
    match o {
        Some(n) => emit_u64(out, *n),
        None => emit_lit(out, "null"),
    }
}

/// An optional audio format appended to `out`.
fn emit_opt_format(out: &mut String, o: &Option<AudioFormat>)
    ensures
        final(out)@ == old(out)@ + enc_opt_format(*o),
{
    match o {
        Some(AudioFormat::Mp3) => emit_lit(out, "\"mp3\""),
        Some(AudioFormat::M4a) => emit_lit(out, "\"m4a\""),
        Some(AudioFormat::Flac) => emit_lit(out, "\"flac\""),
        Some(AudioFormat::Wav) => emit_lit(out, "\"wav\""),
        Some(AudioFormat::Ogg) => emit_lit(out, "\"ogg\""),
        None => emit_lit(out, "null"),
    }
}

/// A JSON list of strings appended to `out`.
fn emit_string_list(out: &mut String, l: &Vec<String>)
    ensures
        final(out)@ == old(out)@ + enc_string_list(l.deep_view()),
{
    push_char(out, '[');
    emit_string_items(out, l, 0);
    push_char(out, ']');
    proof {
        assert(l.deep_view().skip(0) =~= l.deep_view());
        assert(out@ =~= old(out)@ + enc_string_list(l.deep_view()));
    }
}

/// The items of a list of strings from position `from` on, appended to
/// `out` with separating commas.
fn emit_string_items(out: &mut String, l: &Vec<String>, from: usize)
    requires
        from <= l@.len(),
    ensures
        final(out)@ == old(out)@ + enc_string_items(l.deep_view().skip(from as int)),
    decreases l@.len() - from,
{
    proof {
        assert(l.deep_view().len() == l@.len());
        assert(forall|k: int| 0 <= k < l@.len() ==> l.deep_view()[k] == (#[trigger] l@[k])@);
    }
    if from == l.len() {
        proof {
            assert(l.deep_view().skip(from as int) =~= Seq::<Seq<char>>::empty());
        }
        return ;
    }
    emit_string(out, l[from].as_str());
    proof {
        assert(l.deep_view().skip(from as int).first() == l@[from as int]@);
    }
    if from + 1 < l.len() {
        push_char(out, ',');
        emit_string_items(out, l, from + 1);
        proof {
            assert(l.deep_view().skip(from as int).drop_first() =~= l.deep_view().skip(from + 1));
            assert(out@ =~= old(out)@ + enc_string_items(l.deep_view().skip(from as int)));
        }
    } else {
        proof {
            assert(l.deep_view().skip(from as int).len() == 1);
            assert(out@ =~= old(out)@ + enc_string_items(l.deep_view().skip(from as int)));
        }
    }
}

/// One asset appended to `out` as a JSON object.
#[verifier::rlimit(80)]
fn emit_audio(out: &mut String, a: &Audio)
    ensures
        final(out)@ == old(out)@ + enc_audio(a@),
{
    emit_lit(out, "{\"id\":");
    emit_string(out, a.id.as_str());
    emit_lit(out, ",\"title\":");
    emit_string(out, a.title.as_str());
    emit_lit(out, ",\"download_url\":");
    emit_string(out, a.download_url.as_str());
    emit_lit(out, ",\"local_url\":");
    emit_opt_string(out, &a.local_url);
    emit_lit(out, ",\"author\":");
    emit_string_list(out, &a.author);
    proof {
        assert(out@ =~= old(out)@ + enc_audio_head(a@));
    }
    let ghost mid = out@;
    emit_lit(out, ",\"cover\":");
    emit_opt_string(out, &a.cover);
    emit_lit(out, ",\"tags\":");
    emit_string_list(out, &a.tags);
    emit_lit(out, ",\"duration\":");
    emit_opt_u64(out, &a.duration);
    emit_lit(out, ",\"platform\":");
    emit_string(out, a.platform.as_str());
    emit_lit(out, ",\"date\":");
    emit_u64(out, a.date);
    emit_lit(out, ",\"format\":");
    emit_opt_format(out, &a.format);
    emit_lit(out, "}");
    proof {
        assert(out@ =~= mid + enc_audio_tail(a@));
        vstd::seq_lib::lemma_concat_associative(
            old(out)@,
            enc_audio_head(a@),
            enc_audio_tail(a@),
        );
    }
}

/// One catalog entry appended to `out` as a JSON object.
#[verifier::rlimit(80)]
fn emit_local_audio(out: &mut String, l: &LocalAudio)
    ensures
        final(out)@ == old(out)@ + enc_local_audio(l@),
{
    emit_lit(out, "{\"path\":");
    emit_string(out, l.path.as_str());
    emit_lit(out, ",\"cover_path\":");
    emit_opt_string(out, &l.cover_path);
    emit_lit(out, ",\"audio\":");
    emit_audio(out, &l.audio);
    proof {
        assert(out@ =~= old(out)@ + enc_local_audio_head(l@));
    }
    let ghost mid = out@;
    emit_lit(out, ",\"file_size\":");
    emit_opt_u64(out, &l.file_size);
    emit_lit(out, ",\"created_at\":");
    emit_u64(out, l.created_at);
    emit_lit(out, ",\"last_played\":");
    emit_opt_u64(out, &l.last_played);
    emit_lit(out, ",\"play_count\":");
    emit_u64(out, l.play_count as u64);
    emit_lit(out, "}");
    proof {
        assert(out@ =~= mid + enc_local_audio_tail(l@));
        vstd::seq_lib::lemma_concat_associative(
            old(out)@,
            enc_local_audio_head(l@),
            enc_local_audio_tail(l@),
        );
    }
}

/// A JSON list of catalog entries appended to `out`.
fn emit_local_audio_list(out: &mut String, l: &Vec<LocalAudio>)
    ensures
        final(out)@ == old(out)@ + enc_local_audio_list(crate::audio::entry_views(l@)),
{
    push_char(out, '[');
    emit_local_audio_items(out, l, 0);
    push_char(out, ']');
    proof {
        assert(crate::audio::entry_views(l@).skip(0) =~= crate::audio::entry_views(l@));
        assert(out@ =~= old(out)@ + enc_local_audio_list(crate::audio::entry_views(l@)));
    }
}

/// The entries from position `from` on, appended with separating commas.
#[verifier::rlimit(80)]
fn emit_local_audio_items(out: &mut String, l: &Vec<LocalAudio>, from: usize)
    requires
        from <= l@.len(),
    ensures
        final(out)@ == old(out)@ + enc_local_audio_items(
            crate::audio::entry_views(l@).skip(from as int),
        ),
    decreases l@.len() - from,
{
    let ghost evs = crate::audio::entry_views(l@);
    proof {
        assert(evs.len() == l@.len());
        assert(forall|k: int| 0 <= k < l@.len() ==> evs[k] == (#[trigger] l@[k])@);
    }
    if from == l.len() {
        proof {
            assert(evs.skip(from as int) =~= Seq::<LocalAudioView>::empty());
        }
        return ;
    }
    emit_local_audio(out, &l[from]);
    proof {
        assert(evs.skip(from as int).first() == l@[from as int]@);
    }
    if from + 1 < l.len() {
        push_char(out, ',');
        emit_local_audio_items(out, l, from + 1);
        proof {
            assert(evs.skip(from as int).drop_first() =~= evs.skip(from + 1));
            assert(out@ =~= old(out)@ + enc_local_audio_items(evs.skip(from as int)));
        }
    } else {
        proof {
            assert(evs.skip(from as int).len() == 1);
            assert(out@ =~= old(out)@ + enc_local_audio_items(evs.skip(from as int)));
        }
    }
}

/// One playlist appended to `out` as a JSON object.
#[verifier::rlimit(80)]
fn emit_playlist(out: &mut String, p: &LocalPlaylist)
    ensures
        final(out)@ == old(out)@ + enc_playlist(p@),
{
    emit_lit(out, "{\"id\":");
    emit_string(out, p.id.as_str());
    emit_lit(out, ",\"name\":");
    emit_string(out, p.name.as_str());
    emit_lit(out, ",\"description\":");
    emit_opt_string(out, &p.description);
    emit_lit(out, ",\"cover_path\":");
    emit_opt_string(out, &p.cover_path);
    emit_lit(out, ",\"cover\":");
    emit_opt_string(out, &p.cover);
    proof {
        assert(out@ =~= old(out)@ + enc_playlist_head(p@));
    }
    let ghost mid = out@;
    emit_lit(out, ",\"audios\":");
    emit_local_audio_list(out, &p.audios);
    emit_lit(out, ",\"platform\":");
    emit_string(out, p.platform.as_str());
    emit_lit(out, ",\"created_at\":");
    emit_u64(out, p.created_at);
    emit_lit(out, ",\"updated_at\":");
    emit_u64(out, p.updated_at);
    emit_lit(out, "}");
    proof {
        assert(crate::audio::entry_views(p.audios@) =~= p@.audios);
        assert(out@ =~= mid + enc_playlist_tail(p@));
        vstd::seq_lib::lemma_concat_associative(
            old(out)@,
            enc_playlist_head(p@),
            enc_playlist_tail(p@),
        );
    }
}

/// A JSON list of playlists appended to `out`.
fn emit_playlist_list(out: &mut String, l: &Vec<LocalPlaylist>)
    ensures
        final(out)@ == old(out)@ + enc_playlist_list(playlist_views(l@)),
{
    push_char(out, '[');
    emit_playlist_items(out, l, 0);
    push_char(out, ']');
    proof {
        assert(playlist_views(l@).skip(0) =~= playlist_views(l@));
        assert(out@ =~= old(out)@ + enc_playlist_list(playlist_views(l@)));
    }
}

/// The mathematical values of a list of playlists.
pub open spec fn playlist_views(l: Seq<LocalPlaylist>) -> Seq<LocalPlaylistView> {
    l.map_values(|p: LocalPlaylist| p@)
}

/// The playlists from position `from` on, appended with separating commas.
#[verifier::rlimit(80)]
fn emit_playlist_items(out: &mut String, l: &Vec<LocalPlaylist>, from: usize)
    requires
        from <= l@.len(),
    ensures
        final(out)@ == old(out)@ + enc_playlist_items(playlist_views(l@).skip(from as int)),
    decreases l@.len() - from,
{
    let ghost pvs = playlist_views(l@);
    proof {
        assert(pvs.len() == l@.len());
        assert(forall|k: int| 0 <= k < l@.len() ==> pvs[k] == (#[trigger] l@[k])@);
    }
    if from == l.len() {
        proof {
            assert(pvs.skip(from as int) =~= Seq::<LocalPlaylistView>::empty());
        }
        return ;
    }
    emit_playlist(out, &l[from]);
    proof {
        assert(pvs.skip(from as int).first() == l@[from as int]@);
    }
    if from + 1 < l.len() {
        push_char(out, ',');
        emit_playlist_items(out, l, from + 1);
        proof {
            assert(pvs.skip(from as int).drop_first() =~= pvs.skip(from + 1));
            assert(out@ =~= old(out)@ + enc_playlist_items(pvs.skip(from as int)));
        }
    } else {
        proof {
            assert(pvs.skip(from as int).len() == 1);
            assert(out@ =~= old(out)@ + enc_playlist_items(pvs.skip(from as int)));
        }
    }
}

/// The settings appended to `out` as a JSON object.
#[verifier::rlimit(80)]
fn emit_settings(out: &mut String, s: &AppSettings)
    ensures
        final(out)@ == old(out)@ + enc_settings(s@),
{
    emit_lit(out, "{\"download_path\":");
    emit_opt_string(out, &s.download_path);
    emit_lit(out, ",\"max_cache_size\":");
    emit_opt_u64(out, &s.max_cache_size);
    emit_lit(out, ",\"auto_download_cover\":");
    if s.auto_download_cover {
        emit_lit(out, "true");
    } else {
        emit_lit(out, "false");
    }
    emit_lit(out, ",\"default_audio_format\":");
    emit_string(out, s.default_audio_format.as_str());
    emit_lit(out, "}");
    proof {
        assert(out@ =~= old(out)@ + enc_settings(s@));
    }
}

/// Serializes the whole catalog into the one document the cache persists.
#[verifier::rlimit(80)]
pub fn save_config_text(config: &Config) -> (r: String)
    ensures
        r@ == enc_config(config@),
{
    let mut out = String::new();
    emit_lit(&mut out, "{\"audios\":");
    emit_local_audio_list(&mut out, &config.audios);
    emit_lit(&mut out, ",\"playlists\":");
    emit_playlist_list(&mut out, &config.playlists);
    emit_lit(&mut out, ",\"settings\":");
    emit_settings(&mut out, &config.settings);
    emit_lit(&mut out, "}");
    proof {
        assert(crate::audio::entry_views(config.audios@) =~= config@.audios);
        assert(playlist_views(config.playlists@) =~= config@.playlists);
        assert(out@ =~= enc_config(config@));
    }
    out
}

// --- Reading ----------------------------------------------------------------

/// Whether the token `t` sits in `s` exactly at position `pos`.
pub open spec fn str_at(s: Seq<char>, pos: int, t: Seq<char>) -> bool {
    0 <= pos && pos + t.len() <= s.len() && s.subrange(pos, pos + t.len()) == t
}

/// A concatenated token sits at a position exactly when its parts sit there
/// in sequence.
proof fn lemma_str_at_concat(s: Seq<char>, pos: int, a: Seq<char>, b: Seq<char>)
    ensures
        str_at(s, pos, a + b) <==> (str_at(s, pos, a) && str_at(s, pos + a.len(), b)),
{
    if str_at(s, pos, a + b) {
        assert forall|i: int| 0 <= i < a.len() implies s[pos + i] == a[i] by {
            assert(s.subrange(pos, pos + (a + b).len() as int)[i] == (a + b)[i]);
        }
        assert(s.subrange(pos, pos + a.len()) =~= a);
        assert forall|i: int| 0 <= i < b.len() implies s[pos + a.len() + i] == b[i] by {
            assert(s.subrange(pos, pos + (a + b).len() as int)[a.len() + i] == (a + b)[a.len()
                + i]);
        }
        assert(s.subrange(pos + a.len(), pos + a.len() + b.len()) =~= b);
    }
    if str_at(s, pos, a) && str_at(s, pos + a.len(), b) {
        assert forall|i: int| 0 <= i < a.len() implies s[pos + i] == a[i] by {
            assert(s.subrange(pos, pos + a.len() as int)[i] == a[i]);
        }
        assert forall|i: int| 0 <= i < b.len() implies s[pos + a.len() + i] == b[i] by {
            assert(s.subrange(pos + a.len(), pos + a.len() + b.len() as int)[i] == b[i]);
        }
        assert(s.subrange(pos, pos + (a + b).len() as int) =~= a + b);
    }
}

/// Every character of a token read through `str_at` is a character of `s`.
proof fn lemma_str_at_index(s: Seq<char>, pos: int, t: Seq<char>, i: int)
    requires
        str_at(s, pos, t),
        0 <= i < t.len(),
    ensures
        s[pos + i] == t[i],
{
    assert(s.subrange(pos, pos + t.len() as int)[i] == t[i]);
}

/// Consumes the literal token `lit` at `pos`: succeeds exactly where the
/// token sits there.
fn eat_lit(s: &str, pos: usize, lit: &str) -> (r: Result<usize, AppError>)
    requires
        pos <= s@.len(),
    ensures
        r matches Ok(end) ==> end == pos + lit@.len() && str_at(s@, pos as int, lit@) && end <= s@.len(),
        str_at(s@, pos as int, lit@) ==> r is Ok,
{
    let n = s.unicode_len();
    let m = lit.unicode_len();
    if n - pos < m {
        proof {
            assert(!str_at(s@, pos as int, lit@));
        }
        return Err(parse_error());
    }
    let mut i: usize = 0;
    while i < m
        invariant
            0 <= i <= m,
            pos + m <= n,
            n == s@.len(),
            m == lit@.len(),
            forall|j: int| 0 <= j < i ==> s@[pos + j] == lit@[j],
        decreases m - i,
    {
        if s.get_char(pos + i) != lit.get_char(i) {
            proof {
                if str_at(s@, pos as int, lit@) {
                    lemma_str_at_index(s@, pos as int, lit@, i as int);
                }
            }
            return Err(parse_error());
        }
        i = i + 1;
    }
    proof {
        assert(s@.subrange(pos as int, pos + m as int) =~= lit@);
    }
    Ok(pos + m)
}

/// The failure every unparsable document reports.
fn parse_error() -> (r: AppError)
    ensures
        r is Json,
{
    AppError::Json(String::from_str("the catalog document is not in the saved form"))
}

/// A decimal digit.
pub open spec fn is_digit_char(c: char) -> bool {
    '0' <= c && c <= '9'
}

/// The numeric value of one decimal digit.
pub open spec fn digit_value(c: char) -> int {
    c as u32 as int - '0' as u32 as int
}

/// The numeric value of a run of decimal digits.
pub open spec fn digits_value(t: Seq<char>) -> int
    decreases t.len(),
{
    if t.len() == 0 {
        0
    } else {
        digits_value(t.drop_last()) * 10 + digit_value(t.last())
    }
}

/// The decimal rendering of a number is all digits, at least one, and reads
/// back as the number.
proof fn lemma_dec_chars(n: int)
    requires
        n >= 0,
    ensures
        dec_chars(n).len() >= 1,
        forall|i: int| 0 <= i < dec_chars(n).len() ==> is_digit_char(#[trigger] dec_chars(n)[i]),
        digits_value(dec_chars(n)) == n,
    decreases n,
{
    if n < 10 {
        assert(dec_chars(n) =~= seq![hex_digit(n)]);
        assert(dec_chars(n).drop_last() =~= Seq::<char>::empty());
        assert(digits_value(Seq::<char>::empty()) == 0);
        assert(is_digit_char(hex_digit(n)));
        assert(digit_value(hex_digit(n)) == n);
        assert(digits_value(dec_chars(n)) == digits_value(Seq::<char>::empty()) * 10
            + digit_value(hex_digit(n)));
    } else {
        lemma_dec_chars(n / 10);
        assert(dec_chars(n).drop_last() =~= dec_chars(n / 10));
        assert(dec_chars(n).last() == hex_digit(n % 10));
        assert(digit_value(hex_digit(n % 10)) == n % 10);
        assert(digits_value(dec_chars(n)) == digits_value(dec_chars(n / 10)) * 10 + digit_value(
            hex_digit(n % 10),
        ));
        assert(n / 10 * 10 + n % 10 == n);
        assert(forall|i: int|
            0 <= i < dec_chars(n).len() - 1 ==> #[trigger] dec_chars(n)[i] == dec_chars(n / 10)[i]);
    }
}

/// Growing a digit run never shrinks its value.
proof fn lemma_digits_value_take(t: Seq<char>, k: int)
    requires
        0 <= k <= t.len(),
        forall|i: int| 0 <= i < t.len() ==> is_digit_char(#[trigger] t[i]),
    ensures
        0 <= digits_value(t.take(k)) <= digits_value(t),
    decreases t.len() - k,
{
    if k == t.len() {
        assert(t.take(k) =~= t);
        lemma_digits_value_nonneg(t);
    } else {
        lemma_digits_value_take(t, k + 1);
        assert(t.take(k + 1).drop_last() =~= t.take(k));
        assert(t.take(k + 1).last() == t[k]);
        lemma_digits_value_nonneg(t.take(k));
    }
}

/// A digit run's value is never negative.
proof fn lemma_digits_value_nonneg(t: Seq<char>)
    requires
        forall|i: int| 0 <= i < t.len() ==> is_digit_char(#[trigger] t[i]),
    ensures
        digits_value(t) >= 0,
    decreases t.len(),
{
    if t.len() > 0 {
        assert(forall|i: int|
            0 <= i < t.drop_last().len() ==> is_digit_char(#[trigger] t.drop_last()[i]));
        lemma_digits_value_nonneg(t.drop_last());
    }
}

/// Whether the decimal rendering of `n` sits at `pos` and ends the digit
/// run: the next character, if any, is not a digit.
pub open spec fn num_at(s: Seq<char>, pos: int, n: u64) -> bool {
    &&& str_at(s, pos, dec_chars(n as int))
    &&& (pos + dec_chars(n as int).len() == s.len() || !is_digit_char(
        s[pos + dec_chars(n as int).len()],
    ))
}

/// Reads a decimal number: where the rendering of `n` sits at `pos` with
/// its digit run ending there, it returns exactly `n`.
fn parse_u64(s: &str, pos: usize) -> (r: Result<(u64, usize), AppError>)
    requires
        pos <= s@.len(),
    ensures
        r matches Ok((v, end)) ==> pos < end <= s@.len(),
        forall|n: u64|
            num_at(s@, pos as int, n) ==> (r matches Ok((v, end)) && v == n && end == pos
                + dec_chars(n as int).len()),
{
    let n_len = s.unicode_len();
    let mut cur: usize = pos;
    let mut acc: u64 = 0;
    let mut any = false;
    while cur < n_len && is_digit(s.get_char(cur))
        invariant
            pos <= cur <= n_len,
            n_len == s@.len(),
            forall|j: int| pos <= j < cur ==> is_digit_char(#[trigger] s@[j]),
            acc as int == digits_value(s@.subrange(pos as int, cur as int)),
            any == (cur > pos),
            forall|m: u64| num_at(s@, pos as int, m) ==> cur <= pos + dec_chars(m as int).len(),
        decreases n_len - cur,
    {
        let c = s.get_char(cur);
        let d = (c as u32 - 48) as u64;
        proof {
            assert(d < 10) by {
                assert(is_digit_char(c));
            }
            assert(s@.subrange(pos as int, cur + 1).drop_last() =~= s@.subrange(
                pos as int,
                cur as int,
            ));
            assert(s@.subrange(pos as int, cur + 1).last() == s@[cur as int]);
            assert forall|m: u64| num_at(s@, pos as int, m) implies cur + 1 <= pos + dec_chars(
                m as int,
            ).len() by {
                lemma_dec_chars(m as int);
                if cur + 1 > pos + dec_chars(m as int).len() {
                    // The digit run of m would end right here, yet the
                    // character at its end is a digit.
                    assert(!is_digit_char(s@[pos + dec_chars(m as int).len()]));
                }
            }
        }
        let next = match acc.checked_mul(10) {
            Some(t) => t.checked_add(d),
            None => None,
        };
        match next {
            Some(v) => {
                acc = v;
            },
            None => {
                proof {
                    assert forall|m: u64| !num_at(s@, pos as int, m) by {
                        if num_at(s@, pos as int, m) {
                            lemma_dec_chars(m as int);
                            lemma_digits_prefix(s@, pos as int, cur as int, m);
                            assert(digits_value(s@.subrange(pos as int, cur + 1)) <= m);
                        }
                    }
                }
                return Err(parse_error());
            },
        }
        any = true;
        cur = cur + 1;
    }
    if !any {
        proof {
            assert forall|m: u64| !num_at(s@, pos as int, m) by {
                if num_at(s@, pos as int, m) {
                    lemma_dec_chars(m as int);
                    lemma_str_at_index(s@, pos as int, dec_chars(m as int), 0);
                }
            }
        }
        return Err(parse_error());
    }
    proof {
        assert forall|m: u64| num_at(s@, pos as int, m) implies acc == m && cur == pos + dec_chars(
            m as int,
        ).len() by {
            lemma_dec_chars(m as int);
            let dlen = dec_chars(m as int).len() as int;
            assert(cur <= pos + dlen);
            if cur < pos + dlen {
                // The next character continues m's digit run, so the loop
                // could not have stopped here.
                lemma_str_at_index(s@, pos as int, dec_chars(m as int), cur - pos);
                assert(is_digit_char(s@[cur as int]));
            }
            assert(cur == pos + dlen);
            assert(s@.subrange(pos as int, cur as int) =~= dec_chars(m as int));
        }
    }
    Ok((acc, cur))
}

/// The value of a digit run read one digit past a prefix stays within the
/// full run's value.
proof fn lemma_digits_prefix(s: Seq<char>, pos: int, cur: int, m: u64)
    requires
        num_at(s, pos, m),
        pos <= cur,
        cur + 1 <= pos + dec_chars(m as int).len(),
    ensures
        digits_value(s.subrange(pos, cur + 1)) <= m,
{
    lemma_dec_chars(m as int);
    let d = dec_chars(m as int);
    assert(s.subrange(pos, cur + 1) =~= d.take(cur + 1 - pos)) by {
        assert(forall|i: int| 0 <= i < cur + 1 - pos ==> s[pos + i] == d[i]) by {
            assert(forall|i: int|
                0 <= i < d.len() ==> s.subrange(pos, pos + d.len() as int)[i] == d[i]);
        }
    }
    lemma_digits_value_take(d, cur + 1 - pos);
}

/// Whether one character is a decimal digit.
fn is_digit(c: char) -> (r: bool)
    ensures
        r == is_digit_char(c),
{
    '0' <= c && c <= '9'
}

/// Escaping distributes over concatenation.
proof fn lemma_enc_chars_split(a: Seq<char>, b: Seq<char>)
    ensures
        enc_chars(a + b) == enc_chars(a) + enc_chars(b),
    decreases a.len(),
{
    if a.len() == 0 {
        assert(a + b =~= b);
        assert(enc_chars(a) =~= Seq::<char>::empty());
        assert(enc_chars(a + b) =~= enc_chars(a) + enc_chars(b));
    } else {
        assert((a + b).first() == a.first());
        assert((a + b).drop_first() =~= a.drop_first() + b);
        lemma_enc_chars_split(a.drop_first(), b);
        assert(enc_chars(a + b) =~= enc_chars(a) + enc_chars(b));
    }
}

/// Where the encoding of `v` sits at `pos`, after the opening quote and the
/// escaped prefix `v.take(k)` the text continues with the escape of `v[k]`,
/// or with the closing quote once `k` reaches the end.
proof fn lemma_string_progress(s: Seq<char>, pos: int, v: Seq<char>, k: int)
    requires
        str_at(s, pos, enc_string(v)),
        0 <= k <= v.len(),
    ensures
        enc_chars(v.take(k)).len() <= enc_chars(v).len(),
        pos + 1 + enc_chars(v).len() < s.len(),
        k < v.len() ==> str_at(s, pos + 1 + enc_chars(v.take(k)).len(), enc_char(v[k])),
        k == v.len() ==> s[pos + 1 + enc_chars(v.take(k)).len()] == '"' && enc_chars(
            v.take(k),
        ).len() == enc_chars(v).len(),
{
    assert(v =~= v.take(k) + v.skip(k));
    lemma_enc_chars_split(v.take(k), v.skip(k));
    lemma_str_at_concat(s, pos, seq!['"'] + enc_chars(v), seq!['"']);
    lemma_str_at_concat(s, pos, seq!['"'], enc_chars(v));
    lemma_str_at_concat(s, pos + 1, enc_chars(v.take(k)), enc_chars(v.skip(k)));
    if k < v.len() {
        assert(v.skip(k).first() == v[k]);
        assert(v.skip(k).drop_first() =~= v.skip(k + 1));
        assert(enc_chars(v.skip(k)) == enc_char(v[k]) + enc_chars(v.skip(k + 1)));
        lemma_str_at_concat(
            s,
            pos + 1 + enc_chars(v.take(k)).len(),
            enc_char(v[k]),
            enc_chars(v.skip(k + 1)),
        );
    } else {
        assert(v.take(k) =~= v);
        lemma_str_at_index(s, pos + 1 + enc_chars(v).len(), seq!['"'], 0);
    }
}

/// The numeric value of one lowercase hexadecimal digit, where the
/// character is one.
fn hex_val(c: char) -> (r: Option<u32>)
    ensures
        forall|y: int| 0 <= y < 16 && c == hex_digit(y) ==> r == Some(y as u32),
        r matches Some(x) ==> x < 16 && c == hex_digit(x as int),
{
    match c {
        '0' => Some(0),
        '1' => Some(1),
        '2' => Some(2),
        '3' => Some(3),
        '4' => Some(4),
        '5' => Some(5),
        '6' => Some(6),
        '7' => Some(7),
        '8' => Some(8),
        '9' => Some(9),
        'a' => Some(10),
        'b' => Some(11),
        'c' => Some(12),
        'd' => Some(13),
        'e' => Some(14),
        'f' => Some(15),
        _ => None,
    }
}

/// Reads a JSON string: where the encoding of a text `v` sits at `pos`, it
/// returns exactly `v` and consumes exactly that encoding.
#[verifier::rlimit(100)]
fn parse_string(s: &str, pos: usize) -> (r: Result<(String, usize), AppError>)
    requires
        pos <= s@.len(),
    ensures
        r matches Ok((out, end)) ==> pos < end <= s@.len() && pos < s@.len() && s@[pos as int]
            == '"',
        forall|v: Seq<char>|
            #[trigger] str_at(s@, pos as int, enc_string(v)) ==> (r matches Ok((out, end))
                && out@ == v && end == pos + enc_string(v).len()),
{
    let n_len = s.unicode_len();
    if pos >= n_len || s.get_char(pos) != '"' {
        proof {
            assert forall|v: Seq<char>| !str_at(s@, pos as int, enc_string(v)) by {
                if str_at(s@, pos as int, enc_string(v)) {
                    lemma_str_at_index(s@, pos as int, enc_string(v), 0);
                }
            }
        }
        return Err(parse_error());
    }
    let mut out = String::new();
    let mut cur: usize = pos + 1;
    while cur < n_len
        invariant
            pos + 1 <= cur <= n_len,
            n_len == s@.len(),
            pos < n_len,
            s@[pos as int] == '"',
            forall|v: Seq<char>|
                #[trigger] str_at(s@, pos as int, enc_string(v)) ==> out@ == v.take(
                    out@.len() as int,
                ) && out@.len() <= v.len() && cur == pos + 1 + enc_chars(
                    v.take(out@.len() as int),
                ).len(),
        decreases n_len - cur,
    {
        let c = s.get_char(cur);
        if c == '"' {
            proof {
                assert forall|v: Seq<char>|
                    str_at(s@, pos as int, enc_string(v)) implies out@ == v && cur + 1 == pos
                    + enc_string(v).len() by {
                    lemma_string_progress(s@, pos as int, v, out@.len() as int);
                    if out@.len() < v.len() {
                        let k = out@.len() as int;
                        lemma_str_at_index(
                            s@,
                            pos + 1 + enc_chars(v.take(k)).len(),
                            enc_char(v[k]),
                            0,
                        );
                        assert(enc_char(v[k])[0] != '"');
                    }
                    assert(v.take(out@.len() as int) =~= v);
                }
            }
            return Ok((out, cur + 1));
        } else if c == '\\' {
            if n_len - cur < 2 {
                proof {
                    assert forall|v: Seq<char>| !str_at(s@, pos as int, enc_string(v)) by {
                        if str_at(s@, pos as int, enc_string(v)) {
                            let k = out@.len() as int;
                            lemma_string_progress(s@, pos as int, v, k);
                            if k == v.len() {
                                assert(s@[cur as int] == '"');
                            } else {
                                lemma_str_at_index(s@, cur as int, enc_char(v[k]), 0);
                                assert(enc_char(v[k]).len() >= 2);
                            }
                        }
                    }
                }
                return Err(parse_error());
            }
            let e = s.get_char(cur + 1);
            if e == '"' || e == '\\' {
                proof {
                    assert forall|v: Seq<char>|
                        str_at(s@, pos as int, enc_string(v)) implies out@.push(e) == v.take(
                        out@.len() + 1int,
                    ) && out@.len() + 1 <= v.len() && cur + 2 == pos + 1 + enc_chars(
                        v.take(out@.len() + 1int),
                    ).len() by {
                        let k = out@.len() as int;
                        lemma_string_progress(s@, pos as int, v, k);
                        assert(k < v.len()) by {
                            if k == v.len() {
                                assert(s@[cur as int] == '"');
                            }
                        }
                        lemma_str_at_index(s@, cur as int, enc_char(v[k]), 0);
                        lemma_str_at_index(s@, cur as int, enc_char(v[k]), 1);
                        assert(v[k] == e);
                        assert(v.take(k + 1) =~= v.take(k).push(v[k]));
                        lemma_enc_chars_snoc(v.take(k), v[k]);
                    }
                }
                push_char(&mut out, e);
                cur = cur + 2;
            } else if e == 'u' {
                if n_len - cur < 6 {
                    proof {
                        assert forall|v: Seq<char>| !str_at(s@, pos as int, enc_string(v)) by {
                            if str_at(s@, pos as int, enc_string(v)) {
                                let k = out@.len() as int;
                                lemma_string_progress(s@, pos as int, v, k);
                                if k == v.len() {
                                    assert(s@[cur as int] == '"');
                                } else {
                                    lemma_str_at_index(s@, cur as int, enc_char(v[k]), 0);
                                    lemma_str_at_index(s@, cur as int, enc_char(v[k]), 1);
                                    assert(enc_char(v[k]).len() == 6);
                                }
                            }
                        }
                    }
                    return Err(parse_error());
                }
                let z1 = s.get_char(cur + 2);
                let z2 = s.get_char(cur + 3);
                let h1 = hex_val(s.get_char(cur + 4));
                let h2 = hex_val(s.get_char(cur + 5));
                let code: u32 = match (h1, h2) {
                    (Some(a), Some(b)) => a * 16 + b,
                    _ => 0x20,
                };
                if z1 != '0' || z2 != '0' || code >= 0x20 {
                    proof {
                        assert forall|v: Seq<char>| !str_at(s@, pos as int, enc_string(v)) by {
                            if str_at(s@, pos as int, enc_string(v)) {
                                let k = out@.len() as int;
                                lemma_string_progress(s@, pos as int, v, k);
                                if k == v.len() {
                                    assert(s@[cur as int] == '"');
                                } else {
                                    lemma_str_at_index(s@, cur as int, enc_char(v[k]), 0);
                                    lemma_str_at_index(s@, cur as int, enc_char(v[k]), 1);
                                    assert(enc_char(v[k]).len() == 6);
                                    assert((v[k] as u32) < 0x20);
                                    let hi = (v[k] as u32) as int / 16;
                                    let lo = (v[k] as u32) as int % 16;
                                    lemma_str_at_index(s@, cur as int, enc_char(v[k]), 2);
                                    lemma_str_at_index(s@, cur as int, enc_char(v[k]), 3);
                                    lemma_str_at_index(s@, cur as int, enc_char(v[k]), 4);
                                    lemma_str_at_index(s@, cur as int, enc_char(v[k]), 5);
                                    assert(z1 == '0' && z2 == '0');
                                    assert(s@[cur + 4] == hex_digit(hi));
                                    assert(s@[cur + 5] == hex_digit(lo));
                                    assert(0 <= hi < 16 && 0 <= lo < 16);
                                    assert(h1 == Some(hi as u32));
                                    assert(h2 == Some(lo as u32));
                                    assert(code == hi * 16 + lo);
                                    assert(code == v[k] as u32);
                                }
                            }
                        }
                    }
                    return Err(parse_error());
                }
                let folded = (code as u8) as char;
                proof {
                    assert forall|v: Seq<char>|
                        str_at(s@, pos as int, enc_string(v)) implies out@.push(folded) == v.take(
                        out@.len() + 1int,
                    ) && out@.len() + 1 <= v.len() && cur + 6 == pos + 1 + enc_chars(
                        v.take(out@.len() + 1int),
                    ).len() by {
                        let k = out@.len() as int;
                        lemma_string_progress(s@, pos as int, v, k);
                        if k == v.len() {
                            assert(s@[cur as int] == '"');
                        }
                        lemma_str_at_index(s@, cur as int, enc_char(v[k]), 0);
                        lemma_str_at_index(s@, cur as int, enc_char(v[k]), 1);
                        assert(enc_char(v[k]).len() == 6);
                        assert((v[k] as u32) < 0x20);
                        let hi = (v[k] as u32) as int / 16;
                        let lo = (v[k] as u32) as int % 16;
                        lemma_str_at_index(s@, cur as int, enc_char(v[k]), 4);
                        lemma_str_at_index(s@, cur as int, enc_char(v[k]), 5);
                        assert(s@[cur + 4] == hex_digit(hi));
                        assert(s@[cur + 5] == hex_digit(lo));
                        assert(0 <= hi < 16 && 0 <= lo < 16);
                        assert(h1 == Some(hi as u32));
                        assert(h2 == Some(lo as u32));
                        assert(code == hi * 16 + lo);
                        assert(code == v[k] as u32);
                        vstd::utf8::char_u32_cast(v[k], code);
                        assert((code as u8) as u32 == code);
                        assert(folded == v[k]);
                        assert(v.take(k + 1) =~= v.take(k).push(v[k]));
                        lemma_enc_chars_snoc(v.take(k), v[k]);
                    }
                }
                push_char(&mut out, folded);
                cur = cur + 6;
            } else {
                proof {
                    assert forall|v: Seq<char>| !str_at(s@, pos as int, enc_string(v)) by {
                        if str_at(s@, pos as int, enc_string(v)) {
                            let k = out@.len() as int;
                            lemma_string_progress(s@, pos as int, v, k);
                            if k == v.len() {
                                assert(s@[cur as int] == '"');
                            }
                            lemma_str_at_index(s@, cur as int, enc_char(v[k]), 0);
                            lemma_str_at_index(s@, cur as int, enc_char(v[k]), 1);
                        }
                    }
                }
                return Err(parse_error());
            }
        } else {
            proof {
                assert forall|v: Seq<char>|
                    str_at(s@, pos as int, enc_string(v)) implies out@.push(c) == v.take(
                    out@.len() + 1int,
                ) && out@.len() + 1 <= v.len() && cur + 1 == pos + 1 + enc_chars(
                    v.take(out@.len() + 1int),
                ).len() by {
                    let k = out@.len() as int;
                    lemma_string_progress(s@, pos as int, v, k);
                    if k == v.len() {
                        assert(s@[cur as int] == '"');
                    }
                    lemma_str_at_index(s@, cur as int, enc_char(v[k]), 0);
                    assert(v[k] == c);
                    assert(v.take(k + 1) =~= v.take(k).push(v[k]));
                    lemma_enc_chars_snoc(v.take(k), v[k]);
                }
            }
            push_char(&mut out, c);
            cur = cur + 1;
        }
    }
    proof {
        assert forall|v: Seq<char>| !str_at(s@, pos as int, enc_string(v)) by {
            if str_at(s@, pos as int, enc_string(v)) {
                lemma_string_progress(s@, pos as int, v, out@.len() as int);
            }
        }
    }
    Err(parse_error())
}

/// Whether the digit run reaching up to position `e` ends there: the
/// position is past the input, or not a digit.
pub open spec fn nondigit_at(s: Seq<char>, e: int) -> bool {
    e == s.len() || (0 <= e < s.len() && !is_digit_char(s[e]))
}

/// Reads `true` or `false`.
fn parse_bool(s: &str, pos: usize) -> (r: Result<(bool, usize), AppError>)
    requires
        pos <= s@.len(),
    ensures
        r matches Ok((b, end)) ==> pos < end <= s@.len(),
        forall|b: bool|
            #[trigger] str_at(s@, pos as int, enc_bool(b)) ==> (r matches Ok((res, end)) && res
                == b && end == pos + enc_bool(b).len()),
{
    proof {
        reveal_strlit("true");
        reveal_strlit("false");
    }
    match eat_lit(s, pos, "true") {
        Ok(end) => {
            proof {
                assert forall|b: bool|
                    #[trigger] str_at(s@, pos as int, enc_bool(b)) implies b == true && end == pos
                    + enc_bool(b).len() by {
                    if !b {
                        lemma_str_at_index(s@, pos as int, "false"@, 0);
                        lemma_str_at_index(s@, pos as int, "true"@, 0);
                    }
                }
            }
            return Ok((true, end));
        },
        Err(_) => {},
    }
    match eat_lit(s, pos, "false") {
        Ok(end) => {
            return Ok((false, end));
        },
        Err(_) => {},
    }
    Err(parse_error())
}

/// Reads an optional JSON string: `null` or a string.
fn parse_opt_string(s: &str, pos: usize) -> (r: Result<(Option<String>, usize), AppError>)
    requires
        pos <= s@.len(),
    ensures
        r matches Ok((o, end)) ==> pos < end <= s@.len(),
        forall|o: Option<Seq<char>>|
            #[trigger] str_at(s@, pos as int, enc_opt_string(o)) ==> (r matches Ok((res, end))
                && res.deep_view() == o && end == pos + enc_opt_string(o).len()),
{
    proof {
        reveal_strlit("null");
    }
    let n_len = s.unicode_len();
    if pos < n_len && s.get_char(pos) == 'n' {
        match eat_lit(s, pos, "null") {
            Ok(end) => {
                proof {
                    assert forall|o: Option<Seq<char>>|
                        #[trigger] str_at(s@, pos as int, enc_opt_string(o)) implies o is None
                        && end == pos + enc_opt_string(o).len() by {
                        match o {
                            Some(v) => lemma_str_at_index(s@, pos as int, enc_string(v), 0),
                            None => {},
                        }
                    }
                }
                Ok((None, end))
            },
            Err(e) => {
                proof {
                    assert forall|o: Option<Seq<char>>|
                        !(#[trigger] str_at(s@, pos as int, enc_opt_string(o))) by {
                        if str_at(s@, pos as int, enc_opt_string(o)) {
                            match o {
                                Some(v) => lemma_str_at_index(s@, pos as int, enc_string(v), 0),
                                None => {},
                            }
                        }
                    }
                }
                Err(e)
            },
        }
    } else {
        match parse_string(s, pos) {
            Ok((out, end)) => {
                proof {
                    assert forall|o: Option<Seq<char>>|
                        #[trigger] str_at(s@, pos as int, enc_opt_string(o)) implies (
                    Some(out).deep_view() == o && end == pos + enc_opt_string(o).len()) by {
                        if o is None {
                            lemma_str_at_index(s@, pos as int, "null"@, 0);
                        }
                    }
                }
                Ok((Some(out), end))
            },
            Err(e) => {
                proof {
                    assert forall|o: Option<Seq<char>>|
                        !(#[trigger] str_at(s@, pos as int, enc_opt_string(o))) by {
                        if str_at(s@, pos as int, enc_opt_string(o)) {
                            if o is None {
                                lemma_str_at_index(s@, pos as int, "null"@, 0);
                            }
                        }
                    }
                }
                Err(e)
            },
        }
    }
}

/// Reads an optional number: `null` or a digit run ending at a non-digit.
fn parse_opt_u64(s: &str, pos: usize) -> (r: Result<(Option<u64>, usize), AppError>)
    requires
        pos <= s@.len(),
    ensures
        r matches Ok((o, end)) ==> pos < end <= s@.len(),
        forall|o: Option<u64>|
            #[trigger] str_at(s@, pos as int, enc_opt_u64(o)) && nondigit_at(
                s@,
                pos + enc_opt_u64(o).len(),
            ) ==> (r matches Ok((res, end)) && res == o && end == pos + enc_opt_u64(o).len()),
{
    proof {
        reveal_strlit("null");
    }
    let n_len = s.unicode_len();
    if pos < n_len && s.get_char(pos) == 'n' {
        match eat_lit(s, pos, "null") {
            Ok(end) => {
                proof {
                    assert forall|o: Option<u64>|
                        #[trigger] str_at(s@, pos as int, enc_opt_u64(o)) implies o is None && end
                        == pos + enc_opt_u64(o).len() by {
                        match o {
                            Some(m) => {
                                lemma_dec_chars(m as int);
                                lemma_str_at_index(s@, pos as int, dec_chars(m as int), 0);
                            },
                            None => {},
                        }
                    }
                }
                Ok((None, end))
            },
            Err(e) => {
                proof {
                    assert forall|o: Option<u64>|
                        !(#[trigger] str_at(s@, pos as int, enc_opt_u64(o))) by {
                        if str_at(s@, pos as int, enc_opt_u64(o)) {
                            match o {
                                Some(m) => {
                                    lemma_dec_chars(m as int);
                                    lemma_str_at_index(s@, pos as int, dec_chars(m as int), 0);
                                },
                                None => {},
                            }
                        }
                    }
                }
                Err(e)
            },
        }
    } else {
        match parse_u64(s, pos) {
            Ok((v, end)) => {
                proof {
                    assert forall|o: Option<u64>|
                        #[trigger] str_at(s@, pos as int, enc_opt_u64(o)) && nondigit_at(
                            s@,
                            pos + enc_opt_u64(o).len(),
                        ) implies (Some(v) == o && end == pos + enc_opt_u64(o).len()) by {
                        match o {
                            None => {
                                lemma_str_at_index(s@, pos as int, "null"@, 0);
                            },
                            Some(m) => {
                                assert(num_at(s@, pos as int, m));
                            },
                        }
                    }
                }
                Ok((Some(v), end))
            },
            Err(e) => {
                proof {
                    assert forall|o: Option<u64>|
                        !(#[trigger] str_at(s@, pos as int, enc_opt_u64(o)) && nondigit_at(
                            s@,
                            pos + enc_opt_u64(o).len(),
                        )) by {
                        if str_at(s@, pos as int, enc_opt_u64(o)) && nondigit_at(
                            s@,
                            pos + enc_opt_u64(o).len(),
                        ) {
                            match o {
                                None => {
                                    lemma_str_at_index(s@, pos as int, "null"@, 0);
                                },
                                Some(m) => {
                                    assert(num_at(s@, pos as int, m));
                                },
                            }
                        }
                    }
                }
                Err(e)
            },
        }
    }
}

/// Reads an audio format name.
fn parse_format(s: &str, pos: usize) -> (r: Result<(AudioFormat, usize), AppError>)
    requires
        pos <= s@.len(),
    ensures
        r matches Ok((f, end)) ==> pos < end <= s@.len(),
        forall|f: AudioFormat|
            #[trigger] str_at(s@, pos as int, enc_format(f)) ==> (r matches Ok((res, end)) && res
                == f && end == pos + enc_format(f).len()),
{
    proof {
        reveal_strlit("\"mp3\"");
        reveal_strlit("\"m4a\"");
        reveal_strlit("\"flac\"");
        reveal_strlit("\"wav\"");
        reveal_strlit("\"ogg\"");
    }
    match eat_lit(s, pos, "\"mp3\"") {
        Ok(end) => {
            proof {
                format_uniqueness(s@, pos as int, AudioFormat::Mp3);
            }
            return Ok((AudioFormat::Mp3, end));
        },
        Err(_) => {},
    }
    match eat_lit(s, pos, "\"m4a\"") {
        Ok(end) => {
            proof {
                format_uniqueness(s@, pos as int, AudioFormat::M4a);
            }
            return Ok((AudioFormat::M4a, end));
        },
        Err(_) => {},
    }
    match eat_lit(s, pos, "\"flac\"") {
        Ok(end) => {
            proof {
                format_uniqueness(s@, pos as int, AudioFormat::Flac);
            }
            return Ok((AudioFormat::Flac, end));
        },
        Err(_) => {},
    }
    match eat_lit(s, pos, "\"wav\"") {
        Ok(end) => {
            proof {
                format_uniqueness(s@, pos as int, AudioFormat::Wav);
            }
            return Ok((AudioFormat::Wav, end));
        },
        Err(_) => {},
    }
    match eat_lit(s, pos, "\"ogg\"") {
        Ok(end) => {
            proof {
                format_uniqueness(s@, pos as int, AudioFormat::Ogg);
            }
            return Ok((AudioFormat::Ogg, end));
        },
        Err(_) => {},
    }
    Err(parse_error())
}

/// At most one format name can sit at one position.
proof fn format_uniqueness(s: Seq<char>, pos: int, seen: AudioFormat)
    requires
        str_at(s, pos, enc_format(seen)),
    ensures
        forall|f: AudioFormat| #[trigger] str_at(s, pos, enc_format(f)) ==> f == seen,
{
    reveal_strlit("\"mp3\"");
    reveal_strlit("\"m4a\"");
    reveal_strlit("\"flac\"");
    reveal_strlit("\"wav\"");
    reveal_strlit("\"ogg\"");
    assert forall|f: AudioFormat| #[trigger] str_at(s, pos, enc_format(f)) implies f == seen by {
        if f != seen {
            lemma_str_at_index(s, pos, enc_format(f), 1);
            lemma_str_at_index(s, pos, enc_format(seen), 1);
            lemma_str_at_index(s, pos, enc_format(f), 2);
            lemma_str_at_index(s, pos, enc_format(seen), 2);
        }
    }
}

/// Reads an optional audio format: `null` or a format name.
fn parse_opt_format(s: &str, pos: usize) -> (r: Result<(Option<AudioFormat>, usize), AppError>)
    requires
        pos <= s@.len(),
    ensures
        r matches Ok((o, end)) ==> pos < end <= s@.len(),
        forall|o: Option<AudioFormat>|
            #[trigger] str_at(s@, pos as int, enc_opt_format(o)) ==> (r matches Ok((res, end))
                && res == o && end == pos + enc_opt_format(o).len()),
{
    proof {
        reveal_strlit("null");
        reveal_strlit("\"mp3\"");
        reveal_strlit("\"m4a\"");
        reveal_strlit("\"flac\"");
        reveal_strlit("\"wav\"");
        reveal_strlit("\"ogg\"");
    }
    let n_len = s.unicode_len();
    if pos < n_len && s.get_char(pos) == 'n' {
        match eat_lit(s, pos, "null") {
            Ok(end) => {
                proof {
                    assert forall|o: Option<AudioFormat>|
                        #[trigger] str_at(s@, pos as int, enc_opt_format(o)) implies o is None
                        && end == pos + enc_opt_format(o).len() by {
                        match o {
                            Some(f) => lemma_str_at_index(s@, pos as int, enc_format(f), 0),
                            None => {},
                        }
                    }
                }
                Ok((None, end))
            },
            Err(e) => {
                proof {
                    assert forall|o: Option<AudioFormat>|
                        !(#[trigger] str_at(s@, pos as int, enc_opt_format(o))) by {
                        if str_at(s@, pos as int, enc_opt_format(o)) {
                            match o {
                                Some(f) => lemma_str_at_index(s@, pos as int, enc_format(f), 0),
                                None => {},
                            }
                        }
                    }
                }
                Err(e)
            },
        }
    } else {
        match parse_format(s, pos) {
            Ok((f, end)) => {
                proof {
                    assert forall|o: Option<AudioFormat>|
                        #[trigger] str_at(s@, pos as int, enc_opt_format(o)) implies (Some(f) == o
                        && end == pos + enc_opt_format(o).len()) by {
                        if o is None {
                            lemma_str_at_index(s@, pos as int, "null"@, 0);
                        }
                    }
                }
                Ok((Some(f), end))
            },
            Err(e) => {
                proof {
                    assert forall|o: Option<AudioFormat>|
                        !(#[trigger] str_at(s@, pos as int, enc_opt_format(o))) by {
                        if str_at(s@, pos as int, enc_opt_format(o)) {
                            if o is None {
                                lemma_str_at_index(s@, pos as int, "null"@, 0);
                            }
                        }
                    }
                }
                Err(e)
            },
        }
    }
}

/// The first character of a string-items run is never `]` and never `,`.
proof fn lemma_items_first_char(items: Seq<Seq<char>>)
    requires
        items.len() > 0,
    ensures
        (enc_string_items(items) + seq![']'])[0] == '"',
        enc_string_items(items).len() > 0,
{
    if items.len() == 1 {
        assert(enc_string_items(items)[0] == '"');
    } else {
        assert(enc_string_items(items)[0] == '"');
    }
}

/// Reads a JSON list of strings.
fn parse_string_list(s: &str, pos: usize) -> (r: Result<(Vec<String>, usize), AppError>)
    requires
        pos <= s@.len(),
    ensures
        r matches Ok((out, end)) ==> pos < end <= s@.len(),
        forall|items: Seq<Seq<char>>|
            #[trigger] str_at(s@, pos as int, enc_string_list(items)) ==> (r matches Ok(
                (out, end),
            ) && out.deep_view() == items && end == pos + enc_string_list(items).len()),
{
    let n_len = s.unicode_len();
    if pos >= n_len || s.get_char(pos) != '[' {
        proof {
            assert forall|items: Seq<Seq<char>>|
                !(#[trigger] str_at(s@, pos as int, enc_string_list(items))) by {
                if str_at(s@, pos as int, enc_string_list(items)) {
                    lemma_str_at_index(s@, pos as int, enc_string_list(items), 0);
                }
            }
        }
        return Err(parse_error());
    }
    let mut out: Vec<String> = Vec::new();
    match parse_string_items_rest(s, pos + 1, &mut out) {
        Ok(end) => {
            proof {
                assert forall|items: Seq<Seq<char>>|
                    #[trigger] str_at(s@, pos as int, enc_string_list(items)) implies (
                out.deep_view() == items && end == pos + enc_string_list(items).len()) by {
                    assert(enc_string_list(items) =~= seq!['['] + (enc_string_items(items)
                        + seq![']']));
                    lemma_str_at_concat(
                        s@,
                        pos as int,
                        seq!['['],
                        enc_string_items(items) + seq![']'],
                    );
                    assert(out.deep_view() =~= items);
                }
            }
            Ok((out, end))
        },
        Err(e) => {
            proof {
                assert forall|items: Seq<Seq<char>>|
                    !(#[trigger] str_at(s@, pos as int, enc_string_list(items))) by {
                    if str_at(s@, pos as int, enc_string_list(items)) {
                        assert(enc_string_list(items) =~= seq!['['] + (enc_string_items(items)
                            + seq![']']));
                        lemma_str_at_concat(
                            s@,
                            pos as int,
                            seq!['['],
                            enc_string_items(items) + seq![']'],
                        );
                    }
                }
            }
            Err(e)
        },
    }
}

/// Reads the comma-separated items of a string list up to and including the
/// closing bracket, appending the strings read to `out`.
fn parse_string_items_rest(s: &str, pos: usize, out: &mut Vec<String>) -> (r: Result<
    usize,
    AppError,
>)
    requires
        pos <= s@.len(),
    ensures
        r matches Ok(end) ==> pos < end <= s@.len(),
        forall|items: Seq<Seq<char>>|
            #[trigger] str_at(s@, pos as int, enc_string_items(items) + seq![']']) ==> (r matches
                Ok(end) && final(out)@.len() == old(out)@.len() + items.len() && (forall|k: int|
                0 <= k < old(out)@.len() ==> final(out)@[k] == old(out)@[k]) && (forall|k: int|
                old(out)@.len() <= k < final(out)@.len() ==> (#[trigger] final(out)@[k])@
                    == items[k - old(out)@.len()]) && end == pos + enc_string_items(items).len()
                + 1),
    decreases s@.len() - pos,
{
    let n_len = s.unicode_len();
    if pos < n_len && s.get_char(pos) == ']' {
        proof {
            assert forall|items: Seq<Seq<char>>|
                #[trigger] str_at(s@, pos as int, enc_string_items(items) + seq![']'])
                implies items.len() == 0 && pos + 1 == pos + enc_string_items(items).len()
                + 1 by {
                if items.len() > 0 {
                    lemma_items_first_char(items);
                    lemma_str_at_index(s@, pos as int, enc_string_items(items) + seq![']'], 0);
                }
            }
        }
        return Ok(pos + 1);
    }
    let (item, p1) = match parse_string(s, pos) {
        Ok(x) => x,
        Err(e) => {
            proof {
                assert forall|items: Seq<Seq<char>>|
                    !(#[trigger] str_at(s@, pos as int, enc_string_items(items) + seq![']'])) by {
                    if str_at(s@, pos as int, enc_string_items(items) + seq![']']) {
                        if items.len() == 0 {
                            assert(enc_string_items(items) + seq![']'] =~= seq![']']);
                            lemma_str_at_index(s@, pos as int, seq![']'], 0);
                        } else {
                            peel_first_item(s@, pos as int, items);
                        }
                    }
                }
            }
            return Err(e);
        },
    };
    let ghost out0 = out@;
    out.push(item);
    if p1 < n_len && s.get_char(p1) == ',' {
        let ghost mid = out@;
        match parse_string_items_rest(s, p1 + 1, out) {
            Ok(end) => {
                proof {
                    assert forall|items: Seq<Seq<char>>|
                        #[trigger] str_at(s@, pos as int, enc_string_items(items) + seq![']'])
                        implies (out@.len() == out0.len() + items.len() && (forall|k: int|
                        0 <= k < out0.len() ==> out@[k] == out0[k]) && (forall|k: int|
                        out0.len() <= k < out@.len() ==> (#[trigger] out@[k])@ == items[k
                            - out0.len()]) && end == pos + enc_string_items(items).len() + 1) by {
                        items_step(s@, pos as int, items, item@, p1 as int);
                        let rest = items.drop_first();
                        assert(str_at(s@, p1 + 1, enc_string_items(rest) + seq![']']));
                        assert(mid == out0.push(item));
                        assert forall|k: int|
                            out0.len() <= k < out@.len() implies (#[trigger] out@[k])@ == items[k
                            - out0.len()] by {
                            if k == out0.len() {
                                assert(out@[k] == mid[k]);
                                assert(mid[out0.len() as int] == item);
                            } else {
                                assert(out@[k]@ == rest[k - mid.len()]);
                                assert(rest[k - mid.len()] == items[k - out0.len()]);
                            }
                        }
                    }
                }
                Ok(end)
            },
            Err(e) => {
                proof {
                    assert forall|items: Seq<Seq<char>>|
                        !(#[trigger] str_at(s@, pos as int, enc_string_items(items) + seq![']']))
                        by {
                        if str_at(s@, pos as int, enc_string_items(items) + seq![']']) {
                            items_step(s@, pos as int, items, item@, p1 as int);
                        }
                    }
                }
                Err(e)
            },
        }
    } else if p1 < n_len && s.get_char(p1) == ']' {
        proof {
            assert forall|items: Seq<Seq<char>>|
                #[trigger] str_at(s@, pos as int, enc_string_items(items) + seq![']']) implies (
            out@.len() == out0.len() + items.len() && (forall|k: int|
                0 <= k < out0.len() ==> out@[k] == out0[k]) && (forall|k: int|
                out0.len() <= k < out@.len() ==> (#[trigger] out@[k])@ == items[k - out0.len()])
                && p1 + 1 == pos + enc_string_items(items).len() + 1) by {
                items_single(s@, pos as int, items, item@, p1 as int);
                assert(out@[out0.len() as int] == item);
            }
        }
        Ok(p1 + 1)
    } else {
        proof {
            assert forall|items: Seq<Seq<char>>|
                !(#[trigger] str_at(s@, pos as int, enc_string_items(items) + seq![']'])) by {
                if str_at(s@, pos as int, enc_string_items(items) + seq![']']) {
                    after_item_delimiter(s@, pos as int, items, item@, p1 as int);
                }
            }
        }
        Err(parse_error())
    }
}

/// Where a non-empty items run sits, its first item's encoding sits at the
/// front.
proof fn peel_first_item(s: Seq<char>, pos: int, items: Seq<Seq<char>>)
    requires
        str_at(s, pos, enc_string_items(items) + seq![']']),
        items.len() > 0,
    ensures
        str_at(s, pos, enc_string(items.first())),
{
    if items.len() == 1 {
        lemma_str_at_concat(s, pos, enc_string_items(items), seq![']']);
    } else {
        assert(enc_string_items(items) + seq![']'] =~= enc_string(items.first()) + (seq![',']
            + enc_string_items(items.drop_first()) + seq![']']));
        lemma_str_at_concat(
            s,
            pos,
            enc_string(items.first()),
            seq![','] + enc_string_items(items.drop_first()) + seq![']'],
        );
    }
}

/// After the first item of a several-item run comes a comma and the rest of
/// the run; the item read at the front is the first item.
proof fn items_step(s: Seq<char>, pos: int, items: Seq<Seq<char>>, got: Seq<char>, p1: int)
    requires
        str_at(s, pos, enc_string_items(items) + seq![']']),
        0 <= pos < s.len(),
        s[pos] == '"',
        forall|v: Seq<char>|
            #[trigger] str_at(s, pos, enc_string(v)) ==> got == v && p1 == pos + enc_string(
                v,
            ).len(),
        0 <= p1 < s.len(),
        s[p1] == ',',
    ensures
        items.len() >= 2,
        got == items.first(),
        p1 == pos + enc_string(items.first()).len(),
        str_at(s, p1 + 1, enc_string_items(items.drop_first()) + seq![']']),
        enc_string_items(items).len() == enc_string(items.first()).len() + 1
            + enc_string_items(items.drop_first()).len(),
{
    if items.len() == 0 {
        assert(enc_string_items(items) + seq![']'] =~= seq![']']);
        lemma_str_at_index(s, pos, seq![']'], 0);
    }
    peel_first_item(s, pos, items);
    assert(got == items.first());
    assert(p1 == pos + enc_string(items.first()).len());
    if items.len() == 1 {
        lemma_str_at_concat(s, pos, enc_string_items(items), seq![']']);
        lemma_str_at_index(s, pos + enc_string_items(items).len(), seq![']'], 0);
        assert(s[p1] == ']');
    } else {
        assert(enc_string_items(items) + seq![']'] =~= (enc_string(items.first()) + seq![','])
            + (enc_string_items(items.drop_first()) + seq![']']));
        lemma_str_at_concat(
            s,
            pos,
            enc_string(items.first()) + seq![','],
            enc_string_items(items.drop_first()) + seq![']'],
        );
    }
}

/// Where the character after the first item closes the list, the run has
/// exactly that item.
proof fn items_single(s: Seq<char>, pos: int, items: Seq<Seq<char>>, got: Seq<char>, p1: int)
    requires
        str_at(s, pos, enc_string_items(items) + seq![']']),
        0 <= pos < s.len(),
        s[pos] == '"',
        forall|v: Seq<char>|
            #[trigger] str_at(s, pos, enc_string(v)) ==> got == v && p1 == pos + enc_string(
                v,
            ).len(),
        0 <= p1 < s.len(),
        s[p1] == ']',
    ensures
        items.len() == 1,
        got == items.first(),
        p1 + 1 == pos + enc_string_items(items).len() + 1,
{
    if items.len() == 0 {
        assert(enc_string_items(items) + seq![']'] =~= seq![']']);
        lemma_str_at_index(s, pos, seq![']'], 0);
    }
    peel_first_item(s, pos, items);
    if items.len() >= 2 {
        assert(enc_string_items(items) + seq![']'] =~= (enc_string(items.first()) + seq![','])
            + (enc_string_items(items.drop_first()) + seq![']']));
        lemma_str_at_concat(
            s,
            pos,
            enc_string(items.first()) + seq![','],
            enc_string_items(items.drop_first()) + seq![']'],
        );
        lemma_str_at_concat(s, pos, enc_string(items.first()), seq![',']);
        lemma_str_at_index(s, pos + enc_string(items.first()).len(), seq![','], 0);
    } else {
        lemma_str_at_concat(s, pos, enc_string_items(items), seq![']']);
    }
}

/// After one item of a run, the next character is a comma or the closing
/// bracket.
proof fn after_item_delimiter(s: Seq<char>, pos: int, items: Seq<Seq<char>>, got: Seq<char>, p1: int)
    requires
        str_at(s, pos, enc_string_items(items) + seq![']']),
        0 <= pos < s.len(),
        s[pos] == '"',
        forall|v: Seq<char>|
            #[trigger] str_at(s, pos, enc_string(v)) ==> got == v && p1 == pos + enc_string(
                v,
            ).len(),
    ensures
        items.len() > 0,
        0 <= p1 < s.len(),
        s[p1] == ',' || s[p1] == ']',
{
    if items.len() == 0 {
        // An empty run would put the closing bracket where the string's
        // opening quote stands.
        assert(enc_string_items(items) + seq![']'] =~= seq![']']);
        lemma_str_at_index(s, pos, seq![']'], 0);
    }
    peel_first_item(s, pos, items);
    assert(p1 == pos + enc_string(items.first()).len());
    if items.len() == 1 {
        lemma_str_at_concat(s, pos, enc_string_items(items), seq![']']);
        lemma_str_at_index(s, pos + enc_string_items(items).len(), seq![']'], 0);
    } else {
        assert(enc_string_items(items) + seq![']'] =~= (enc_string(items.first()) + seq![','])
            + (enc_string_items(items.drop_first()) + seq![']']));
        lemma_str_at_concat(
            s,
            pos,
            enc_string(items.first()) + seq![','],
            enc_string_items(items.drop_first()) + seq![']'],
        );
        lemma_str_at_concat(s, pos, enc_string(items.first()), seq![',']);
        lemma_str_at_index(s, pos + enc_string(items.first()).len(), seq![','], 0);
    }
}


/// Where the encoding of `v` sits at `pos`, each key and each field value
/// sits at its own offset inside it, and every number ends at a non-digit.
proof fn lemma_audio_parts(s: Seq<char>, pos: int, v: AudioView)
    requires
        str_at(s, pos, enc_audio(v)),
    ensures
        ({
            let q1 = pos + "{\"id\":"@.len();
            let q2 = q1 + enc_string(v.id).len();
            let q3 = q2 + ",\"title\":"@.len();
            let q4 = q3 + enc_string(v.title).len();
            let q5 = q4 + ",\"download_url\":"@.len();
            let q6 = q5 + enc_string(v.download_url).len();
            let q7 = q6 + ",\"local_url\":"@.len();
            let q8 = q7 + enc_opt_string(v.local_url).len();
            let q9 = q8 + ",\"author\":"@.len();
            let q10 = q9 + enc_string_list(v.author).len();
            let q11 = q10 + ",\"cover\":"@.len();
            let q12 = q11 + enc_opt_string(v.cover).len();
            let q13 = q12 + ",\"tags\":"@.len();
            let q14 = q13 + enc_string_list(v.tags).len();
            let q15 = q14 + ",\"duration\":"@.len();
            let q16 = q15 + enc_opt_u64(v.duration).len();
            let q17 = q16 + ",\"platform\":"@.len();
            let q18 = q17 + enc_string(v.platform).len();
            let q19 = q18 + ",\"date\":"@.len();
            let q20 = q19 + dec_chars(v.date as int).len();
            let q21 = q20 + ",\"format\":"@.len();
            let q22 = q21 + enc_opt_format(v.format).len();
            let q23 = q22 + "}"@.len();
            &&& pos + enc_audio(v).len() == q23
            &&& str_at(s, pos, "{\"id\":"@)
            &&& str_at(s, q1, enc_string(v.id))
            &&& str_at(s, q2, ",\"title\":"@)
            &&& str_at(s, q3, enc_string(v.title))
            &&& str_at(s, q4, ",\"download_url\":"@)
            &&& str_at(s, q5, enc_string(v.download_url))
            &&& str_at(s, q6, ",\"local_url\":"@)
            &&& str_at(s, q7, enc_opt_string(v.local_url))
            &&& str_at(s, q8, ",\"author\":"@)
            &&& str_at(s, q9, enc_string_list(v.author))
            &&& str_at(s, q10, ",\"cover\":"@)
            &&& str_at(s, q11, enc_opt_string(v.cover))
            &&& str_at(s, q12, ",\"tags\":"@)
            &&& str_at(s, q13, enc_string_list(v.tags))
            &&& str_at(s, q14, ",\"duration\":"@)
            &&& str_at(s, q15, enc_opt_u64(v.duration))
            &&& str_at(s, q16, ",\"platform\":"@)
            &&& str_at(s, q17, enc_string(v.platform))
            &&& str_at(s, q18, ",\"date\":"@)
            &&& str_at(s, q19, dec_chars(v.date as int))
            &&& str_at(s, q20, ",\"format\":"@)
            &&& str_at(s, q21, enc_opt_format(v.format))
            &&& str_at(s, q22, "}"@)
            &&& nondigit_at(s, q16)
            &&& num_at(s, q19, v.date)
        }),
{
    reveal_strlit(",\"platform\":");
    reveal_strlit(",\"format\":");
    lemma_str_at_concat(s, pos, enc_audio_head(v), enc_audio_tail(v));
    lemma_str_at_concat(s, pos, "{\"id\":"@ + enc_string(v.id) + ",\"title\":"@ + enc_string(v.title) + ",\"download_url\":"@ + enc_string(v.download_url) + ",\"local_url\":"@ + enc_opt_string(v.local_url) + ",\"author\":"@, enc_string_list(v.author));
    lemma_str_at_concat(s, pos, "{\"id\":"@ + enc_string(v.id) + ",\"title\":"@ + enc_string(v.title) + ",\"download_url\":"@ + enc_string(v.download_url) + ",\"local_url\":"@ + enc_opt_string(v.local_url), ",\"author\":"@);
    lemma_str_at_concat(s, pos, "{\"id\":"@ + enc_string(v.id) + ",\"title\":"@ + enc_string(v.title) + ",\"download_url\":"@ + enc_string(v.download_url) + ",\"local_url\":"@, enc_opt_string(v.local_url));
    lemma_str_at_concat(s, pos, "{\"id\":"@ + enc_string(v.id) + ",\"title\":"@ + enc_string(v.title) + ",\"download_url\":"@ + enc_string(v.download_url), ",\"local_url\":"@);
    lemma_str_at_concat(s, pos, "{\"id\":"@ + enc_string(v.id) + ",\"title\":"@ + enc_string(v.title) + ",\"download_url\":"@, enc_string(v.download_url));
    lemma_str_at_concat(s, pos, "{\"id\":"@ + enc_string(v.id) + ",\"title\":"@ + enc_string(v.title), ",\"download_url\":"@);
    lemma_str_at_concat(s, pos, "{\"id\":"@ + enc_string(v.id) + ",\"title\":"@, enc_string(v.title));
    lemma_str_at_concat(s, pos, "{\"id\":"@ + enc_string(v.id), ",\"title\":"@);
    lemma_str_at_concat(s, pos, "{\"id\":"@, enc_string(v.id));
    assert(enc_audio_head(v) == "{\"id\":"@ + enc_string(v.id) + ",\"title\":"@ + enc_string(v.title) + ",\"download_url\":"@ + enc_string(v.download_url) + ",\"local_url\":"@ + enc_opt_string(v.local_url) + ",\"author\":"@ + enc_string_list(v.author));
    lemma_str_at_concat(s, pos + enc_audio_head(v).len(), ",\"cover\":"@ + enc_opt_string(v.cover) + ",\"tags\":"@ + enc_string_list(v.tags) + ",\"duration\":"@ + enc_opt_u64(v.duration) + ",\"platform\":"@ + enc_string(v.platform) + ",\"date\":"@ + dec_chars(v.date as int) + ",\"format\":"@ + enc_opt_format(v.format), "}"@);
    lemma_str_at_concat(s, pos + enc_audio_head(v).len(), ",\"cover\":"@ + enc_opt_string(v.cover) + ",\"tags\":"@ + enc_string_list(v.tags) + ",\"duration\":"@ + enc_opt_u64(v.duration) + ",\"platform\":"@ + enc_string(v.platform) + ",\"date\":"@ + dec_chars(v.date as int) + ",\"format\":"@, enc_opt_format(v.format));
    lemma_str_at_concat(s, pos + enc_audio_head(v).len(), ",\"cover\":"@ + enc_opt_string(v.cover) + ",\"tags\":"@ + enc_string_list(v.tags) + ",\"duration\":"@ + enc_opt_u64(v.duration) + ",\"platform\":"@ + enc_string(v.platform) + ",\"date\":"@ + dec_chars(v.date as int), ",\"format\":"@);
    lemma_str_at_concat(s, pos + enc_audio_head(v).len(), ",\"cover\":"@ + enc_opt_string(v.cover) + ",\"tags\":"@ + enc_string_list(v.tags) + ",\"duration\":"@ + enc_opt_u64(v.duration) + ",\"platform\":"@ + enc_string(v.platform) + ",\"date\":"@, dec_chars(v.date as int));
    lemma_str_at_concat(s, pos + enc_audio_head(v).len(), ",\"cover\":"@ + enc_opt_string(v.cover) + ",\"tags\":"@ + enc_string_list(v.tags) + ",\"duration\":"@ + enc_opt_u64(v.duration) + ",\"platform\":"@ + enc_string(v.platform), ",\"date\":"@);
    lemma_str_at_concat(s, pos + enc_audio_head(v).len(), ",\"cover\":"@ + enc_opt_string(v.cover) + ",\"tags\":"@ + enc_string_list(v.tags) + ",\"duration\":"@ + enc_opt_u64(v.duration) + ",\"platform\":"@, enc_string(v.platform));
    lemma_str_at_concat(s, pos + enc_audio_head(v).len(), ",\"cover\":"@ + enc_opt_string(v.cover) + ",\"tags\":"@ + enc_string_list(v.tags) + ",\"duration\":"@ + enc_opt_u64(v.duration), ",\"platform\":"@);
    lemma_str_at_concat(s, pos + enc_audio_head(v).len(), ",\"cover\":"@ + enc_opt_string(v.cover) + ",\"tags\":"@ + enc_string_list(v.tags) + ",\"duration\":"@, enc_opt_u64(v.duration));
    lemma_str_at_concat(s, pos + enc_audio_head(v).len(), ",\"cover\":"@ + enc_opt_string(v.cover) + ",\"tags\":"@ + enc_string_list(v.tags), ",\"duration\":"@);
    lemma_str_at_concat(s, pos + enc_audio_head(v).len(), ",\"cover\":"@ + enc_opt_string(v.cover) + ",\"tags\":"@, enc_string_list(v.tags));
    lemma_str_at_concat(s, pos + enc_audio_head(v).len(), ",\"cover\":"@ + enc_opt_string(v.cover), ",\"tags\":"@);
    lemma_str_at_concat(s, pos + enc_audio_head(v).len(), ",\"cover\":"@, enc_opt_string(v.cover));
    lemma_str_at_index(s, pos + enc_audio_head(v).len() + ",\"cover\":"@.len() + enc_opt_string(v.cover).len() + ",\"tags\":"@.len() + enc_string_list(v.tags).len() + ",\"duration\":"@.len() + enc_opt_u64(v.duration).len(), ",\"platform\":"@, 0);
    lemma_str_at_index(s, pos + enc_audio_head(v).len() + ",\"cover\":"@.len() + enc_opt_string(v.cover).len() + ",\"tags\":"@.len() + enc_string_list(v.tags).len() + ",\"duration\":"@.len() + enc_opt_u64(v.duration).len() + ",\"platform\":"@.len() + enc_string(v.platform).len() + ",\"date\":"@.len() + dec_chars(v.date as int).len(), ",\"format\":"@, 0);
}

/// Reads one `Audio` object: where the encoding of a value sits at
/// `pos`, it returns exactly that value and consumes exactly its encoding.
#[verifier::rlimit(100)]
#[verifier::spinoff_prover]
fn parse_audio(s: &str, pos: usize) -> (r: Result<(Audio, usize), AppError>)
    requires
        pos <= s@.len(),
    ensures
        r matches Ok((x, end)) ==> pos < end <= s@.len() && pos < s@.len()
            && s@[pos as int] == '{',
        forall|v: AudioView|
            #[trigger] str_at(s@, pos as int, enc_audio(v)) ==> (r matches Ok(
                (x, end),
            ) && x@ == v && end == pos + enc_audio(v).len()),
{
    proof {
        reveal_strlit("{\"id\":");
    }
    let p1 = match eat_lit(s, pos, "{\"id\":") {
        Ok(p) => p,
        Err(e) => {
            proof {
                assert forall|v: AudioView|
                    !(#[trigger] str_at(s@, pos as int, enc_audio(v))) by {
                    if str_at(s@, pos as int, enc_audio(v)) {
                        lemma_audio_parts(s@, pos as int, v);
                    }
                }
            }
            return Err(e);
        },
    };
    let (id, p2) = match parse_string(s, p1) {
        Ok(x) => x,
        Err(e) => {
            proof {
                assert forall|v: AudioView|
                    !(#[trigger] str_at(s@, pos as int, enc_audio(v))) by {
                    if str_at(s@, pos as int, enc_audio(v)) {
                        lemma_audio_parts(s@, pos as int, v);
                    }
                }
            }
            return Err(e);
        },
    };
    let p3 = match eat_lit(s, p2, ",\"title\":") {
        Ok(p) => p,
        Err(e) => {
            proof {
                assert forall|v: AudioView|
                    !(#[trigger] str_at(s@, pos as int, enc_audio(v))) by {
                    if str_at(s@, pos as int, enc_audio(v)) {
                        lemma_audio_parts(s@, pos as int, v);
                    }
                }
            }
            return Err(e);
        },
    };
    let (title, p4) = match parse_string(s, p3) {
        Ok(x) => x,
        Err(e) => {
            proof {
                assert forall|v: AudioView|
                    !(#[trigger] str_at(s@, pos as int, enc_audio(v))) by {
                    if str_at(s@, pos as int, enc_audio(v)) {
                        lemma_audio_parts(s@, pos as int, v);
                    }
                }
            }
            return Err(e);
        },
    };
    let p5 = match eat_lit(s, p4, ",\"download_url\":") {
        Ok(p) => p,
        Err(e) => {
            proof {
                assert forall|v: AudioView|
                    !(#[trigger] str_at(s@, pos as int, enc_audio(v))) by {
                    if str_at(s@, pos as int, enc_audio(v)) {
                        lemma_audio_parts(s@, pos as int, v);
                    }
                }
            }
            return Err(e);
        },
    };
    let (download_url, p6) = match parse_string(s, p5) {
        Ok(x) => x,
        Err(e) => {
            proof {
                assert forall|v: AudioView|
                    !(#[trigger] str_at(s@, pos as int, enc_audio(v))) by {
                    if str_at(s@, pos as int, enc_audio(v)) {
                        lemma_audio_parts(s@, pos as int, v);
                    }
                }
            }
            return Err(e);
        },
    };
    let p7 = match eat_lit(s, p6, ",\"local_url\":") {
        Ok(p) => p,
        Err(e) => {
            proof {
                assert forall|v: AudioView|
                    !(#[trigger] str_at(s@, pos as int, enc_audio(v))) by {
                    if str_at(s@, pos as int, enc_audio(v)) {
                        lemma_audio_parts(s@, pos as int, v);
                    }
                }
            }
            return Err(e);
        },
    };
    let (local_url, p8) = match parse_opt_string(s, p7) {
        Ok(x) => x,
        Err(e) => {
            proof {
                assert forall|v: AudioView|
                    !(#[trigger] str_at(s@, pos as int, enc_audio(v))) by {
                    if str_at(s@, pos as int, enc_audio(v)) {
                        lemma_audio_parts(s@, pos as int, v);
                    }
                }
            }
            return Err(e);
        },
    };
    let p9 = match eat_lit(s, p8, ",\"author\":") {
        Ok(p) => p,
        Err(e) => {
            proof {
                assert forall|v: AudioView|
                    !(#[trigger] str_at(s@, pos as int, enc_audio(v))) by {
                    if str_at(s@, pos as int, enc_audio(v)) {
                        lemma_audio_parts(s@, pos as int, v);
                    }
                }
            }
            return Err(e);
        },
    };
    let (author, p10) = match parse_string_list(s, p9) {
        Ok(x) => x,
        Err(e) => {
            proof {
                assert forall|v: AudioView|
                    !(#[trigger] str_at(s@, pos as int, enc_audio(v))) by {
                    if str_at(s@, pos as int, enc_audio(v)) {
                        lemma_audio_parts(s@, pos as int, v);
                    }
                }
            }
            return Err(e);
        },
    };
    let p11 = match eat_lit(s, p10, ",\"cover\":") {
        Ok(p) => p,
        Err(e) => {
            proof {
                assert forall|v: AudioView|
                    !(#[trigger] str_at(s@, pos as int, enc_audio(v))) by {
                    if str_at(s@, pos as int, enc_audio(v)) {
                        lemma_audio_parts(s@, pos as int, v);
                    }
                }
            }
            return Err(e);
        },
    };
    let (cover, p12) = match parse_opt_string(s, p11) {
        Ok(x) => x,
        Err(e) => {
            proof {
                assert forall|v: AudioView|
                    !(#[trigger] str_at(s@, pos as int, enc_audio(v))) by {
                    if str_at(s@, pos as int, enc_audio(v)) {
                        lemma_audio_parts(s@, pos as int, v);
                    }
                }
            }
            return Err(e);
        },
    };
    let p13 = match eat_lit(s, p12, ",\"tags\":") {
        Ok(p) => p,
        Err(e) => {
            proof {
                assert forall|v: AudioView|
                    !(#[trigger] str_at(s@, pos as int, enc_audio(v))) by {
                    if str_at(s@, pos as int, enc_audio(v)) {
                        lemma_audio_parts(s@, pos as int, v);
                    }
                }
            }
            return Err(e);
        },
    };
    let (tags, p14) = match parse_string_list(s, p13) {
        Ok(x) => x,
        Err(e) => {
            proof {
                assert forall|v: AudioView|
                    !(#[trigger] str_at(s@, pos as int, enc_audio(v))) by {
                    if str_at(s@, pos as int, enc_audio(v)) {
                        lemma_audio_parts(s@, pos as int, v);
                    }
                }
            }
            return Err(e);
        },
    };
    let p15 = match eat_lit(s, p14, ",\"duration\":") {
        Ok(p) => p,
        Err(e) => {
            proof {
                assert forall|v: AudioView|
                    !(#[trigger] str_at(s@, pos as int, enc_audio(v))) by {
                    if str_at(s@, pos as int, enc_audio(v)) {
                        lemma_audio_parts(s@, pos as int, v);
                    }
                }
            }
            return Err(e);
        },
    };
    let (duration, p16) = match parse_opt_u64(s, p15) {
        Ok(x) => x,
        Err(e) => {
            proof {
                assert forall|v: AudioView|
                    !(#[trigger] str_at(s@, pos as int, enc_audio(v))) by {
                    if str_at(s@, pos as int, enc_audio(v)) {
                        lemma_audio_parts(s@, pos as int, v);
                    }
                }
            }
            return Err(e);
        },
    };
    let p17 = match eat_lit(s, p16, ",\"platform\":") {
        Ok(p) => p,
        Err(e) => {
            proof {
                assert forall|v: AudioView|
                    !(#[trigger] str_at(s@, pos as int, enc_audio(v))) by {
                    if str_at(s@, pos as int, enc_audio(v)) {
                        lemma_audio_parts(s@, pos as int, v);
                    }
                }
            }
            return Err(e);
        },
    };
    let (platform, p18) = match parse_string(s, p17) {
        Ok(x) => x,
        Err(e) => {
            proof {
                assert forall|v: AudioView|
                    !(#[trigger] str_at(s@, pos as int, enc_audio(v))) by {
                    if str_at(s@, pos as int, enc_audio(v)) {
                        lemma_audio_parts(s@, pos as int, v);
                    }
                }
            }
            return Err(e);
        },
    };
    let p19 = match eat_lit(s, p18, ",\"date\":") {
        Ok(p) => p,
        Err(e) => {
            proof {
                assert forall|v: AudioView|
                    !(#[trigger] str_at(s@, pos as int, enc_audio(v))) by {
                    if str_at(s@, pos as int, enc_audio(v)) {
                        lemma_audio_parts(s@, pos as int, v);
                    }
                }
            }
            return Err(e);
        },
    };
    let (date, p20) = match parse_u64(s, p19) {
        Ok(x) => x,
        Err(e) => {
            proof {
                assert forall|v: AudioView|
                    !(#[trigger] str_at(s@, pos as int, enc_audio(v))) by {
                    if str_at(s@, pos as int, enc_audio(v)) {
                        lemma_audio_parts(s@, pos as int, v);
                    }
                }
            }
            return Err(e);
        },
    };
    let p21 = match eat_lit(s, p20, ",\"format\":") {
        Ok(p) => p,
        Err(e) => {
            proof {
                assert forall|v: AudioView|
                    !(#[trigger] str_at(s@, pos as int, enc_audio(v))) by {
                    if str_at(s@, pos as int, enc_audio(v)) {
                        lemma_audio_parts(s@, pos as int, v);
                    }
                }
            }
            return Err(e);
        },
    };
    let (format, p22) = match parse_opt_format(s, p21) {
        Ok(x) => x,
        Err(e) => {
            proof {
                assert forall|v: AudioView|
                    !(#[trigger] str_at(s@, pos as int, enc_audio(v))) by {
                    if str_at(s@, pos as int, enc_audio(v)) {
                        lemma_audio_parts(s@, pos as int, v);
                    }
                }
            }
            return Err(e);
        },
    };
    let p23 = match eat_lit(s, p22, "}") {
        Ok(p) => p,
        Err(e) => {
            proof {
                assert forall|v: AudioView|
                    !(#[trigger] str_at(s@, pos as int, enc_audio(v))) by {
                    if str_at(s@, pos as int, enc_audio(v)) {
                        lemma_audio_parts(s@, pos as int, v);
                    }
                }
            }
            return Err(e);
        },
    };
    let x = Audio { id, title, download_url, local_url, author, cover, tags, duration, platform, date, format };
    proof {
        assert forall|v: AudioView|
            #[trigger] str_at(s@, pos as int, enc_audio(v)) implies (x@ == v
            && p23 == pos + enc_audio(v).len()) by {
            lemma_audio_parts(s@, pos as int, v);
            assert(x@ == v);
        }
        lemma_str_at_index(s@, pos as int, "{\"id\":"@, 0);
    }
    Ok((x, p23))
}


/// Where the encoding of `v` sits at `pos`, each key and each field value
/// sits at its own offset inside it, and every number ends at a non-digit.
proof fn lemma_local_audio_parts(s: Seq<char>, pos: int, v: LocalAudioView)
    requires
        str_at(s, pos, enc_local_audio(v)),
    ensures
        ({
            let q1 = pos + "{\"path\":"@.len();
            let q2 = q1 + enc_string(v.path).len();
            let q3 = q2 + ",\"cover_path\":"@.len();
            let q4 = q3 + enc_opt_string(v.cover_path).len();
            let q5 = q4 + ",\"audio\":"@.len();
            let q6 = q5 + enc_audio(v.audio).len();
            let q7 = q6 + ",\"file_size\":"@.len();
            let q8 = q7 + enc_opt_u64(v.file_size).len();
            let q9 = q8 + ",\"created_at\":"@.len();
            let q10 = q9 + dec_chars(v.created_at as int).len();
            let q11 = q10 + ",\"last_played\":"@.len();
            let q12 = q11 + enc_opt_u64(v.last_played).len();
            let q13 = q12 + ",\"play_count\":"@.len();
            let q14 = q13 + dec_chars(v.play_count as int).len();
            let q15 = q14 + "}"@.len();
            &&& pos + enc_local_audio(v).len() == q15
            &&& str_at(s, pos, "{\"path\":"@)
            &&& str_at(s, q1, enc_string(v.path))
            &&& str_at(s, q2, ",\"cover_path\":"@)
            &&& str_at(s, q3, enc_opt_string(v.cover_path))
            &&& str_at(s, q4, ",\"audio\":"@)
            &&& str_at(s, q5, enc_audio(v.audio))
            &&& str_at(s, q6, ",\"file_size\":"@)
            &&& str_at(s, q7, enc_opt_u64(v.file_size))
            &&& str_at(s, q8, ",\"created_at\":"@)
            &&& str_at(s, q9, dec_chars(v.created_at as int))
            &&& str_at(s, q10, ",\"last_played\":"@)
            &&& str_at(s, q11, enc_opt_u64(v.last_played))
            &&& str_at(s, q12, ",\"play_count\":"@)
            &&& str_at(s, q13, dec_chars(v.play_count as int))
            &&& str_at(s, q14, "}"@)
            &&& nondigit_at(s, q8)
            &&& nondigit_at(s, q12)
            &&& num_at(s, q9, v.created_at)
            &&& num_at(s, q13, v.play_count as u64)
        }),
{
    reveal_strlit(",\"created_at\":");
    reveal_strlit(",\"last_played\":");
    reveal_strlit(",\"play_count\":");
    reveal_strlit("}");
    lemma_str_at_concat(s, pos, enc_local_audio_head(v), enc_local_audio_tail(v));
    lemma_str_at_concat(s, pos, "{\"path\":"@ + enc_string(v.path) + ",\"cover_path\":"@ + enc_opt_string(v.cover_path) + ",\"audio\":"@, enc_audio(v.audio));
    lemma_str_at_concat(s, pos, "{\"path\":"@ + enc_string(v.path) + ",\"cover_path\":"@ + enc_opt_string(v.cover_path), ",\"audio\":"@);
    lemma_str_at_concat(s, pos, "{\"path\":"@ + enc_string(v.path) + ",\"cover_path\":"@, enc_opt_string(v.cover_path));
    lemma_str_at_concat(s, pos, "{\"path\":"@ + enc_string(v.path), ",\"cover_path\":"@);
    lemma_str_at_concat(s, pos, "{\"path\":"@, enc_string(v.path));
    assert(enc_local_audio_head(v) == "{\"path\":"@ + enc_string(v.path) + ",\"cover_path\":"@ + enc_opt_string(v.cover_path) + ",\"audio\":"@ + enc_audio(v.audio));
    lemma_str_at_concat(s, pos + enc_local_audio_head(v).len(), ",\"file_size\":"@ + enc_opt_u64(v.file_size) + ",\"created_at\":"@ + dec_chars(v.created_at as int) + ",\"last_played\":"@ + enc_opt_u64(v.last_played) + ",\"play_count\":"@ + dec_chars(v.play_count as int), "}"@);
    lemma_str_at_concat(s, pos + enc_local_audio_head(v).len(), ",\"file_size\":"@ + enc_opt_u64(v.file_size) + ",\"created_at\":"@ + dec_chars(v.created_at as int) + ",\"last_played\":"@ + enc_opt_u64(v.last_played) + ",\"play_count\":"@, dec_chars(v.play_count as int));
    lemma_str_at_concat(s, pos + enc_local_audio_head(v).len(), ",\"file_size\":"@ + enc_opt_u64(v.file_size) + ",\"created_at\":"@ + dec_chars(v.created_at as int) + ",\"last_played\":"@ + enc_opt_u64(v.last_played), ",\"play_count\":"@);
    lemma_str_at_concat(s, pos + enc_local_audio_head(v).len(), ",\"file_size\":"@ + enc_opt_u64(v.file_size) + ",\"created_at\":"@ + dec_chars(v.created_at as int) + ",\"last_played\":"@, enc_opt_u64(v.last_played));
    lemma_str_at_concat(s, pos + enc_local_audio_head(v).len(), ",\"file_size\":"@ + enc_opt_u64(v.file_size) + ",\"created_at\":"@ + dec_chars(v.created_at as int), ",\"last_played\":"@);
    lemma_str_at_concat(s, pos + enc_local_audio_head(v).len(), ",\"file_size\":"@ + enc_opt_u64(v.file_size) + ",\"created_at\":"@, dec_chars(v.created_at as int));
    lemma_str_at_concat(s, pos + enc_local_audio_head(v).len(), ",\"file_size\":"@ + enc_opt_u64(v.file_size), ",\"created_at\":"@);
    lemma_str_at_concat(s, pos + enc_local_audio_head(v).len(), ",\"file_size\":"@, enc_opt_u64(v.file_size));
    assert(enc_local_audio_tail(v) == ",\"file_size\":"@ + enc_opt_u64(v.file_size) + ",\"created_at\":"@ + dec_chars(v.created_at as int) + ",\"last_played\":"@ + enc_opt_u64(v.last_played) + ",\"play_count\":"@ + dec_chars(v.play_count as int) + "}"@);
    lemma_str_at_index(s, pos + "{\"path\":"@.len() + enc_string(v.path).len() + ",\"cover_path\":"@.len() + enc_opt_string(v.cover_path).len() + ",\"audio\":"@.len() + enc_audio(v.audio).len() + ",\"file_size\":"@.len() + enc_opt_u64(v.file_size).len(), ",\"created_at\":"@, 0);
    lemma_str_at_index(s, pos + "{\"path\":"@.len() + enc_string(v.path).len() + ",\"cover_path\":"@.len() + enc_opt_string(v.cover_path).len() + ",\"audio\":"@.len() + enc_audio(v.audio).len() + ",\"file_size\":"@.len() + enc_opt_u64(v.file_size).len() + ",\"created_at\":"@.len() + dec_chars(v.created_at as int).len(), ",\"last_played\":"@, 0);
    lemma_str_at_index(s, pos + "{\"path\":"@.len() + enc_string(v.path).len() + ",\"cover_path\":"@.len() + enc_opt_string(v.cover_path).len() + ",\"audio\":"@.len() + enc_audio(v.audio).len() + ",\"file_size\":"@.len() + enc_opt_u64(v.file_size).len() + ",\"created_at\":"@.len() + dec_chars(v.created_at as int).len() + ",\"last_played\":"@.len() + enc_opt_u64(v.last_played).len(), ",\"play_count\":"@, 0);
    lemma_str_at_index(s, pos + "{\"path\":"@.len() + enc_string(v.path).len() + ",\"cover_path\":"@.len() + enc_opt_string(v.cover_path).len() + ",\"audio\":"@.len() + enc_audio(v.audio).len() + ",\"file_size\":"@.len() + enc_opt_u64(v.file_size).len() + ",\"created_at\":"@.len() + dec_chars(v.created_at as int).len() + ",\"last_played\":"@.len() + enc_opt_u64(v.last_played).len() + ",\"play_count\":"@.len() + dec_chars(v.play_count as int).len(), "}"@, 0);
}

/// Reads one `LocalAudio` object: where the encoding of a value sits at
/// `pos`, it returns exactly that value and consumes exactly its encoding.
#[verifier::rlimit(100)]
#[verifier::spinoff_prover]
fn parse_local_audio(s: &str, pos: usize) -> (r: Result<(LocalAudio, usize), AppError>)
    requires
        pos <= s@.len(),
    ensures
        r matches Ok((x, end)) ==> pos < end <= s@.len() && pos < s@.len()
            && s@[pos as int] == '{',
        forall|v: LocalAudioView|
            #[trigger] str_at(s@, pos as int, enc_local_audio(v)) ==> (r matches Ok(
                (x, end),
            ) && x@ == v && end == pos + enc_local_audio(v).len()),
    decreases s@.len() - pos,
{
    proof {
        reveal_strlit("{\"path\":");
    }
    let p1 = match eat_lit(s, pos, "{\"path\":") {
        Ok(p) => p,
        Err(e) => {
            proof {
                assert forall|v: LocalAudioView|
                    !(#[trigger] str_at(s@, pos as int, enc_local_audio(v))) by {
                    if str_at(s@, pos as int, enc_local_audio(v)) {
                        lemma_local_audio_parts(s@, pos as int, v);
                    }
                }
            }
            return Err(e);
        },
    };
    let (path, p2) = match parse_string(s, p1) {
        Ok(x) => x,
        Err(e) => {
            proof {
                assert forall|v: LocalAudioView|
                    !(#[trigger] str_at(s@, pos as int, enc_local_audio(v))) by {
                    if str_at(s@, pos as int, enc_local_audio(v)) {
                        lemma_local_audio_parts(s@, pos as int, v);
                    }
                }
            }
            return Err(e);
        },
    };
    let p3 = match eat_lit(s, p2, ",\"cover_path\":") {
        Ok(p) => p,
        Err(e) => {
            proof {
                assert forall|v: LocalAudioView|
                    !(#[trigger] str_at(s@, pos as int, enc_local_audio(v))) by {
                    if str_at(s@, pos as int, enc_local_audio(v)) {
                        lemma_local_audio_parts(s@, pos as int, v);
                    }
                }
            }
            return Err(e);
        },
    };
    let (cover_path, p4) = match parse_opt_string(s, p3) {
        Ok(x) => x,
        Err(e) => {
            proof {
                assert forall|v: LocalAudioView|
                    !(#[trigger] str_at(s@, pos as int, enc_local_audio(v))) by {
                    if str_at(s@, pos as int, enc_local_audio(v)) {
                        lemma_local_audio_parts(s@, pos as int, v);
                    }
                }
            }
            return Err(e);
        },
    };
    let p5 = match eat_lit(s, p4, ",\"audio\":") {
        Ok(p) => p,
        Err(e) => {
            proof {
                assert forall|v: LocalAudioView|
                    !(#[trigger] str_at(s@, pos as int, enc_local_audio(v))) by {
                    if str_at(s@, pos as int, enc_local_audio(v)) {
                        lemma_local_audio_parts(s@, pos as int, v);
                    }
                }
            }
            return Err(e);
        },
    };
    let (audio, p6) = match parse_audio(s, p5) {
        Ok(x) => x,
        Err(e) => {
            proof {
                assert forall|v: LocalAudioView|
                    !(#[trigger] str_at(s@, pos as int, enc_local_audio(v))) by {
                    if str_at(s@, pos as int, enc_local_audio(v)) {
                        lemma_local_audio_parts(s@, pos as int, v);
                    }
                }
            }
            return Err(e);
        },
    };
    let p7 = match eat_lit(s, p6, ",\"file_size\":") {
        Ok(p) => p,
        Err(e) => {
            proof {
                assert forall|v: LocalAudioView|
                    !(#[trigger] str_at(s@, pos as int, enc_local_audio(v))) by {
                    if str_at(s@, pos as int, enc_local_audio(v)) {
                        lemma_local_audio_parts(s@, pos as int, v);
                    }
                }
            }
            return Err(e);
        },
    };
    let (file_size, p8) = match parse_opt_u64(s, p7) {
        Ok(x) => x,
        Err(e) => {
            proof {
                assert forall|v: LocalAudioView|
                    !(#[trigger] str_at(s@, pos as int, enc_local_audio(v))) by {
                    if str_at(s@, pos as int, enc_local_audio(v)) {
                        lemma_local_audio_parts(s@, pos as int, v);
                    }
                }
            }
            return Err(e);
        },
    };
    let p9 = match eat_lit(s, p8, ",\"created_at\":") {
        Ok(p) => p,
        Err(e) => {
            proof {
                assert forall|v: LocalAudioView|
                    !(#[trigger] str_at(s@, pos as int, enc_local_audio(v))) by {
                    if str_at(s@, pos as int, enc_local_audio(v)) {
                        lemma_local_audio_parts(s@, pos as int, v);
                    }
                }
            }
            return Err(e);
        },
    };
    let (created_at, p10) = match parse_u64(s, p9) {
        Ok(x) => x,
        Err(e) => {
            proof {
                assert forall|v: LocalAudioView|
                    !(#[trigger] str_at(s@, pos as int, enc_local_audio(v))) by {
                    if str_at(s@, pos as int, enc_local_audio(v)) {
                        lemma_local_audio_parts(s@, pos as int, v);
                    }
                }
            }
            return Err(e);
        },
    };
    let p11 = match eat_lit(s, p10, ",\"last_played\":") {
        Ok(p) => p,
        Err(e) => {
            proof {
                assert forall|v: LocalAudioView|
                    !(#[trigger] str_at(s@, pos as int, enc_local_audio(v))) by {
                    if str_at(s@, pos as int, enc_local_audio(v)) {
                        lemma_local_audio_parts(s@, pos as int, v);
                    }
                }
            }
            return Err(e);
        },
    };
    let (last_played, p12) = match parse_opt_u64(s, p11) {
        Ok(x) => x,
        Err(e) => {
            proof {
                assert forall|v: LocalAudioView|
                    !(#[trigger] str_at(s@, pos as int, enc_local_audio(v))) by {
                    if str_at(s@, pos as int, enc_local_audio(v)) {
                        lemma_local_audio_parts(s@, pos as int, v);
                    }
                }
            }
            return Err(e);
        },
    };
    let p13 = match eat_lit(s, p12, ",\"play_count\":") {
        Ok(p) => p,
        Err(e) => {
            proof {
                assert forall|v: LocalAudioView|
                    !(#[trigger] str_at(s@, pos as int, enc_local_audio(v))) by {
                    if str_at(s@, pos as int, enc_local_audio(v)) {
                        lemma_local_audio_parts(s@, pos as int, v);
                    }
                }
            }
            return Err(e);
        },
    };
    let (play_count64, p14) = match parse_u64(s, p13) {
        Ok(x) => x,
        Err(e) => {
            proof {
                assert forall|v: LocalAudioView|
                    !(#[trigger] str_at(s@, pos as int, enc_local_audio(v))) by {
                    if str_at(s@, pos as int, enc_local_audio(v)) {
                        lemma_local_audio_parts(s@, pos as int, v);
                    }
                }
            }
            return Err(e);
        },
    };
    if play_count64 > u32::MAX as u64 {
        proof {
            assert forall|v: LocalAudioView|
                !(#[trigger] str_at(s@, pos as int, enc_local_audio(v))) by {
                if str_at(s@, pos as int, enc_local_audio(v)) {
                    lemma_local_audio_parts(s@, pos as int, v);
                }
            }
        }
        return Err(parse_error());
    }
    let play_count = play_count64 as u32;
    let p15 = match eat_lit(s, p14, "}") {
        Ok(p) => p,
        Err(e) => {
            proof {
                assert forall|v: LocalAudioView|
                    !(#[trigger] str_at(s@, pos as int, enc_local_audio(v))) by {
                    if str_at(s@, pos as int, enc_local_audio(v)) {
                        lemma_local_audio_parts(s@, pos as int, v);
                    }
                }
            }
            return Err(e);
        },
    };
    let x = LocalAudio { path, cover_path, audio, file_size, created_at, last_played, play_count };
    proof {
        assert forall|v: LocalAudioView|
            #[trigger] str_at(s@, pos as int, enc_local_audio(v)) implies (x@ == v
            && p15 == pos + enc_local_audio(v).len()) by {
            lemma_local_audio_parts(s@, pos as int, v);
            assert(x@ == v);
        }
        lemma_str_at_index(s@, pos as int, "{\"path\":"@, 0);
    }
    Ok((x, p15))
}

/// A non-empty items run opens with an object brace.
proof fn local_audio_items_first_char(items: Seq<LocalAudioView>)
    requires
        items.len() > 0,
    ensures
        (enc_local_audio_items(items) + seq![']'])[0] == '{',
        enc_local_audio_items(items).len() > 0,
{
    reveal_strlit("{\"path\":");
    assert(enc_local_audio(items.first())[0] == '{');
    if items.len() == 1 {
        assert(enc_local_audio_items(items)[0] == '{');
    } else {
        assert(enc_local_audio_items(items)[0] == '{');
    }
}

/// Where a non-empty items run sits, its first item's encoding sits at the
/// front.
proof fn local_audio_peel_first(s: Seq<char>, pos: int, items: Seq<LocalAudioView>)
    requires
        str_at(s, pos, enc_local_audio_items(items) + seq![']']),
        items.len() > 0,
    ensures
        str_at(s, pos, enc_local_audio(items.first())),
{
    if items.len() == 1 {
        lemma_str_at_concat(s, pos, enc_local_audio_items(items), seq![']']);
    } else {
        assert(enc_local_audio_items(items) + seq![']'] =~= enc_local_audio(items.first()) + (seq![',']
            + enc_local_audio_items(items.drop_first()) + seq![']']));
        lemma_str_at_concat(
            s,
            pos,
            enc_local_audio(items.first()),
            seq![','] + enc_local_audio_items(items.drop_first()) + seq![']'],
        );
    }
}

/// After the first item of a several-item run comes a comma and the rest of
/// the run; the item read at the front is the first item.
proof fn local_audio_items_step(s: Seq<char>, pos: int, items: Seq<LocalAudioView>, got: LocalAudioView, p1: int)
    requires
        str_at(s, pos, enc_local_audio_items(items) + seq![']']),
        0 <= pos < s.len(),
        s[pos] == '{',
        forall|v: LocalAudioView|
            #[trigger] str_at(s, pos, enc_local_audio(v)) ==> got == v && p1 == pos + enc_local_audio(
                v,
            ).len(),
        0 <= p1 < s.len(),
        s[p1] == ',',
    ensures
        items.len() >= 2,
        got == items.first(),
        p1 == pos + enc_local_audio(items.first()).len(),
        str_at(s, p1 + 1, enc_local_audio_items(items.drop_first()) + seq![']']),
        enc_local_audio_items(items).len() == enc_local_audio(items.first()).len() + 1
            + enc_local_audio_items(items.drop_first()).len(),
{
    if items.len() == 0 {
        assert(enc_local_audio_items(items) + seq![']'] =~= seq![']']);
        lemma_str_at_index(s, pos, seq![']'], 0);
    }
    local_audio_peel_first(s, pos, items);
    assert(got == items.first());
    assert(p1 == pos + enc_local_audio(items.first()).len());
    if items.len() == 1 {
        lemma_str_at_concat(s, pos, enc_local_audio_items(items), seq![']']);
        lemma_str_at_index(s, pos + enc_local_audio_items(items).len(), seq![']'], 0);
        assert(s[p1] == ']');
    } else {
        assert(enc_local_audio_items(items) + seq![']'] =~= (enc_local_audio(items.first()) + seq![','])
            + (enc_local_audio_items(items.drop_first()) + seq![']']));
        lemma_str_at_concat(
            s,
            pos,
            enc_local_audio(items.first()) + seq![','],
            enc_local_audio_items(items.drop_first()) + seq![']'],
        );
    }
}

/// Where the character after the first item closes the list, the run has
/// exactly that item.
proof fn local_audio_items_single(s: Seq<char>, pos: int, items: Seq<LocalAudioView>, got: LocalAudioView, p1: int)
    requires
        str_at(s, pos, enc_local_audio_items(items) + seq![']']),
        0 <= pos < s.len(),
        s[pos] == '{',
        forall|v: LocalAudioView|
            #[trigger] str_at(s, pos, enc_local_audio(v)) ==> got == v && p1 == pos + enc_local_audio(
                v,
            ).len(),
        0 <= p1 < s.len(),
        s[p1] == ']',
    ensures
        items.len() == 1,
        got == items.first(),
        p1 + 1 == pos + enc_local_audio_items(items).len() + 1,
{
    if items.len() == 0 {
        assert(enc_local_audio_items(items) + seq![']'] =~= seq![']']);
        lemma_str_at_index(s, pos, seq![']'], 0);
    }
    local_audio_peel_first(s, pos, items);
    if items.len() >= 2 {
        assert(enc_local_audio_items(items) + seq![']'] =~= (enc_local_audio(items.first()) + seq![','])
            + (enc_local_audio_items(items.drop_first()) + seq![']']));
        lemma_str_at_concat(
            s,
            pos,
            enc_local_audio(items.first()) + seq![','],
            enc_local_audio_items(items.drop_first()) + seq![']'],
        );
        lemma_str_at_concat(s, pos, enc_local_audio(items.first()), seq![',']);
        lemma_str_at_index(s, pos + enc_local_audio(items.first()).len(), seq![','], 0);
    } else {
        lemma_str_at_concat(s, pos, enc_local_audio_items(items), seq![']']);
    }
}

/// After one item of a run, the next character is a comma or the closing
/// bracket.
proof fn local_audio_after_delim(s: Seq<char>, pos: int, items: Seq<LocalAudioView>, got: LocalAudioView, p1: int)
    requires
        str_at(s, pos, enc_local_audio_items(items) + seq![']']),
        0 <= pos < s.len(),
        s[pos] == '{',
        forall|v: LocalAudioView|
            #[trigger] str_at(s, pos, enc_local_audio(v)) ==> got == v && p1 == pos + enc_local_audio(
                v,
            ).len(),
    ensures
        items.len() > 0,
        0 <= p1 < s.len(),
        s[p1] == ',' || s[p1] == ']',
{
    if items.len() == 0 {
        assert(enc_local_audio_items(items) + seq![']'] =~= seq![']']);
        lemma_str_at_index(s, pos, seq![']'], 0);
    }
    local_audio_peel_first(s, pos, items);
    assert(p1 == pos + enc_local_audio(items.first()).len());
    if items.len() == 1 {
        lemma_str_at_concat(s, pos, enc_local_audio_items(items), seq![']']);
        lemma_str_at_index(s, pos + enc_local_audio_items(items).len(), seq![']'], 0);
    } else {
        assert(enc_local_audio_items(items) + seq![']'] =~= (enc_local_audio(items.first()) + seq![','])
            + (enc_local_audio_items(items.drop_first()) + seq![']']));
        lemma_str_at_concat(
            s,
            pos,
            enc_local_audio(items.first()) + seq![','],
            enc_local_audio_items(items.drop_first()) + seq![']'],
        );
        lemma_str_at_concat(s, pos, enc_local_audio(items.first()), seq![',']);
        lemma_str_at_index(s, pos + enc_local_audio(items.first()).len(), seq![','], 0);
    }
}

/// Reads a JSON list of `LocalAudio` objects.
fn parse_local_audio_list(s: &str, pos: usize) -> (r: Result<(Vec<LocalAudio>, usize), AppError>)
    requires
        pos <= s@.len(),
    ensures
        r matches Ok((out, end)) ==> pos < end <= s@.len(),
        forall|items: Seq<LocalAudioView>|
            #[trigger] str_at(s@, pos as int, enc_local_audio_list(items)) ==> (r matches Ok(
                (out, end),
            ) && crate::audio::entry_views(out@) == items && end == pos + enc_local_audio_list(items).len()),
{
    let n_len = s.unicode_len();
    if pos >= n_len || s.get_char(pos) != '[' {
        proof {
            assert forall|items: Seq<LocalAudioView>|
                !(#[trigger] str_at(s@, pos as int, enc_local_audio_list(items))) by {
                if str_at(s@, pos as int, enc_local_audio_list(items)) {
                    lemma_str_at_index(s@, pos as int, enc_local_audio_list(items), 0);
                }
            }
        }
        return Err(parse_error());
    }
    let mut out: Vec<LocalAudio> = Vec::new();
    match parse_local_audio_items_rest(s, pos + 1, &mut out) {
        Ok(end) => {
            proof {
                assert forall|items: Seq<LocalAudioView>|
                    #[trigger] str_at(s@, pos as int, enc_local_audio_list(items)) implies (
                crate::audio::entry_views(out@) == items && end == pos + enc_local_audio_list(items).len()) by {
                    assert(enc_local_audio_list(items) =~= seq!['['] + (enc_local_audio_items(items) + seq![']']));
                    lemma_str_at_concat(s@, pos as int, seq!['['], enc_local_audio_items(items) + seq![']']);
                    assert(crate::audio::entry_views(out@) =~= items);
                }
            }
            Ok((out, end))
        },
        Err(e) => {
            proof {
                assert forall|items: Seq<LocalAudioView>|
                    !(#[trigger] str_at(s@, pos as int, enc_local_audio_list(items))) by {
                    if str_at(s@, pos as int, enc_local_audio_list(items)) {
                        assert(enc_local_audio_list(items) =~= seq!['['] + (enc_local_audio_items(items) + seq![']']));
                        lemma_str_at_concat(
                            s@,
                            pos as int,
                            seq!['['],
                            enc_local_audio_items(items) + seq![']'],
                        );
                    }
                }
            }
            Err(e)
        },
    }
}

/// Reads the comma-separated items of an `LocalAudio` list up to and including
/// the closing bracket, appending the values read to `out`.
#[verifier::rlimit(100)]
#[verifier::spinoff_prover]
fn parse_local_audio_items_rest(s: &str, pos: usize, out: &mut Vec<LocalAudio>) -> (r: Result<
    usize,
    AppError,
>)
    requires
        pos <= s@.len(),
    ensures
        r matches Ok(end) ==> pos < end <= s@.len(),
        forall|items: Seq<LocalAudioView>|
            #[trigger] str_at(s@, pos as int, enc_local_audio_items(items) + seq![']']) ==> (r matches
                Ok(end) && final(out)@.len() == old(out)@.len() + items.len() && (forall|k: int|
                0 <= k < old(out)@.len() ==> final(out)@[k] == old(out)@[k]) && (forall|k: int|
                old(out)@.len() <= k < final(out)@.len() ==> (#[trigger] final(out)@[k])@
                    == items[k - old(out)@.len()]) && end == pos + enc_local_audio_items(items).len()
                + 1),
    decreases s@.len() - pos,
{
    let n_len = s.unicode_len();
    if pos < n_len && s.get_char(pos) == ']' {
        proof {
            assert forall|items: Seq<LocalAudioView>|
                #[trigger] str_at(s@, pos as int, enc_local_audio_items(items) + seq![']'])
                implies items.len() == 0 && pos + 1 == pos + enc_local_audio_items(items).len()
                + 1 by {
                if items.len() > 0 {
                    local_audio_items_first_char(items);
                    lemma_str_at_index(s@, pos as int, enc_local_audio_items(items) + seq![']'], 0);
                }
            }
        }
        return Ok(pos + 1);
    }
    let (item, p1) = match parse_local_audio(s, pos) {
        Ok(x) => x,
        Err(e) => {
            proof {
                assert forall|items: Seq<LocalAudioView>|
                    !(#[trigger] str_at(s@, pos as int, enc_local_audio_items(items) + seq![']'])) by {
                    if str_at(s@, pos as int, enc_local_audio_items(items) + seq![']']) {
                        if items.len() == 0 {
                            assert(enc_local_audio_items(items) + seq![']'] =~= seq![']']);
                            lemma_str_at_index(s@, pos as int, seq![']'], 0);
                        } else {
                            local_audio_peel_first(s@, pos as int, items);
                        }
                    }
                }
            }
            return Err(e);
        },
    };
    let ghost out0 = out@;
    out.push(item);
    if p1 < n_len && s.get_char(p1) == ',' {
        let ghost mid = out@;
        match parse_local_audio_items_rest(s, p1 + 1, out) {
            Ok(end) => {
                proof {
                    assert forall|items: Seq<LocalAudioView>|
                        #[trigger] str_at(s@, pos as int, enc_local_audio_items(items) + seq![']'])
                        implies (out@.len() == out0.len() + items.len() && (forall|k: int|
                        0 <= k < out0.len() ==> out@[k] == out0[k]) && (forall|k: int|
                        out0.len() <= k < out@.len() ==> (#[trigger] out@[k])@ == items[k
                            - out0.len()]) && end == pos + enc_local_audio_items(items).len() + 1) by {
                        local_audio_items_step(s@, pos as int, items, mid.last()@, p1 as int);
                        let rest = items.drop_first();
                        assert(str_at(s@, p1 + 1, enc_local_audio_items(rest) + seq![']']));
                        assert(mid == out0.push(mid.last()));
                        assert forall|k: int|
                            out0.len() <= k < out@.len() implies (#[trigger] out@[k])@ == items[k
                            - out0.len()] by {
                            if k == out0.len() {
                                assert(out@[k] == mid[k]);
                            } else {
                                assert(out@[k]@ == rest[k - mid.len()]);
                                assert(rest[k - mid.len()] == items[k - out0.len()]);
                            }
                        }
                    }
                }
                Ok(end)
            },
            Err(e) => {
                proof {
                    assert forall|items: Seq<LocalAudioView>|
                        !(#[trigger] str_at(s@, pos as int, enc_local_audio_items(items) + seq![']']))
                        by {
                        if str_at(s@, pos as int, enc_local_audio_items(items) + seq![']']) {
                            local_audio_items_step(s@, pos as int, items, mid.last()@, p1 as int);
                        }
                    }
                }
                Err(e)
            },
        }
    } else if p1 < n_len && s.get_char(p1) == ']' {
        proof {
            assert forall|items: Seq<LocalAudioView>|
                #[trigger] str_at(s@, pos as int, enc_local_audio_items(items) + seq![']']) implies (
            out@.len() == out0.len() + items.len() && (forall|k: int|
                0 <= k < out0.len() ==> out@[k] == out0[k]) && (forall|k: int|
                out0.len() <= k < out@.len() ==> (#[trigger] out@[k])@ == items[k - out0.len()])
                && p1 + 1 == pos + enc_local_audio_items(items).len() + 1) by {
                local_audio_items_single(s@, pos as int, items, out@.last()@, p1 as int);
                assert(out@[out0.len() as int] == out@.last());
            }
        }
        Ok(p1 + 1)
    } else {
        proof {
            assert forall|items: Seq<LocalAudioView>|
                !(#[trigger] str_at(s@, pos as int, enc_local_audio_items(items) + seq![']'])) by {
                if str_at(s@, pos as int, enc_local_audio_items(items) + seq![']']) {
                    local_audio_after_delim(s@, pos as int, items, out@.last()@, p1 as int);
                }
            }
        }
        Err(parse_error())
    }
}


/// Where the encoding of `v` sits at `pos`, each key and each field value
/// sits at its own offset inside it, and every number ends at a non-digit.
#[verifier::rlimit(100)]
#[verifier::spinoff_prover]
proof fn lemma_playlist_parts(s: Seq<char>, pos: int, v: LocalPlaylistView)
    requires
        str_at(s, pos, enc_playlist(v)),
    ensures
        ({
            let q1 = pos + "{\"id\":"@.len();
            let q2 = q1 + enc_string(v.id).len();
            let q3 = q2 + ",\"name\":"@.len();
            let q4 = q3 + enc_string(v.name).len();
            let q5 = q4 + ",\"description\":"@.len();
            let q6 = q5 + enc_opt_string(v.description).len();
            let q7 = q6 + ",\"cover_path\":"@.len();
            let q8 = q7 + enc_opt_string(v.cover_path).len();
            let q9 = q8 + ",\"cover\":"@.len();
            let q10 = q9 + enc_opt_string(v.cover).len();
            let q11 = q10 + ",\"audios\":"@.len();
            let q12 = q11 + enc_local_audio_list(v.audios).len();
            let q13 = q12 + ",\"platform\":"@.len();
            let q14 = q13 + enc_string(v.platform).len();
            let q15 = q14 + ",\"created_at\":"@.len();
            let q16 = q15 + dec_chars(v.created_at as int).len();
            let q17 = q16 + ",\"updated_at\":"@.len();
            let q18 = q17 + dec_chars(v.updated_at as int).len();
            let q19 = q18 + "}"@.len();
            &&& pos + enc_playlist(v).len() == q19
            &&& str_at(s, pos, "{\"id\":"@)
            &&& str_at(s, q1, enc_string(v.id))
            &&& str_at(s, q2, ",\"name\":"@)
            &&& str_at(s, q3, enc_string(v.name))
            &&& str_at(s, q4, ",\"description\":"@)
            &&& str_at(s, q5, enc_opt_string(v.description))
            &&& str_at(s, q6, ",\"cover_path\":"@)
            &&& str_at(s, q7, enc_opt_string(v.cover_path))
            &&& str_at(s, q8, ",\"cover\":"@)
            &&& str_at(s, q9, enc_opt_string(v.cover))
            &&& str_at(s, q10, ",\"audios\":"@)
            &&& str_at(s, q11, enc_local_audio_list(v.audios))
            &&& str_at(s, q12, ",\"platform\":"@)
            &&& str_at(s, q13, enc_string(v.platform))
            &&& str_at(s, q14, ",\"created_at\":"@)
            &&& str_at(s, q15, dec_chars(v.created_at as int))
            &&& str_at(s, q16, ",\"updated_at\":"@)
            &&& str_at(s, q17, dec_chars(v.updated_at as int))
            &&& str_at(s, q18, "}"@)
            &&& num_at(s, q15, v.created_at)
            &&& num_at(s, q17, v.updated_at)
        }),
{
    reveal_strlit(",\"updated_at\":");
    reveal_strlit("}");
    lemma_str_at_concat(s, pos, enc_playlist_head(v), enc_playlist_tail(v));
    lemma_str_at_concat(s, pos, "{\"id\":"@ + enc_string(v.id) + ",\"name\":"@ + enc_string(v.name) + ",\"description\":"@ + enc_opt_string(v.description) + ",\"cover_path\":"@ + enc_opt_string(v.cover_path) + ",\"cover\":"@, enc_opt_string(v.cover));
    lemma_str_at_concat(s, pos, "{\"id\":"@ + enc_string(v.id) + ",\"name\":"@ + enc_string(v.name) + ",\"description\":"@ + enc_opt_string(v.description) + ",\"cover_path\":"@ + enc_opt_string(v.cover_path), ",\"cover\":"@);
    lemma_str_at_concat(s, pos, "{\"id\":"@ + enc_string(v.id) + ",\"name\":"@ + enc_string(v.name) + ",\"description\":"@ + enc_opt_string(v.description) + ",\"cover_path\":"@, enc_opt_string(v.cover_path));
    lemma_str_at_concat(s, pos, "{\"id\":"@ + enc_string(v.id) + ",\"name\":"@ + enc_string(v.name) + ",\"description\":"@ + enc_opt_string(v.description), ",\"cover_path\":"@);
    lemma_str_at_concat(s, pos, "{\"id\":"@ + enc_string(v.id) + ",\"name\":"@ + enc_string(v.name) + ",\"description\":"@, enc_opt_string(v.description));
    lemma_str_at_concat(s, pos, "{\"id\":"@ + enc_string(v.id) + ",\"name\":"@ + enc_string(v.name), ",\"description\":"@);
    lemma_str_at_concat(s, pos, "{\"id\":"@ + enc_string(v.id) + ",\"name\":"@, enc_string(v.name));
    lemma_str_at_concat(s, pos, "{\"id\":"@ + enc_string(v.id), ",\"name\":"@);
    lemma_str_at_concat(s, pos, "{\"id\":"@, enc_string(v.id));
    assert(enc_playlist_head(v) == "{\"id\":"@ + enc_string(v.id) + ",\"name\":"@ + enc_string(v.name) + ",\"description\":"@ + enc_opt_string(v.description) + ",\"cover_path\":"@ + enc_opt_string(v.cover_path) + ",\"cover\":"@ + enc_opt_string(v.cover));
    lemma_str_at_concat(s, pos + enc_playlist_head(v).len(), ",\"audios\":"@ + enc_local_audio_list(v.audios) + ",\"platform\":"@ + enc_string(v.platform) + ",\"created_at\":"@ + dec_chars(v.created_at as int) + ",\"updated_at\":"@ + dec_chars(v.updated_at as int), "}"@);
    lemma_str_at_concat(s, pos + enc_playlist_head(v).len(), ",\"audios\":"@ + enc_local_audio_list(v.audios) + ",\"platform\":"@ + enc_string(v.platform) + ",\"created_at\":"@ + dec_chars(v.created_at as int) + ",\"updated_at\":"@, dec_chars(v.updated_at as int));
    lemma_str_at_concat(s, pos + enc_playlist_head(v).len(), ",\"audios\":"@ + enc_local_audio_list(v.audios) + ",\"platform\":"@ + enc_string(v.platform) + ",\"created_at\":"@ + dec_chars(v.created_at as int), ",\"updated_at\":"@);
    lemma_str_at_concat(s, pos + enc_playlist_head(v).len(), ",\"audios\":"@ + enc_local_audio_list(v.audios) + ",\"platform\":"@ + enc_string(v.platform) + ",\"created_at\":"@, dec_chars(v.created_at as int));
    lemma_str_at_concat(s, pos + enc_playlist_head(v).len(), ",\"audios\":"@ + enc_local_audio_list(v.audios) + ",\"platform\":"@ + enc_string(v.platform), ",\"created_at\":"@);
    lemma_str_at_concat(s, pos + enc_playlist_head(v).len(), ",\"audios\":"@ + enc_local_audio_list(v.audios) + ",\"platform\":"@, enc_string(v.platform));
    lemma_str_at_concat(s, pos + enc_playlist_head(v).len(), ",\"audios\":"@ + enc_local_audio_list(v.audios), ",\"platform\":"@);
    lemma_str_at_concat(s, pos + enc_playlist_head(v).len(), ",\"audios\":"@, enc_local_audio_list(v.audios));
    assert(enc_playlist_tail(v) == ",\"audios\":"@ + enc_local_audio_list(v.audios) + ",\"platform\":"@ + enc_string(v.platform) + ",\"created_at\":"@ + dec_chars(v.created_at as int) + ",\"updated_at\":"@ + dec_chars(v.updated_at as int) + "}"@);
    lemma_str_at_index(s, pos + "{\"id\":"@.len() + enc_string(v.id).len() + ",\"name\":"@.len() + enc_string(v.name).len() + ",\"description\":"@.len() + enc_opt_string(v.description).len() + ",\"cover_path\":"@.len() + enc_opt_string(v.cover_path).len() + ",\"cover\":"@.len() + enc_opt_string(v.cover).len() + ",\"audios\":"@.len() + enc_local_audio_list(v.audios).len() + ",\"platform\":"@.len() + enc_string(v.platform).len() + ",\"created_at\":"@.len() + dec_chars(v.created_at as int).len(), ",\"updated_at\":"@, 0);
    lemma_str_at_index(s, pos + "{\"id\":"@.len() + enc_string(v.id).len() + ",\"name\":"@.len() + enc_string(v.name).len() + ",\"description\":"@.len() + enc_opt_string(v.description).len() + ",\"cover_path\":"@.len() + enc_opt_string(v.cover_path).len() + ",\"cover\":"@.len() + enc_opt_string(v.cover).len() + ",\"audios\":"@.len() + enc_local_audio_list(v.audios).len() + ",\"platform\":"@.len() + enc_string(v.platform).len() + ",\"created_at\":"@.len() + dec_chars(v.created_at as int).len() + ",\"updated_at\":"@.len() + dec_chars(v.updated_at as int).len(), "}"@, 0);
}

/// Reads one `LocalPlaylist` object: where the encoding of a value sits at
/// `pos`, it returns exactly that value and consumes exactly its encoding.
#[verifier::rlimit(100)]
#[verifier::spinoff_prover]
fn parse_playlist(s: &str, pos: usize) -> (r: Result<(LocalPlaylist, usize), AppError>)
    requires
        pos <= s@.len(),
    ensures
        r matches Ok((x, end)) ==> pos < end <= s@.len() && pos < s@.len()
            && s@[pos as int] == '{',
        forall|v: LocalPlaylistView|
            #[trigger] str_at(s@, pos as int, enc_playlist(v)) ==> (r matches Ok(
                (x, end),
            ) && x@ == v && end == pos + enc_playlist(v).len()),
    decreases s@.len() - pos,
{
    proof {
        reveal_strlit("{\"id\":");
    }
    let p1 = match eat_lit(s, pos, "{\"id\":") {
        Ok(p) => p,
        Err(e) => {
            proof {
                assert forall|v: LocalPlaylistView|
                    !(#[trigger] str_at(s@, pos as int, enc_playlist(v))) by {
                    if str_at(s@, pos as int, enc_playlist(v)) {
                        lemma_playlist_parts(s@, pos as int, v);
                    }
                }
            }
            return Err(e);
        },
    };
    let (id, p2) = match parse_string(s, p1) {
        Ok(x) => x,
        Err(e) => {
            proof {
                assert forall|v: LocalPlaylistView|
                    !(#[trigger] str_at(s@, pos as int, enc_playlist(v))) by {
                    if str_at(s@, pos as int, enc_playlist(v)) {
                        lemma_playlist_parts(s@, pos as int, v);
                    }
                }
            }
            return Err(e);
        },
    };
    let p3 = match eat_lit(s, p2, ",\"name\":") {
        Ok(p) => p,
        Err(e) => {
            proof {
                assert forall|v: LocalPlaylistView|
                    !(#[trigger] str_at(s@, pos as int, enc_playlist(v))) by {
                    if str_at(s@, pos as int, enc_playlist(v)) {
                        lemma_playlist_parts(s@, pos as int, v);
                    }
                }
            }
            return Err(e);
        },
    };
    let (name, p4) = match parse_string(s, p3) {
        Ok(x) => x,
        Err(e) => {
            proof {
                assert forall|v: LocalPlaylistView|
                    !(#[trigger] str_at(s@, pos as int, enc_playlist(v))) by {
                    if str_at(s@, pos as int, enc_playlist(v)) {
                        lemma_playlist_parts(s@, pos as int, v);
                    }
                }
            }
            return Err(e);
        },
    };
    let p5 = match eat_lit(s, p4, ",\"description\":") {
        Ok(p) => p,
        Err(e) => {
            proof {
                assert forall|v: LocalPlaylistView|
                    !(#[trigger] str_at(s@, pos as int, enc_playlist(v))) by {
                    if str_at(s@, pos as int, enc_playlist(v)) {
                        lemma_playlist_parts(s@, pos as int, v);
                    }
                }
            }
            return Err(e);
        },
    };
    let (description, p6) = match parse_opt_string(s, p5) {
        Ok(x) => x,
        Err(e) => {
            proof {
                assert forall|v: LocalPlaylistView|
                    !(#[trigger] str_at(s@, pos as int, enc_playlist(v))) by {
                    if str_at(s@, pos as int, enc_playlist(v)) {
                        lemma_playlist_parts(s@, pos as int, v);
                    }
                }
            }
            return Err(e);
        },
    };
    let p7 = match eat_lit(s, p6, ",\"cover_path\":") {
        Ok(p) => p,
        Err(e) => {
            proof {
                assert forall|v: LocalPlaylistView|
                    !(#[trigger] str_at(s@, pos as int, enc_playlist(v))) by {
                    if str_at(s@, pos as int, enc_playlist(v)) {
                        lemma_playlist_parts(s@, pos as int, v);
                    }
                }
            }
            return Err(e);
        },
    };
    let (cover_path, p8) = match parse_opt_string(s, p7) {
        Ok(x) => x,
        Err(e) => {
            proof {
                assert forall|v: LocalPlaylistView|
                    !(#[trigger] str_at(s@, pos as int, enc_playlist(v))) by {
                    if str_at(s@, pos as int, enc_playlist(v)) {
                        lemma_playlist_parts(s@, pos as int, v);
                    }
                }
            }
            return Err(e);
        },
    };
    let p9 = match eat_lit(s, p8, ",\"cover\":") {
        Ok(p) => p,
        Err(e) => {
            proof {
                assert forall|v: LocalPlaylistView|
                    !(#[trigger] str_at(s@, pos as int, enc_playlist(v))) by {
                    if str_at(s@, pos as int, enc_playlist(v)) {
                        lemma_playlist_parts(s@, pos as int, v);
                    }
                }
            }
            return Err(e);
        },
    };
    let (cover, p10) = match parse_opt_string(s, p9) {
        Ok(x) => x,
        Err(e) => {
            proof {
                assert forall|v: LocalPlaylistView|
                    !(#[trigger] str_at(s@, pos as int, enc_playlist(v))) by {
                    if str_at(s@, pos as int, enc_playlist(v)) {
                        lemma_playlist_parts(s@, pos as int, v);
                    }
                }
            }
            return Err(e);
        },
    };
    let p11 = match eat_lit(s, p10, ",\"audios\":") {
        Ok(p) => p,
        Err(e) => {
            proof {
                assert forall|v: LocalPlaylistView|
                    !(#[trigger] str_at(s@, pos as int, enc_playlist(v))) by {
                    if str_at(s@, pos as int, enc_playlist(v)) {
                        lemma_playlist_parts(s@, pos as int, v);
                    }
                }
            }
            return Err(e);
        },
    };
    let (audios, p12) = match parse_local_audio_list(s, p11) {
        Ok(x) => x,
        Err(e) => {
            proof {
                assert forall|v: LocalPlaylistView|
                    !(#[trigger] str_at(s@, pos as int, enc_playlist(v))) by {
                    if str_at(s@, pos as int, enc_playlist(v)) {
                        lemma_playlist_parts(s@, pos as int, v);
                    }
                }
            }
            return Err(e);
        },
    };
    let p13 = match eat_lit(s, p12, ",\"platform\":") {
        Ok(p) => p,
        Err(e) => {
            proof {
                assert forall|v: LocalPlaylistView|
                    !(#[trigger] str_at(s@, pos as int, enc_playlist(v))) by {
                    if str_at(s@, pos as int, enc_playlist(v)) {
                        lemma_playlist_parts(s@, pos as int, v);
                    }
                }
            }
            return Err(e);
        },
    };
    let (platform, p14) = match parse_string(s, p13) {
        Ok(x) => x,
        Err(e) => {
            proof {
                assert forall|v: LocalPlaylistView|
                    !(#[trigger] str_at(s@, pos as int, enc_playlist(v))) by {
                    if str_at(s@, pos as int, enc_playlist(v)) {
                        lemma_playlist_parts(s@, pos as int, v);
                    }
                }
            }
            return Err(e);
        },
    };
    let p15 = match eat_lit(s, p14, ",\"created_at\":") {
        Ok(p) => p,
        Err(e) => {
            proof {
                assert forall|v: LocalPlaylistView|
                    !(#[trigger] str_at(s@, pos as int, enc_playlist(v))) by {
                    if str_at(s@, pos as int, enc_playlist(v)) {
                        lemma_playlist_parts(s@, pos as int, v);
                    }
                }
            }
            return Err(e);
        },
    };
    let (created_at, p16) = match parse_u64(s, p15) {
        Ok(x) => x,
        Err(e) => {
            proof {
                assert forall|v: LocalPlaylistView|
                    !(#[trigger] str_at(s@, pos as int, enc_playlist(v))) by {
                    if str_at(s@, pos as int, enc_playlist(v)) {
                        lemma_playlist_parts(s@, pos as int, v);
                    }
                }
            }
            return Err(e);
        },
    };
    let p17 = match eat_lit(s, p16, ",\"updated_at\":") {
        Ok(p) => p,
        Err(e) => {
            proof {
                assert forall|v: LocalPlaylistView|
                    !(#[trigger] str_at(s@, pos as int, enc_playlist(v))) by {
                    if str_at(s@, pos as int, enc_playlist(v)) {
                        lemma_playlist_parts(s@, pos as int, v);
                    }
                }
            }
            return Err(e);
        },
    };
    let (updated_at, p18) = match parse_u64(s, p17) {
        Ok(x) => x,
        Err(e) => {
            proof {
                assert forall|v: LocalPlaylistView|
                    !(#[trigger] str_at(s@, pos as int, enc_playlist(v))) by {
                    if str_at(s@, pos as int, enc_playlist(v)) {
                        lemma_playlist_parts(s@, pos as int, v);
                    }
                }
            }
            return Err(e);
        },
    };
    let p19 = match eat_lit(s, p18, "}") {
        Ok(p) => p,
        Err(e) => {
            proof {
                assert forall|v: LocalPlaylistView|
                    !(#[trigger] str_at(s@, pos as int, enc_playlist(v))) by {
                    if str_at(s@, pos as int, enc_playlist(v)) {
                        lemma_playlist_parts(s@, pos as int, v);
                    }
                }
            }
            return Err(e);
        },
    };
    let x = LocalPlaylist { id, name, description, cover_path, cover, audios, platform, created_at, updated_at };
    proof {
        assert forall|v: LocalPlaylistView|
            #[trigger] str_at(s@, pos as int, enc_playlist(v)) implies (x@ == v
            && p19 == pos + enc_playlist(v).len()) by {
            lemma_playlist_parts(s@, pos as int, v);
            assert(crate::audio::entry_views(audios@) =~= x@.audios);
            assert(x@ == v);
        }
        lemma_str_at_index(s@, pos as int, "{\"id\":"@, 0);
    }
    Ok((x, p19))
}

/// A non-empty items run opens with an object brace.
proof fn playlist_items_first_char(items: Seq<LocalPlaylistView>)
    requires
        items.len() > 0,
    ensures
        (enc_playlist_items(items) + seq![']'])[0] == '{',
        enc_playlist_items(items).len() > 0,
{
    reveal_strlit("{\"id\":");
    assert(enc_playlist(items.first())[0] == '{');
    if items.len() == 1 {
        assert(enc_playlist_items(items)[0] == '{');
    } else {
        assert(enc_playlist_items(items)[0] == '{');
    }
}

/// Where a non-empty items run sits, its first item's encoding sits at the
/// front.
proof fn playlist_peel_first(s: Seq<char>, pos: int, items: Seq<LocalPlaylistView>)
    requires
        str_at(s, pos, enc_playlist_items(items) + seq![']']),
        items.len() > 0,
    ensures
        str_at(s, pos, enc_playlist(items.first())),
{
    if items.len() == 1 {
        lemma_str_at_concat(s, pos, enc_playlist_items(items), seq![']']);
    } else {
        assert(enc_playlist_items(items) + seq![']'] =~= enc_playlist(items.first()) + (seq![',']
            + enc_playlist_items(items.drop_first()) + seq![']']));
        lemma_str_at_concat(
            s,
            pos,
            enc_playlist(items.first()),
            seq![','] + enc_playlist_items(items.drop_first()) + seq![']'],
        );
    }
}

/// After the first item of a several-item run comes a comma and the rest of
/// the run; the item read at the front is the first item.
proof fn playlist_items_step(s: Seq<char>, pos: int, items: Seq<LocalPlaylistView>, got: LocalPlaylistView, p1: int)
    requires
        str_at(s, pos, enc_playlist_items(items) + seq![']']),
        0 <= pos < s.len(),
        s[pos] == '{',
        forall|v: LocalPlaylistView|
            #[trigger] str_at(s, pos, enc_playlist(v)) ==> got == v && p1 == pos + enc_playlist(
                v,
            ).len(),
        0 <= p1 < s.len(),
        s[p1] == ',',
    ensures
        items.len() >= 2,
        got == items.first(),
        p1 == pos + enc_playlist(items.first()).len(),
        str_at(s, p1 + 1, enc_playlist_items(items.drop_first()) + seq![']']),
        enc_playlist_items(items).len() == enc_playlist(items.first()).len() + 1
            + enc_playlist_items(items.drop_first()).len(),
{
    if items.len() == 0 {
        assert(enc_playlist_items(items) + seq![']'] =~= seq![']']);
        lemma_str_at_index(s, pos, seq![']'], 0);
    }
    playlist_peel_first(s, pos, items);
    assert(got == items.first());
    assert(p1 == pos + enc_playlist(items.first()).len());
    if items.len() == 1 {
        lemma_str_at_concat(s, pos, enc_playlist_items(items), seq![']']);
        lemma_str_at_index(s, pos + enc_playlist_items(items).len(), seq![']'], 0);
        assert(s[p1] == ']');
    } else {
        assert(enc_playlist_items(items) + seq![']'] =~= (enc_playlist(items.first()) + seq![','])
            + (enc_playlist_items(items.drop_first()) + seq![']']));
        lemma_str_at_concat(
            s,
            pos,
            enc_playlist(items.first()) + seq![','],
            enc_playlist_items(items.drop_first()) + seq![']'],
        );
    }
}

/// Where the character after the first item closes the list, the run has
/// exactly that item.
proof fn playlist_items_single(s: Seq<char>, pos: int, items: Seq<LocalPlaylistView>, got: LocalPlaylistView, p1: int)
    requires
        str_at(s, pos, enc_playlist_items(items) + seq![']']),
        0 <= pos < s.len(),
        s[pos] == '{',
        forall|v: LocalPlaylistView|
            #[trigger] str_at(s, pos, enc_playlist(v)) ==> got == v && p1 == pos + enc_playlist(
                v,
            ).len(),
        0 <= p1 < s.len(),
        s[p1] == ']',
    ensures
        items.len() == 1,
        got == items.first(),
        p1 + 1 == pos + enc_playlist_items(items).len() + 1,
{
    if items.len() == 0 {
        assert(enc_playlist_items(items) + seq![']'] =~= seq![']']);
        lemma_str_at_index(s, pos, seq![']'], 0);
    }
    playlist_peel_first(s, pos, items);
    if items.len() >= 2 {
        assert(enc_playlist_items(items) + seq![']'] =~= (enc_playlist(items.first()) + seq![','])
            + (enc_playlist_items(items.drop_first()) + seq![']']));
        lemma_str_at_concat(
            s,
            pos,
            enc_playlist(items.first()) + seq![','],
            enc_playlist_items(items.drop_first()) + seq![']'],
        );
        lemma_str_at_concat(s, pos, enc_playlist(items.first()), seq![',']);
        lemma_str_at_index(s, pos + enc_playlist(items.first()).len(), seq![','], 0);
    } else {
        lemma_str_at_concat(s, pos, enc_playlist_items(items), seq![']']);
    }
}

/// After one item of a run, the next character is a comma or the closing
/// bracket.
proof fn playlist_after_delim(s: Seq<char>, pos: int, items: Seq<LocalPlaylistView>, got: LocalPlaylistView, p1: int)
    requires
        str_at(s, pos, enc_playlist_items(items) + seq![']']),
        0 <= pos < s.len(),
        s[pos] == '{',
        forall|v: LocalPlaylistView|
            #[trigger] str_at(s, pos, enc_playlist(v)) ==> got == v && p1 == pos + enc_playlist(
                v,
            ).len(),
    ensures
        items.len() > 0,
        0 <= p1 < s.len(),
        s[p1] == ',' || s[p1] == ']',
{
    if items.len() == 0 {
        assert(enc_playlist_items(items) + seq![']'] =~= seq![']']);
        lemma_str_at_index(s, pos, seq![']'], 0);
    }
    playlist_peel_first(s, pos, items);
    assert(p1 == pos + enc_playlist(items.first()).len());
    if items.len() == 1 {
        lemma_str_at_concat(s, pos, enc_playlist_items(items), seq![']']);
        lemma_str_at_index(s, pos + enc_playlist_items(items).len(), seq![']'], 0);
    } else {
        assert(enc_playlist_items(items) + seq![']'] =~= (enc_playlist(items.first()) + seq![','])
            + (enc_playlist_items(items.drop_first()) + seq![']']));
        lemma_str_at_concat(
            s,
            pos,
            enc_playlist(items.first()) + seq![','],
            enc_playlist_items(items.drop_first()) + seq![']'],
        );
        lemma_str_at_concat(s, pos, enc_playlist(items.first()), seq![',']);
        lemma_str_at_index(s, pos + enc_playlist(items.first()).len(), seq![','], 0);
    }
}

/// Reads a JSON list of `LocalPlaylist` objects.
fn parse_playlist_list(s: &str, pos: usize) -> (r: Result<(Vec<LocalPlaylist>, usize), AppError>)
    requires
        pos <= s@.len(),
    ensures
        r matches Ok((out, end)) ==> pos < end <= s@.len(),
        forall|items: Seq<LocalPlaylistView>|
            #[trigger] str_at(s@, pos as int, enc_playlist_list(items)) ==> (r matches Ok(
                (out, end),
            ) && playlist_views(out@) == items && end == pos + enc_playlist_list(items).len()),
{
    let n_len = s.unicode_len();
    if pos >= n_len || s.get_char(pos) != '[' {
        proof {
            assert forall|items: Seq<LocalPlaylistView>|
                !(#[trigger] str_at(s@, pos as int, enc_playlist_list(items))) by {
                if str_at(s@, pos as int, enc_playlist_list(items)) {
                    lemma_str_at_index(s@, pos as int, enc_playlist_list(items), 0);
                }
            }
        }
        return Err(parse_error());
    }
    let mut out: Vec<LocalPlaylist> = Vec::new();
    match parse_playlist_items_rest(s, pos + 1, &mut out) {
        Ok(end) => {
            proof {
                assert forall|items: Seq<LocalPlaylistView>|
                    #[trigger] str_at(s@, pos as int, enc_playlist_list(items)) implies (
                playlist_views(out@) == items && end == pos + enc_playlist_list(items).len()) by {
                    assert(enc_playlist_list(items) =~= seq!['['] + (enc_playlist_items(items) + seq![']']));
                    lemma_str_at_concat(s@, pos as int, seq!['['], enc_playlist_items(items) + seq![']']);
                    assert(playlist_views(out@) =~= items);
                }
            }
            Ok((out, end))
        },
        Err(e) => {
            proof {
                assert forall|items: Seq<LocalPlaylistView>|
                    !(#[trigger] str_at(s@, pos as int, enc_playlist_list(items))) by {
                    if str_at(s@, pos as int, enc_playlist_list(items)) {
                        assert(enc_playlist_list(items) =~= seq!['['] + (enc_playlist_items(items) + seq![']']));
                        lemma_str_at_concat(
                            s@,
                            pos as int,
                            seq!['['],
                            enc_playlist_items(items) + seq![']'],
                        );
                    }
                }
            }
            Err(e)
        },
    }
}

/// Reads the comma-separated items of an `LocalPlaylist` list up to and including
/// the closing bracket, appending the values read to `out`.
#[verifier::rlimit(100)]
#[verifier::spinoff_prover]
fn parse_playlist_items_rest(s: &str, pos: usize, out: &mut Vec<LocalPlaylist>) -> (r: Result<
    usize,
    AppError,
>)
    requires
        pos <= s@.len(),
    ensures
        r matches Ok(end) ==> pos < end <= s@.len(),
        forall|items: Seq<LocalPlaylistView>|
            #[trigger] str_at(s@, pos as int, enc_playlist_items(items) + seq![']']) ==> (r matches
                Ok(end) && final(out)@.len() == old(out)@.len() + items.len() && (forall|k: int|
                0 <= k < old(out)@.len() ==> final(out)@[k] == old(out)@[k]) && (forall|k: int|
                old(out)@.len() <= k < final(out)@.len() ==> (#[trigger] final(out)@[k])@
                    == items[k - old(out)@.len()]) && end == pos + enc_playlist_items(items).len()
                + 1),
    decreases s@.len() - pos,
{
    let n_len = s.unicode_len();
    if pos < n_len && s.get_char(pos) == ']' {
        proof {
            assert forall|items: Seq<LocalPlaylistView>|
                #[trigger] str_at(s@, pos as int, enc_playlist_items(items) + seq![']'])
                implies items.len() == 0 && pos + 1 == pos + enc_playlist_items(items).len()
                + 1 by {
                if items.len() > 0 {
                    playlist_items_first_char(items);
                    lemma_str_at_index(s@, pos as int, enc_playlist_items(items) + seq![']'], 0);
                }
            }
        }
        return Ok(pos + 1);
    }
    let (item, p1) = match parse_playlist(s, pos) {
        Ok(x) => x,
        Err(e) => {
            proof {
                assert forall|items: Seq<LocalPlaylistView>|
                    !(#[trigger] str_at(s@, pos as int, enc_playlist_items(items) + seq![']'])) by {
                    if str_at(s@, pos as int, enc_playlist_items(items) + seq![']']) {
                        if items.len() == 0 {
                            assert(enc_playlist_items(items) + seq![']'] =~= seq![']']);
                            lemma_str_at_index(s@, pos as int, seq![']'], 0);
                        } else {
                            playlist_peel_first(s@, pos as int, items);
                        }
                    }
                }
            }
            return Err(e);
        },
    };
    let ghost out0 = out@;
    out.push(item);
    if p1 < n_len && s.get_char(p1) == ',' {
        let ghost mid = out@;
        match parse_playlist_items_rest(s, p1 + 1, out) {
            Ok(end) => {
                proof {
                    assert forall|items: Seq<LocalPlaylistView>|
                        #[trigger] str_at(s@, pos as int, enc_playlist_items(items) + seq![']'])
                        implies (out@.len() == out0.len() + items.len() && (forall|k: int|
                        0 <= k < out0.len() ==> out@[k] == out0[k]) && (forall|k: int|
                        out0.len() <= k < out@.len() ==> (#[trigger] out@[k])@ == items[k
                            - out0.len()]) && end == pos + enc_playlist_items(items).len() + 1) by {
                        playlist_items_step(s@, pos as int, items, mid.last()@, p1 as int);
                        let rest = items.drop_first();
                        assert(str_at(s@, p1 + 1, enc_playlist_items(rest) + seq![']']));
                        assert(mid == out0.push(mid.last()));
                        assert forall|k: int|
                            out0.len() <= k < out@.len() implies (#[trigger] out@[k])@ == items[k
                            - out0.len()] by {
                            if k == out0.len() {
                                assert(out@[k] == mid[k]);
                            } else {
                                assert(out@[k]@ == rest[k - mid.len()]);
                                assert(rest[k - mid.len()] == items[k - out0.len()]);
                            }
                        }
                    }
                }
                Ok(end)
            },
            Err(e) => {
                proof {
                    assert forall|items: Seq<LocalPlaylistView>|
                        !(#[trigger] str_at(s@, pos as int, enc_playlist_items(items) + seq![']']))
                        by {
                        if str_at(s@, pos as int, enc_playlist_items(items) + seq![']']) {
                            playlist_items_step(s@, pos as int, items, mid.last()@, p1 as int);
                        }
                    }
                }
                Err(e)
            },
        }
    } else if p1 < n_len && s.get_char(p1) == ']' {
        proof {
            assert forall|items: Seq<LocalPlaylistView>|
                #[trigger] str_at(s@, pos as int, enc_playlist_items(items) + seq![']']) implies (
            out@.len() == out0.len() + items.len() && (forall|k: int|
                0 <= k < out0.len() ==> out@[k] == out0[k]) && (forall|k: int|
                out0.len() <= k < out@.len() ==> (#[trigger] out@[k])@ == items[k - out0.len()])
                && p1 + 1 == pos + enc_playlist_items(items).len() + 1) by {
                playlist_items_single(s@, pos as int, items, out@.last()@, p1 as int);
                assert(out@[out0.len() as int] == out@.last());
            }
        }
        Ok(p1 + 1)
    } else {
        proof {
            assert forall|items: Seq<LocalPlaylistView>|
                !(#[trigger] str_at(s@, pos as int, enc_playlist_items(items) + seq![']'])) by {
                if str_at(s@, pos as int, enc_playlist_items(items) + seq![']']) {
                    playlist_after_delim(s@, pos as int, items, out@.last()@, p1 as int);
                }
            }
        }
        Err(parse_error())
    }
}


/// Where the encoding of `v` sits at `pos`, each key and each field value
/// sits at its own offset inside it, and every number ends at a non-digit.
proof fn lemma_settings_parts(s: Seq<char>, pos: int, v: AppSettingsView)
    requires
        str_at(s, pos, enc_settings(v)),
    ensures
        ({
            let q1 = pos + "{\"download_path\":"@.len();
            let q2 = q1 + enc_opt_string(v.download_path).len();
            let q3 = q2 + ",\"max_cache_size\":"@.len();
            let q4 = q3 + enc_opt_u64(v.max_cache_size).len();
            let q5 = q4 + ",\"auto_download_cover\":"@.len();
            let q6 = q5 + enc_bool(v.auto_download_cover).len();
            let q7 = q6 + ",\"default_audio_format\":"@.len();
            let q8 = q7 + enc_string(v.default_audio_format).len();
            let q9 = q8 + "}"@.len();
            &&& pos + enc_settings(v).len() == q9
            &&& str_at(s, pos, "{\"download_path\":"@)
            &&& str_at(s, q1, enc_opt_string(v.download_path))
            &&& str_at(s, q2, ",\"max_cache_size\":"@)
            &&& str_at(s, q3, enc_opt_u64(v.max_cache_size))
            &&& str_at(s, q4, ",\"auto_download_cover\":"@)
            &&& str_at(s, q5, enc_bool(v.auto_download_cover))
            &&& str_at(s, q6, ",\"default_audio_format\":"@)
            &&& str_at(s, q7, enc_string(v.default_audio_format))
            &&& str_at(s, q8, "}"@)
            &&& nondigit_at(s, q4)
        }),
{
    reveal_strlit(",\"auto_download_cover\":");
    lemma_str_at_concat(s, pos, "{\"download_path\":"@ + enc_opt_string(v.download_path) + ",\"max_cache_size\":"@ + enc_opt_u64(v.max_cache_size) + ",\"auto_download_cover\":"@ + enc_bool(v.auto_download_cover) + ",\"default_audio_format\":"@ + enc_string(v.default_audio_format), "}"@);
    lemma_str_at_concat(s, pos, "{\"download_path\":"@ + enc_opt_string(v.download_path) + ",\"max_cache_size\":"@ + enc_opt_u64(v.max_cache_size) + ",\"auto_download_cover\":"@ + enc_bool(v.auto_download_cover) + ",\"default_audio_format\":"@, enc_string(v.default_audio_format));
    lemma_str_at_concat(s, pos, "{\"download_path\":"@ + enc_opt_string(v.download_path) + ",\"max_cache_size\":"@ + enc_opt_u64(v.max_cache_size) + ",\"auto_download_cover\":"@ + enc_bool(v.auto_download_cover), ",\"default_audio_format\":"@);
    lemma_str_at_concat(s, pos, "{\"download_path\":"@ + enc_opt_string(v.download_path) + ",\"max_cache_size\":"@ + enc_opt_u64(v.max_cache_size) + ",\"auto_download_cover\":"@, enc_bool(v.auto_download_cover));
    lemma_str_at_concat(s, pos, "{\"download_path\":"@ + enc_opt_string(v.download_path) + ",\"max_cache_size\":"@ + enc_opt_u64(v.max_cache_size), ",\"auto_download_cover\":"@);
    lemma_str_at_concat(s, pos, "{\"download_path\":"@ + enc_opt_string(v.download_path) + ",\"max_cache_size\":"@, enc_opt_u64(v.max_cache_size));
    lemma_str_at_concat(s, pos, "{\"download_path\":"@ + enc_opt_string(v.download_path), ",\"max_cache_size\":"@);
    lemma_str_at_concat(s, pos, "{\"download_path\":"@, enc_opt_string(v.download_path));
    assert(enc_settings(v) == "{\"download_path\":"@ + enc_opt_string(v.download_path) + ",\"max_cache_size\":"@ + enc_opt_u64(v.max_cache_size) + ",\"auto_download_cover\":"@ + enc_bool(v.auto_download_cover) + ",\"default_audio_format\":"@ + enc_string(v.default_audio_format) + "}"@);
    lemma_str_at_index(s, pos + "{\"download_path\":"@.len() + enc_opt_string(v.download_path).len() + ",\"max_cache_size\":"@.len() + enc_opt_u64(v.max_cache_size).len(), ",\"auto_download_cover\":"@, 0);
}

/// Reads one `AppSettings` object: where the encoding of a value sits at
/// `pos`, it returns exactly that value and consumes exactly its encoding.
#[verifier::rlimit(100)]
#[verifier::spinoff_prover]
fn parse_settings(s: &str, pos: usize) -> (r: Result<(AppSettings, usize), AppError>)
    requires
        pos <= s@.len(),
    ensures
        r matches Ok((x, end)) ==> pos < end <= s@.len() && pos < s@.len()
            && s@[pos as int] == '{',
        forall|v: AppSettingsView|
            #[trigger] str_at(s@, pos as int, enc_settings(v)) ==> (r matches Ok(
                (x, end),
            ) && x@ == v && end == pos + enc_settings(v).len()),
    decreases s@.len() - pos,
{
    proof {
        reveal_strlit("{\"download_path\":");
    }
    let p1 = match eat_lit(s, pos, "{\"download_path\":") {
        Ok(p) => p,
        Err(e) => {
            proof {
                assert forall|v: AppSettingsView|
                    !(#[trigger] str_at(s@, pos as int, enc_settings(v))) by {
                    if str_at(s@, pos as int, enc_settings(v)) {
                        lemma_settings_parts(s@, pos as int, v);
                    }
                }
            }
            return Err(e);
        },
    };
    let (download_path, p2) = match parse_opt_string(s, p1) {
        Ok(x) => x,
        Err(e) => {
            proof {
                assert forall|v: AppSettingsView|
                    !(#[trigger] str_at(s@, pos as int, enc_settings(v))) by {
                    if str_at(s@, pos as int, enc_settings(v)) {
                        lemma_settings_parts(s@, pos as int, v);
                    }
                }
            }
            return Err(e);
        },
    };
    let p3 = match eat_lit(s, p2, ",\"max_cache_size\":") {
        Ok(p) => p,
        Err(e) => {
            proof {
                assert forall|v: AppSettingsView|
                    !(#[trigger] str_at(s@, pos as int, enc_settings(v))) by {
                    if str_at(s@, pos as int, enc_settings(v)) {
                        lemma_settings_parts(s@, pos as int, v);
                    }
                }
            }
            return Err(e);
        },
    };
    let (max_cache_size, p4) = match parse_opt_u64(s, p3) {
        Ok(x) => x,
        Err(e) => {
            proof {
                assert forall|v: AppSettingsView|
                    !(#[trigger] str_at(s@, pos as int, enc_settings(v))) by {
                    if str_at(s@, pos as int, enc_settings(v)) {
                        lemma_settings_parts(s@, pos as int, v);
                    }
                }
            }
            return Err(e);
        },
    };
    let p5 = match eat_lit(s, p4, ",\"auto_download_cover\":") {
        Ok(p) => p,
        Err(e) => {
            proof {
                assert forall|v: AppSettingsView|
                    !(#[trigger] str_at(s@, pos as int, enc_settings(v))) by {
                    if str_at(s@, pos as int, enc_settings(v)) {
                        lemma_settings_parts(s@, pos as int, v);
                    }
                }
            }
            return Err(e);
        },
    };
    let (auto_download_cover, p6) = match parse_bool(s, p5) {
        Ok(x) => x,
        Err(e) => {
            proof {
                assert forall|v: AppSettingsView|
                    !(#[trigger] str_at(s@, pos as int, enc_settings(v))) by {
                    if str_at(s@, pos as int, enc_settings(v)) {
                        lemma_settings_parts(s@, pos as int, v);
                    }
                }
            }
            return Err(e);
        },
    };
    let p7 = match eat_lit(s, p6, ",\"default_audio_format\":") {
        Ok(p) => p,
        Err(e) => {
            proof {
                assert forall|v: AppSettingsView|
                    !(#[trigger] str_at(s@, pos as int, enc_settings(v))) by {
                    if str_at(s@, pos as int, enc_settings(v)) {
                        lemma_settings_parts(s@, pos as int, v);
                    }
                }
            }
            return Err(e);
        },
    };
    let (default_audio_format, p8) = match parse_string(s, p7) {
        Ok(x) => x,
        Err(e) => {
            proof {
                assert forall|v: AppSettingsView|
                    !(#[trigger] str_at(s@, pos as int, enc_settings(v))) by {
                    if str_at(s@, pos as int, enc_settings(v)) {
                        lemma_settings_parts(s@, pos as int, v);
                    }
                }
            }
            return Err(e);
        },
    };
    let p9 = match eat_lit(s, p8, "}") {
        Ok(p) => p,
        Err(e) => {
            proof {
                assert forall|v: AppSettingsView|
                    !(#[trigger] str_at(s@, pos as int, enc_settings(v))) by {
                    if str_at(s@, pos as int, enc_settings(v)) {
                        lemma_settings_parts(s@, pos as int, v);
                    }
                }
            }
            return Err(e);
        },
    };
    let x = AppSettings { download_path, max_cache_size, auto_download_cover, default_audio_format };
    proof {
        assert forall|v: AppSettingsView|
            #[trigger] str_at(s@, pos as int, enc_settings(v)) implies (x@ == v
            && p9 == pos + enc_settings(v).len()) by {
            lemma_settings_parts(s@, pos as int, v);
            assert(x@ == v);
        }
        lemma_str_at_index(s@, pos as int, "{\"download_path\":"@, 0);
    }
    Ok((x, p9))
}

/// Where the encoding of `v` sits at `pos`, each key and each field value
/// sits at its own offset inside it, and every number ends at a non-digit.
proof fn lemma_config_parts(s: Seq<char>, pos: int, v: ConfigView)
    requires
        str_at(s, pos, enc_config(v)),
    ensures
        ({
            let q1 = pos + "{\"audios\":"@.len();
            let q2 = q1 + enc_local_audio_list(v.audios).len();
            let q3 = q2 + ",\"playlists\":"@.len();
            let q4 = q3 + enc_playlist_list(v.playlists).len();
            let q5 = q4 + ",\"settings\":"@.len();
            let q6 = q5 + enc_settings(v.settings).len();
            let q7 = q6 + "}"@.len();
            &&& pos + enc_config(v).len() == q7
            &&& str_at(s, pos, "{\"audios\":"@)
            &&& str_at(s, q1, enc_local_audio_list(v.audios))
            &&& str_at(s, q2, ",\"playlists\":"@)
            &&& str_at(s, q3, enc_playlist_list(v.playlists))
            &&& str_at(s, q4, ",\"settings\":"@)
            &&& str_at(s, q5, enc_settings(v.settings))
            &&& str_at(s, q6, "}"@)
        }),
{
    lemma_str_at_concat(s, pos, "{\"audios\":"@ + enc_local_audio_list(v.audios) + ",\"playlists\":"@ + enc_playlist_list(v.playlists) + ",\"settings\":"@ + enc_settings(v.settings), "}"@);
    lemma_str_at_concat(s, pos, "{\"audios\":"@ + enc_local_audio_list(v.audios) + ",\"playlists\":"@ + enc_playlist_list(v.playlists) + ",\"settings\":"@, enc_settings(v.settings));
    lemma_str_at_concat(s, pos, "{\"audios\":"@ + enc_local_audio_list(v.audios) + ",\"playlists\":"@ + enc_playlist_list(v.playlists), ",\"settings\":"@);
    lemma_str_at_concat(s, pos, "{\"audios\":"@ + enc_local_audio_list(v.audios) + ",\"playlists\":"@, enc_playlist_list(v.playlists));
    lemma_str_at_concat(s, pos, "{\"audios\":"@ + enc_local_audio_list(v.audios), ",\"playlists\":"@);
    lemma_str_at_concat(s, pos, "{\"audios\":"@, enc_local_audio_list(v.audios));
    assert(enc_config(v) == "{\"audios\":"@ + enc_local_audio_list(v.audios) + ",\"playlists\":"@ + enc_playlist_list(v.playlists) + ",\"settings\":"@ + enc_settings(v.settings) + "}"@);
}

/// Reads one `Config` object: where the encoding of a value sits at
/// `pos`, it returns exactly that value and consumes exactly its encoding.
#[verifier::rlimit(100)]
#[verifier::spinoff_prover]
fn parse_config(s: &str, pos: usize) -> (r: Result<(Config, usize), AppError>)
    requires
        pos <= s@.len(),
    ensures
        r matches Ok((x, end)) ==> pos < end <= s@.len() && pos < s@.len()
            && s@[pos as int] == '{',
        forall|v: ConfigView|
            #[trigger] str_at(s@, pos as int, enc_config(v)) ==> (r matches Ok(
                (x, end),
            ) && x@ == v && end == pos + enc_config(v).len()),
    decreases s@.len() - pos,
{
    proof {
        reveal_strlit("{\"audios\":");
    }
    let p1 = match eat_lit(s, pos, "{\"audios\":") {
        Ok(p) => p,
        Err(e) => {
            proof {
                assert forall|v: ConfigView|
                    !(#[trigger] str_at(s@, pos as int, enc_config(v))) by {
                    if str_at(s@, pos as int, enc_config(v)) {
                        lemma_config_parts(s@, pos as int, v);
                    }
                }
            }
            return Err(e);
        },
    };
    let (audios, p2) = match parse_local_audio_list(s, p1) {
        Ok(x) => x,
        Err(e) => {
            proof {
                assert forall|v: ConfigView|
                    !(#[trigger] str_at(s@, pos as int, enc_config(v))) by {
                    if str_at(s@, pos as int, enc_config(v)) {
                        lemma_config_parts(s@, pos as int, v);
                    }
                }
            }
            return Err(e);
        },
    };
    let p3 = match eat_lit(s, p2, ",\"playlists\":") {
        Ok(p) => p,
        Err(e) => {
            proof {
                assert forall|v: ConfigView|
                    !(#[trigger] str_at(s@, pos as int, enc_config(v))) by {
                    if str_at(s@, pos as int, enc_config(v)) {
                        lemma_config_parts(s@, pos as int, v);
                    }
                }
            }
            return Err(e);
        },
    };
    let (playlists, p4) = match parse_playlist_list(s, p3) {
        Ok(x) => x,
        Err(e) => {
            proof {
                assert forall|v: ConfigView|
                    !(#[trigger] str_at(s@, pos as int, enc_config(v))) by {
                    if str_at(s@, pos as int, enc_config(v)) {
                        lemma_config_parts(s@, pos as int, v);
                    }
                }
            }
            return Err(e);
        },
    };
    let p5 = match eat_lit(s, p4, ",\"settings\":") {
        Ok(p) => p,
        Err(e) => {
            proof {
                assert forall|v: ConfigView|
                    !(#[trigger] str_at(s@, pos as int, enc_config(v))) by {
                    if str_at(s@, pos as int, enc_config(v)) {
                        lemma_config_parts(s@, pos as int, v);
                    }
                }
            }
            return Err(e);
        },
    };
    let (settings, p6) = match parse_settings(s, p5) {
        Ok(x) => x,
        Err(e) => {
            proof {
                assert forall|v: ConfigView|
                    !(#[trigger] str_at(s@, pos as int, enc_config(v))) by {
                    if str_at(s@, pos as int, enc_config(v)) {
                        lemma_config_parts(s@, pos as int, v);
                    }
                }
            }
            return Err(e);
        },
    };
    let p7 = match eat_lit(s, p6, "}") {
        Ok(p) => p,
        Err(e) => {
            proof {
                assert forall|v: ConfigView|
                    !(#[trigger] str_at(s@, pos as int, enc_config(v))) by {
                    if str_at(s@, pos as int, enc_config(v)) {
                        lemma_config_parts(s@, pos as int, v);
                    }
                }
            }
            return Err(e);
        },
    };
    let x = Config { audios, playlists, settings };
    proof {
        assert forall|v: ConfigView|
            #[trigger] str_at(s@, pos as int, enc_config(v)) implies (x@ == v
            && p7 == pos + enc_config(v).len()) by {
            lemma_config_parts(s@, pos as int, v);
            assert(crate::audio::entry_views(audios@) =~= x@.audios);
            assert(playlist_views(playlists@) =~= x@.playlists);
            assert(x@ == v);
        }
        lemma_str_at_index(s@, pos as int, "{\"audios\":"@, 0);
    }
    Ok((x, p7))
}

/// Parses one persisted catalog document. For every catalog value, reading
/// back exactly what [`save_config_text`] wrote yields an equal catalog:
/// the save/load round trip preserves every field. A document that is not a
/// saved catalog is refused — never silently replaced by a default.
pub fn load_config_text(s: &str) -> (r: Result<Config, AppError>)
    ensures
        forall|c: ConfigView| s@ == enc_config(c) ==> (r matches Ok(conf) && conf@ == c),
{
    let n = s.unicode_len();
    match parse_config(s, 0) {
        Ok((conf, end)) => {
            if end == n {
                proof {
                    assert forall|c: ConfigView| s@ == enc_config(c) implies conf@ == c by {
                        assert(s@.subrange(0, enc_config(c).len() as int) =~= enc_config(c));
                        assert(str_at(s@, 0, enc_config(c)));
                    }
                }
                Ok(conf)
            } else {
                proof {
                    assert forall|c: ConfigView| s@ != enc_config(c) by {
                        if s@ == enc_config(c) {
                            assert(s@.subrange(0, enc_config(c).len() as int) =~= enc_config(c));
                            assert(str_at(s@, 0, enc_config(c)));
                        }
                    }
                }
                Err(parse_error())
            }
        },
        Err(e) => {
            proof {
                assert forall|c: ConfigView| s@ != enc_config(c) by {
                    if s@ == enc_config(c) {
                        assert(s@.subrange(0, enc_config(c).len() as int) =~= enc_config(c));
                        assert(str_at(s@, 0, enc_config(c)));
                    }
                }
            }
            Err(e)
        },
    }
}

} // verus!
