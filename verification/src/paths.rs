//! Deterministic on-disk addressing for cached assets, and the guard that
//! keeps every requested read inside the owned asset root.

use vstd::prelude::*;
use crate::audio::AudioFormat;
use crate::error::AppError;

verus! {

use vstd::string::StrSliceExecFns;
use vstd::string::StringExecFns;

/// The lowercase hexadecimal rendering of the MD5 digest of a string's bytes.
/// Its value is pinned only by the outside hash; the contracts below carry
/// what callers need: a function of the input alone, 32 hex digits long.
pub uninterp spec fn md5_hex_of(s: Seq<char>) -> Seq<char>;

/// One character of a lowercase hexadecimal rendering.
pub open spec fn is_hex_lower(c: char) -> bool {
    ('0' <= c && c <= '9') || ('a' <= c && c <= 'f')
}

/// Relies on md5::compute and the md5 crate's LowerHex rendering: the digest
/// is a function of the input bytes alone, written as two lowercase hex
/// digits for each of its 16 bytes.
#[verifier::external_body]
pub(crate) fn md5_hex(s: &str) -> (r: String)
    ensures
        r@ == md5_hex_of(s@),
        r@.len() == 32,
        forall|i: int| 0 <= i < r@.len() ==> is_hex_lower(#[trigger] r@[i]),
{
    format!("{:x}", md5::compute(s.as_bytes()))
}

/// The relative path under which one asset's audio bytes live:
/// `assets/<platform>/audios/<key><extension>`, where the key is the MD5 of
/// the download URL and the extension comes from the declared format,
/// defaulting to MP3.
pub open spec fn audio_path_chars(
    platform: Seq<char>,
    download_url: Seq<char>,
    format: Option<AudioFormat>,
) -> Seq<char> {
    "assets/"@ + platform + "/audios/"@ + md5_hex_of(download_url) + format_or_default(
        format,
    ).extension_chars()
}

/// The declared format of an asset, or MP3 where none is declared.
pub open spec fn format_or_default(format: Option<AudioFormat>) -> AudioFormat {
    match format {
        Some(f) => f,
        None => AudioFormat::Mp3,
    }
}

/// Computes the deterministic audio path of an asset. Re-deriving it for the
/// same platform, URL and format always yields the same value.
pub fn resolve_audio_path(platform: &str, download_url: &str, format: &Option<AudioFormat>) -> (r:
    String)
    ensures
        r@ == audio_path_chars(platform@, download_url@, *format),
{
    let key = md5_hex(download_url);
    let ext = match format {
        Some(f) => f.extension(),
        None => AudioFormat::Mp3.extension(),
    };
    String::from_str("assets/").concat(platform).concat("/audios/").concat(key.as_str()).concat(
        ext,
    )
}

/// The basename of a URL: everything after its last `/`, or the whole URL
/// where it has none.
pub open spec fn basename_of(url: Seq<char>) -> Seq<char> {
    url.subrange(basename_start(url), url.len() as int)
}

/// The index right after the last `/` of `url`, or 0 where it has none.
pub open spec fn basename_start(url: Seq<char>) -> int
    decreases url.len(),
{
    if url.len() == 0 {
        0
    } else if url[url.len() - 1] == '/' {
        url.len() as int
    } else {
        basename_start(url.drop_last())
    }
}

proof fn lemma_basename_start_bounds(url: Seq<char>)
    ensures
        0 <= basename_start(url) <= url.len(),
        forall|j: int| basename_start(url) <= j < url.len() ==> url[j] != '/',
        basename_start(url) > 0 ==> url[basename_start(url) - 1] == '/',
    decreases url.len(),
{
    if url.len() > 0 && url[url.len() - 1] != '/' {
        lemma_basename_start_bounds(url.drop_last());
        assert forall|j: int| basename_start(url) <= j < url.len() implies url[j] != '/' by {
            if j < url.len() - 1 {
                assert(url.drop_last()[j] == url[j]);
            }
        }
    }
}

/// The relative path under which one cover lives:
/// `assets/<platform>/covers/<basename-of-source-url>`.
pub open spec fn cover_path_chars(platform: Seq<char>, cover_url: Seq<char>) -> Seq<char> {
    "assets/"@ + platform + "/covers/"@ + basename_of(cover_url)
}

/// Computes the deterministic cover path of a cover URL, or reports
/// `InvalidUrl` where the URL has no extractable basename segment.
pub fn resolve_cover_path(platform: &str, cover_url: &str) -> (r: Result<String, AppError>)
    ensures
        basename_of(cover_url@).len() > 0 ==> (r matches Ok(p) && p@ == cover_path_chars(
            platform@,
            cover_url@,
        )),
        basename_of(cover_url@).len() == 0 ==> (r matches Err(e) && e is InvalidUrl),
{
    let n = cover_url.unicode_len();
    proof {
        lemma_basename_start_bounds(cover_url@);
    }
    if n == 0 || cover_url.get_char(n - 1) == '/' {
        return Err(
            AppError::InvalidUrl(
                String::from_str("Could not extract filename from cover URL"),
            ),
        );
    }
    // Walk back to the character right after the last `/`.
    let mut start: usize = n;
    while start > 0 && cover_url.get_char(start - 1) != '/'
        invariant
            0 <= start <= n,
            n == cover_url@.len(),
            forall|j: int| start <= j < n ==> cover_url@[j] != '/',
        decreases start,
    {
        start = start - 1;
    }
    proof {
        assert(basename_start(cover_url@) == start) by {
            lemma_basename_start_bounds(cover_url@);
            if basename_start(cover_url@) < start {
                assert(cover_url@[start - 1] == '/');
            }
            if start < basename_start(cover_url@) {
                assert(cover_url@[basename_start(cover_url@) - 1] == '/');
            }
        }
    }
    let base = cover_url.substring_char(start, n);
    Ok(String::from_str("assets/").concat(platform).concat("/covers/").concat(base))
}

/// Whether two dots starting at index `i` form a whole `/`-separated segment.
pub open spec fn is_dotdot_segment_at(s: Seq<char>, i: int) -> bool {
    &&& 0 <= i
    &&& i + 2 <= s.len()
    &&& s[i] == '.'
    &&& s[i + 1] == '.'
    &&& (i == 0 || s[i - 1] == '/')
    &&& (i + 2 == s.len() || s[i + 2] == '/')
}

/// A relative read request is refused when it is absolute or when any of its
/// segments is `..`: only such paths could resolve outside the asset root.
pub open spec fn path_escapes(rel: Seq<char>) -> bool {
    ||| rel.len() > 0 && rel[0] == '/'
    ||| exists|i: int| is_dotdot_segment_at(rel, i)
}

/// Resolves a caller-supplied relative path against the owned root, refusing
/// with `InvalidPath` — before any filesystem access — every path that could
/// escape the root.
pub fn resolve_read_path(app_dir: &str, rel: &str) -> (r: Result<String, AppError>)
    ensures
        !path_escapes(rel@) ==> (r matches Ok(full) && full@ == app_dir@ + "/"@ + rel@),
        path_escapes(rel@) ==> (r matches Err(e) && e is InvalidPath),
{
    let n = rel.unicode_len();
    if n > 0 && rel.get_char(0) == '/' {
        return Err(AppError::InvalidPath(String::from_str("Path traversal detected")));
    }
    let mut i: usize = 0;
    while i < n
        invariant
            0 <= i <= n,
            n == rel@.len(),
            forall|j: int| 0 <= j < i ==> !is_dotdot_segment_at(rel@, j),
        decreases n - i,
    {
        if n - i >= 2 && rel.get_char(i) == '.' && rel.get_char(i + 1) == '.' && (i == 0
            || rel.get_char(i - 1) == '/') && (n - i == 2 || rel.get_char(i + 2) == '/') {
            proof {
                assert(is_dotdot_segment_at(rel@, i as int));
            }
            return Err(AppError::InvalidPath(String::from_str("Path traversal detected")));
        }
        proof {
            assert(!is_dotdot_segment_at(rel@, i as int));
        }
        i = i + 1;
    }
    proof {
        assert forall|j: int| !is_dotdot_segment_at(rel@, j) by {
            if 0 <= j < n {
                assert(!is_dotdot_segment_at(rel@, j));
            }
        }
    }
    Ok(String::from_str(app_dir).concat("/").concat(rel))
}

/// The location of the persisted catalog document under the owned root.
pub fn get_config_path(app_dir: &str) -> (r: String)
    ensures
        r@ == app_dir@ + "/musicfree.json"@,
{
    String::from_str(app_dir).concat("/musicfree.json")
}

} // verus!
