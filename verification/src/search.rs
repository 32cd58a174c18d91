//! Case-insensitive search and suggestions over the cached assets.

use vstd::prelude::*;
use crate::audio::entry_views;
use crate::audio::AudioView;
use crate::audio::LocalAudio;
use crate::audio::LocalAudioView;
use crate::text::contains_seq;
use crate::text::is_prefix_of;
use crate::text::str_contains;
use crate::text::str_eq;
use crate::text::str_starts_with;

verus! {

use vstd::string::StringExecFns;

/// The lowercase folding of a character sequence. Its value is pinned only
/// by the outside folding; contracts speak of it by name.
pub uninterp spec fn lower_of(s: Seq<char>) -> Seq<char>;

/// Relies on str::to_lowercase: the folding depends on the characters
/// alone, and an empty string stays empty.
#[verifier::external_body]
pub(crate) fn to_lowercase(s: &str) -> (r: String)
    ensures
        r@ == lower_of(s@),
        s@.len() == 0 ==> r@.len() == 0,
{
    s.to_lowercase()
}

/// A filter over the catalog's assets; a field left `None` does not
/// constrain the results.
#[derive(Debug, Clone)]
pub struct SearchQuery {
    /// Matches anywhere in the title, an author or a tag, case-folded.
    pub keyword: Option<String>,
    /// Matches anywhere in an author, case-folded.
    pub artist: Option<String>,
    /// Matches anywhere in the title, case-folded.
    pub title: Option<String>,
    /// Matches an asset that carries any of these tags, case-folded.
    pub tags: Option<Vec<String>>,
    /// Matches the asset's platform tag exactly.
    pub platform: Option<String>,
    /// The least duration admitted; assets without one are excluded.
    pub min_duration: Option<u64>,
    /// The greatest duration admitted; assets without one are excluded.
    pub max_duration: Option<u64>,
}

/// The mathematical value of a [`SearchQuery`].
pub struct SearchQueryView {
    pub keyword: Option<Seq<char>>,
    pub artist: Option<Seq<char>>,
    pub title: Option<Seq<char>>,
    pub tags: Option<Seq<Seq<char>>>,
    pub platform: Option<Seq<char>>,
    pub min_duration: Option<u64>,
    pub max_duration: Option<u64>,
}

impl View for SearchQuery {
    type V = SearchQueryView;

    open spec fn view(&self) -> SearchQueryView {
        SearchQueryView {
            keyword: self.keyword.deep_view(),
            artist: self.artist.deep_view(),
            title: self.title.deep_view(),
            tags: self.tags.deep_view(),
            platform: self.platform.deep_view(),
            min_duration: self.min_duration,
            max_duration: self.max_duration,
        }
    }
}

/// Whether the case-folded keyword occurs in the asset's title, any of its
/// authors, or any of its tags.
pub open spec fn keyword_hits(a: AudioView, kw: Seq<char>) -> bool {
    ||| contains_seq(lower_of(a.title), lower_of(kw))
    ||| exists|i: int|
        0 <= i < a.author.len() && contains_seq(lower_of(#[trigger] a.author[i]), lower_of(kw))
    ||| exists|i: int|
        0 <= i < a.tags.len() && contains_seq(lower_of(#[trigger] a.tags[i]), lower_of(kw))
}

/// Whether the asset carries a tag that case-folds to one of the queried
/// tags.
pub open spec fn any_tag_hits(a: AudioView, tags: Seq<Seq<char>>) -> bool {
    exists|i: int, j: int|
        0 <= i < a.tags.len() && 0 <= j < tags.len() && lower_of(#[trigger] a.tags[i]) == lower_of(
            #[trigger] tags[j],
        )
}

/// Whether one asset passes every constraint of the query.
pub open spec fn query_matches(a: AudioView, q: SearchQueryView) -> bool {
    &&& match q.keyword {
        Some(kw) => keyword_hits(a, kw),
        None => true,
    }
    &&& match q.artist {
        Some(artist) => exists|i: int|
            0 <= i < a.author.len() && contains_seq(
                lower_of(#[trigger] a.author[i]),
                lower_of(artist),
            ),
        None => true,
    }
    &&& match q.title {
        Some(title) => contains_seq(lower_of(a.title), lower_of(title)),
        None => true,
    }
    &&& match q.tags {
        Some(tags) => any_tag_hits(a, tags),
        None => true,
    }
    &&& match q.platform {
        Some(p) => a.platform == p,
        None => true,
    }
    &&& match q.min_duration {
        Some(m) => a.duration matches Some(d) && d >= m,
        None => true,
    }
    &&& match q.max_duration {
        Some(m) => a.duration matches Some(d) && d <= m,
        None => true,
    }
}

/// The predicate an entry's view meets when its asset passes the query.
pub open spec fn matches_view(q: SearchQueryView) -> spec_fn(LocalAudioView) -> bool {
    |a: LocalAudioView| query_matches(a.audio, q)
}

/// What one search returns: the matching entries in catalog order.
#[derive(Debug)]
pub struct SearchResult {
    pub audios: Vec<LocalAudio>,
    pub total_count: usize,
}

/// Deterministic filtering and suggestion lookup over the catalog.
pub struct SearchService;

impl SearchService {
    /// Every entry whose asset passes the query, in catalog order, with the
    /// count of matches.
    pub fn search(&self, audios: &Vec<LocalAudio>, query: &SearchQuery) -> (r: SearchResult)
        ensures
            entry_views(r.audios@) == entry_views(audios@).filter(matches_view(query@)),
            r.total_count == r.audios@.len(),
    {
        let ghost pred = matches_view(query@);
        let ghost all = entry_views(audios@);
        let n = audios.len();
        let mut found: Vec<LocalAudio> = Vec::new();
        let mut i: usize = 0;
        proof {
            assert(all.take(0).filter(pred) =~= Seq::<LocalAudioView>::empty()) by {
                reveal(Seq::filter);
            }
            assert(entry_views(found@) =~= all.take(0).filter(pred));
        }
        while i < n
            invariant
                0 <= i <= n,
                n == audios@.len(),
                all == entry_views(audios@),
                all.len() == n,
                forall|k: int| 0 <= k < n ==> all[k] == audios@[k]@,
                pred == matches_view(query@),
                entry_views(found@) == all.take(i as int).filter(pred),
            decreases n - i,
        {
            proof {
                assert(all.take(i + 1).drop_last() =~= all.take(i as int));
                assert(all.take(i + 1).last() == all[i as int]);
                assert(all.take(i + 1).filter(pred) == if pred(all[i as int]) {
                    all.take(i as int).filter(pred).push(all[i as int])
                } else {
                    all.take(i as int).filter(pred)
                }) by {
                    reveal(Seq::filter);
                }
            }
            if Self::matches(&audios[i], query) {
                let copy = audios[i].duplicate();
                found.push(copy);
                proof {
                    assert(entry_views(found@) =~= all.take(i + 1).filter(pred));
                }
            }
            i = i + 1;
        }
        proof {
            assert(all.take(n as int) =~= all);
        }
        let total_count = found.len();
        SearchResult { audios: found, total_count }
    }

    /// Whether one entry's asset passes every constraint of the query.
    pub fn matches(audio: &LocalAudio, query: &SearchQuery) -> (r: bool)
        ensures
            r == query_matches(audio.audio@, query@),
    {
        let a = &audio.audio;
        proof {
            assert(audio.audio@.author.len() == a.author@.len());
            assert(forall|i: int|
                0 <= i < a.author@.len() ==> audio.audio@.author[i] == #[trigger] a.author@[i]@);
            assert(audio.audio@.tags.len() == a.tags@.len());
            assert(forall|i: int|
                0 <= i < a.tags@.len() ==> audio.audio@.tags[i] == #[trigger] a.tags@[i]@);
        }
        match &query.keyword {
            Some(kw) => {
                let kw_lower = to_lowercase(kw.as_str());
                let title_lower = to_lowercase(a.title.as_str());
                let mut hit = str_contains(title_lower.as_str(), kw_lower.as_str());
                if !hit {
                    hit = any_contains(&a.author, kw_lower.as_str());
                }
                if !hit {
                    hit = any_contains(&a.tags, kw_lower.as_str());
                }
                if !hit {
                    proof {
                        assert(!keyword_hits(a@, kw@));
                    }
                    return false;
                }
            },
            None => {},
        }
        match &query.artist {
            Some(artist) => {
                let artist_lower = to_lowercase(artist.as_str());
                if !any_contains(&a.author, artist_lower.as_str()) {
                    return false;
                }
            },
            None => {},
        }
        match &query.title {
            Some(title) => {
                let title_lower = to_lowercase(a.title.as_str());
                let wanted = to_lowercase(title.as_str());
                if !str_contains(title_lower.as_str(), wanted.as_str()) {
                    return false;
                }
            },
            None => {},
        }
        match &query.tags {
            Some(tags) => {
                proof {
                    assert(forall|j: int|
                        0 <= j < tags@.len() ==> (query@.tags matches Some(qt) && qt[j]
                            == #[trigger] tags@[j]@));
                }
                if !any_tag_matches(&a.tags, tags) {
                    return false;
                }
            },
            None => {},
        }
        match &query.platform {
            Some(p) => {
                if !str_eq(a.platform.as_str(), p.as_str()) {
                    return false;
                }
            },
            None => {},
        }
        match query.min_duration {
            Some(m) => match a.duration {
                Some(d) => if d < m {
                    return false;
                },
                None => {
                    return false;
                },
            },
            None => {},
        }
        match query.max_duration {
            Some(m) => match a.duration {
                Some(d) => if d > m {
                    return false;
                },
                None => {
                    return false;
                },
            },
            None => {},
        }
        true
    }
}

/// Strict lexicographic order on character sequences, by character value.
pub open spec fn str_lt(a: Seq<char>, b: Seq<char>) -> bool
    decreases a.len(),
{
    if b.len() == 0 {
        false
    } else if a.len() == 0 {
        true
    } else {
        a.first() < b.first() || (a.first() == b.first() && str_lt(
            a.drop_first(),
            b.drop_first(),
        ))
    }
}

/// Lexicographic order, equality admitted.
pub open spec fn str_le(a: Seq<char>, b: Seq<char>) -> bool {
    str_lt(a, b) || a == b
}

/// The lexicographic order is transitive.
pub proof fn lemma_str_lt_trans(a: Seq<char>, b: Seq<char>, c: Seq<char>)
    requires
        str_lt(a, b),
        str_lt(b, c),
    ensures
        str_lt(a, c),
    decreases a.len(),
{
    if a.len() > 0 && b.len() > 0 && c.len() > 0 {
        if a.first() == b.first() && b.first() == c.first() {
            lemma_str_lt_trans(a.drop_first(), b.drop_first(), c.drop_first());
        }
    }
}

/// The views of a list of texts.
pub open spec fn string_views(v: Seq<String>) -> Seq<Seq<char>> {
    v.map_values(|s: String| s@)
}

/// Relies on slice::sort: a stable sort by `String`'s ordering, which
/// compares UTF-8 bytes and therefore orders exactly by character value.
/// The result holds the same texts, in lexicographic order.
#[verifier::external_body]
fn sort_strings(v: &mut Vec<String>)
    ensures
        string_views(final(v)@).to_multiset() == string_views(old(v)@).to_multiset(),
        final(v)@.len() == old(v)@.len(),
        forall|p: int, q: int|
            0 <= p < q < final(v)@.len() ==> str_le(
                #[trigger] final(v)@[p]@,
                #[trigger] final(v)@[q]@,
            ),
{
    v.sort();
}

/// Whether `s` is one of the suggestions one asset offers for the
/// case-folded keyword: its title, one of its authors, or one of its tags
/// prefixed with `#`, whenever the case-folded text starts with the folded
/// keyword.
pub open spec fn suggestion_of_audio(a: AudioView, kw: Seq<char>, s: Seq<char>) -> bool {
    ||| (s == a.title && is_prefix_of(lower_of(kw), lower_of(a.title)))
    ||| exists|k: int|
        0 <= k < a.author.len() && s == #[trigger] a.author[k] && is_prefix_of(
            lower_of(kw),
            lower_of(a.author[k]),
        )
    ||| exists|k: int|
        0 <= k < a.tags.len() && s == "#"@ + #[trigger] a.tags[k] && is_prefix_of(
            lower_of(kw),
            lower_of(a.tags[k]),
        )
}

/// Whether `s` is a suggestion any of the assets offers.
pub open spec fn is_suggestion(audios: Seq<LocalAudioView>, kw: Seq<char>, s: Seq<char>) -> bool {
    exists|j: int| 0 <= j < audios.len() && suggestion_of_audio(#[trigger] audios[j].audio, kw, s)
}

/// Whether any text of `v` has the value `s`.
pub open spec fn has_view(v: Seq<String>, s: Seq<char>) -> bool {
    exists|p: int| 0 <= p < v.len() && (#[trigger] v[p])@ == s
}

/// Two lists of texts whose contents agree as multisets hold the same
/// values.
proof fn lemma_view_multiset_membership(v1: Seq<String>, v2: Seq<String>, s: Seq<char>)
    requires
        string_views(v1).to_multiset() == string_views(v2).to_multiset(),
    ensures
        has_view(v1, s) == has_view(v2, s),
{
    broadcast use vstd::seq_lib::group_to_multiset_ensures;

    assert(has_view(v1, s) ==> has_view(v2, s)) by {
        if has_view(v1, s) {
            let p = choose|p: int| 0 <= p < v1.len() && (#[trigger] v1[p])@ == s;
            assert(string_views(v1)[p] == s);
            assert(string_views(v1).contains(s));
            assert(string_views(v1).to_multiset().count(s) > 0);
            assert(string_views(v2).to_multiset().count(s) > 0);
            assert(string_views(v2).contains(s));
            let q = choose|q: int| 0 <= q < string_views(v2).len() && string_views(v2)[q] == s;
            assert(v2[q]@ == s);
        }
    }
    assert(has_view(v2, s) ==> has_view(v1, s)) by {
        if has_view(v2, s) {
            let p = choose|p: int| 0 <= p < v2.len() && (#[trigger] v2[p])@ == s;
            assert(string_views(v2)[p] == s);
            assert(string_views(v2).contains(s));
            assert(string_views(v2).to_multiset().count(s) > 0);
            assert(string_views(v1).to_multiset().count(s) > 0);
            assert(string_views(v1).contains(s));
            let q = choose|q: int| 0 <= q < string_views(v1).len() && string_views(v1)[q] == s;
            assert(v1[q]@ == s);
        }
    }
}

/// Appending a text keeps every value already present, and adds the new one.
proof fn lemma_push_keeps_views(v0: Seq<String>, v1: Seq<String>, x: String)
    requires
        v1 == v0.push(x),
    ensures
        forall|s: Seq<char>| #[trigger] has_view(v0, s) ==> has_view(v1, s),
        has_view(v1, x@),
        v1.len() == v0.len() + 1,
        forall|p: int| 0 <= p < v0.len() ==> #[trigger] v1[p] == v0[p],
        v1[v0.len() as int] == x,
{
    assert forall|s: Seq<char>| #[trigger] has_view(v0, s) implies has_view(v1, s) by {
        let p = choose|p: int| 0 <= p < v0.len() && (#[trigger] v0[p])@ == s;
        assert(v1[p] == v0[p]);
    }
    assert(v1[v0.len() as int] == x);
}

impl SearchService {
    /// The distinct suggestions the catalog offers for a keyword — titles,
    /// authors and `#`-prefixed tags whose case-folded text starts with the
    /// folded keyword — in lexicographic order, cut off after `limit`
    /// entries.
    pub fn suggest(&self, audios: &Vec<LocalAudio>, keyword: &str, limit: usize) -> (r: Vec<
        String,
    >)
        ensures
            r@.len() <= limit,
            forall|p: int, q: int|
                0 <= p < q < r@.len() ==> str_lt(#[trigger] r@[p]@, #[trigger] r@[q]@),
            forall|p: int|
                0 <= p < r@.len() ==> is_suggestion(
                    entry_views(audios@),
                    keyword@,
                    (#[trigger] r@[p])@,
                ),
            forall|s: Seq<char>|
                #[trigger] is_suggestion(entry_views(audios@), keyword@, s) ==> has_view(r@, s)
                    || (r@.len() == limit && (limit == 0 || str_lt(r@[limit - 1]@, s))),
    {
        let ghost evs = entry_views(audios@);
        let kw_lower = to_lowercase(keyword);
        let mut coll: Vec<String> = Vec::new();
        let n = audios.len();
        let mut i: usize = 0;
        while i < n
            invariant
                0 <= i <= n,
                n == audios@.len(),
                evs == entry_views(audios@),
                evs.len() == n,
                forall|k: int| 0 <= k < n ==> evs[k] == audios@[k]@,
                kw_lower@ == lower_of(keyword@),
                forall|p: int|
                    0 <= p < coll@.len() ==> is_suggestion(evs, keyword@, (#[trigger] coll@[p])@),
                forall|s: Seq<char>, j: int|
                    0 <= j < i && #[trigger] suggestion_of_audio(evs[j].audio, keyword@, s)
                        ==> has_view(coll@, s),
            decreases n - i,
        {
            let a = &audios[i].audio;
            proof {
                assert(evs[i as int].audio == a@);
                assert(forall|k: int|
                    0 <= k < a.author@.len() ==> a@.author[k] == (#[trigger] a.author@[k])@);
                assert(forall|k: int|
                    0 <= k < a.tags@.len() ==> a@.tags[k] == (#[trigger] a.tags@[k])@);
            }
            let title_lower = to_lowercase(a.title.as_str());
            if str_starts_with(title_lower.as_str(), kw_lower.as_str()) {
                let ghost c0 = coll@;
                coll.push(a.title.clone());
                proof {
                    lemma_push_keeps_views(c0, coll@, coll@.last());
                    assert(coll@.last()@ == a@.title);
                    assert(suggestion_of_audio(evs[i as int].audio, keyword@, a.title@));
                }
            }
            let na = a.author.len();
            let mut k: usize = 0;
            while k < na
                invariant
                    0 <= k <= na,
                    0 <= i < n,
                    n == audios@.len(),
                    evs == entry_views(audios@),
                    evs.len() == n,
                    forall|k2: int| 0 <= k2 < n ==> evs[k2] == audios@[k2]@,
                    evs[i as int].audio == a@,
                    na == a.author@.len(),
                    is_prefix_of(lower_of(keyword@), lower_of(a@.title)) ==> has_view(
                        coll@,
                        a@.title,
                    ),
                    forall|k2: int|
                        0 <= k2 < a.author@.len() ==> a@.author[k2] == (#[trigger] a.author@[k2])@,
                    kw_lower@ == lower_of(keyword@),
                    forall|p: int|
                        0 <= p < coll@.len() ==> is_suggestion(
                            evs,
                            keyword@,
                            (#[trigger] coll@[p])@,
                        ),
                    forall|s: Seq<char>, j: int|
                        0 <= j < i && #[trigger] suggestion_of_audio(evs[j].audio, keyword@, s)
                            ==> has_view(coll@, s),
                    forall|k2: int|
                        0 <= k2 < k && is_prefix_of(
                            lower_of(keyword@),
                            lower_of(#[trigger] a@.author[k2]),
                        ) ==> has_view(coll@, a@.author[k2]),
                decreases na - k,
            {
                let author_lower = to_lowercase(a.author[k].as_str());
                if str_starts_with(author_lower.as_str(), kw_lower.as_str()) {
                    let ghost c0 = coll@;
                    coll.push(a.author[k].clone());
                    proof {
                        lemma_push_keeps_views(c0, coll@, coll@.last());
                        assert(coll@.last()@ == a@.author[k as int]);
                        assert(suggestion_of_audio(
                            evs[i as int].audio,
                            keyword@,
                            a.author@[k as int]@,
                        ));
                    }
                }
                k = k + 1;
            }
            let nt = a.tags.len();
            let mut k: usize = 0;
            while k < nt
                invariant
                    0 <= k <= nt,
                    0 <= i < n,
                    n == audios@.len(),
                    evs == entry_views(audios@),
                    evs.len() == n,
                    forall|k2: int| 0 <= k2 < n ==> evs[k2] == audios@[k2]@,
                    evs[i as int].audio == a@,
                    nt == a.tags@.len(),
                    forall|k2: int|
                        0 <= k2 < a.tags@.len() ==> a@.tags[k2] == (#[trigger] a.tags@[k2])@,
                    kw_lower@ == lower_of(keyword@),
                    forall|p: int|
                        0 <= p < coll@.len() ==> is_suggestion(
                            evs,
                            keyword@,
                            (#[trigger] coll@[p])@,
                        ),
                    forall|s: Seq<char>, j: int|
                        0 <= j < i && #[trigger] suggestion_of_audio(evs[j].audio, keyword@, s)
                            ==> has_view(coll@, s),
                    forall|k2: int|
                        0 <= k2 < na && is_prefix_of(
                            lower_of(keyword@),
                            lower_of(#[trigger] a@.author[k2]),
                        ) ==> has_view(coll@, a@.author[k2]),
                    na == a.author@.len(),
                    is_prefix_of(lower_of(keyword@), lower_of(a@.title)) ==> has_view(
                        coll@,
                        a@.title,
                    ),
                    forall|k2: int|
                        0 <= k2 < k && is_prefix_of(
                            lower_of(keyword@),
                            lower_of(#[trigger] a@.tags[k2]),
                        ) ==> has_view(coll@, "#"@ + a@.tags[k2]),
                decreases nt - k,
            {
                let tag_lower = to_lowercase(a.tags[k].as_str());
                if str_starts_with(tag_lower.as_str(), kw_lower.as_str()) {
                    let ghost c0 = coll@;
                    coll.push(String::from_str("#").concat(a.tags[k].as_str()));
                    proof {
                        lemma_push_keeps_views(c0, coll@, coll@.last());
                        assert(coll@.last()@ == "#"@ + a@.tags[k as int]);
                        assert(suggestion_of_audio(
                            evs[i as int].audio,
                            keyword@,
                            "#"@ + a.tags@[k as int]@,
                        ));
                    }
                }
                k = k + 1;
            }
            proof {
                assert forall|s: Seq<char>, j: int|
                    0 <= j < i + 1 && #[trigger] suggestion_of_audio(
                        evs[j].audio,
                        keyword@,
                        s,
                    ) implies has_view(coll@, s) by {
                    if j == i {
                        assert(evs[j].audio == a@);
                    }
                }
            }
            i = i + 1;
        }
        let ghost collected = coll@;
        sort_strings(&mut coll);
        let ghost sorted = coll@;
        let m = coll.len();
        let mut out: Vec<String> = Vec::new();
        let mut i: usize = 0;
        while i < m
            invariant
                0 <= i <= m,
                m == coll@.len(),
                coll@ == sorted,
                forall|p: int, q: int|
                    0 <= p < q < sorted.len() ==> str_le(
                        (#[trigger] sorted[p])@,
                        (#[trigger] sorted[q])@,
                    ),
                forall|p: int, q: int|
                    0 <= p < q < out@.len() ==> str_lt(
                        (#[trigger] out@[p])@,
                        (#[trigger] out@[q])@,
                    ),
                forall|p: int| 0 <= p < out@.len() ==> has_view(sorted, (#[trigger] out@[p])@),
                forall|q: int| 0 <= q < i ==> has_view(out@, (#[trigger] sorted[q])@),
                i > 0 ==> out@.len() > 0 && out@.last()@ == sorted[i - 1]@,
                i == 0 ==> out@.len() == 0,
            decreases m - i,
        {
            let cur = &coll[i];
            if out.len() == 0 {
                let ghost o0 = out@;
                out.push(cur.clone());
                proof {
                    lemma_push_keeps_views(o0, out@, out@.last());
                }
            } else {
                let last_idx = out.len() - 1;
                if !str_eq(out[last_idx].as_str(), cur.as_str()) {
                    proof {
                        assert(str_le(sorted[i - 1]@, sorted[i as int]@));
                        assert(str_lt(out@.last()@, cur@));
                        assert forall|p: int| 0 <= p < out@.len() implies str_lt(
                            (#[trigger] out@[p])@,
                            cur@,
                        ) by {
                            if p < out@.len() - 1 {
                                lemma_str_lt_trans(out@[p]@, out@.last()@, cur@);
                            }
                        }
                    }
                    let ghost o0 = out@;
                    out.push(cur.clone());
                    proof {
                        lemma_push_keeps_views(o0, out@, out@.last());
                    }
                }
            }
            i = i + 1;
        }
        let ghost full = out@;
        out.truncate(limit);
        proof {
            if limit <= full.len() {
                assert(out@ == full.subrange(0, limit as int));
            }
            assert forall|s: Seq<char>|
                #[trigger] is_suggestion(entry_views(audios@), keyword@, s) implies has_view(
                out@,
                s,
            ) || (out@.len() == limit && (limit == 0 || str_lt(out@[limit - 1]@, s))) by {
                let j = choose|j: int|
                    0 <= j < evs.len() && suggestion_of_audio(#[trigger] evs[j].audio, keyword@, s);
                assert(has_view(collected, s));
                lemma_view_multiset_membership(collected, sorted, s);
                let q = choose|q: int| 0 <= q < sorted.len() && (#[trigger] sorted[q])@ == s;
                assert(has_view(full, sorted[q]@));
                let p = choose|p: int| 0 <= p < full.len() && (#[trigger] full[p])@ == s;
                if p < limit {
                    assert(out@[p]@ == s);
                } else if limit > 0 {
                    assert(str_lt(full[limit - 1]@, full[p]@));
                    assert(out@[limit - 1] == full[limit - 1]);
                }
            }
            assert forall|p: int| 0 <= p < out@.len() implies is_suggestion(
                entry_views(audios@),
                keyword@,
                (#[trigger] out@[p])@,
            ) by {
                assert(out@[p] == full[p]);
                assert(has_view(sorted, full[p]@));
                lemma_view_multiset_membership(sorted, collected, full[p]@);
                let q2 = choose|q2: int|
                    0 <= q2 < collected.len() && (#[trigger] collected[q2])@ == full[p]@;
                assert(is_suggestion(evs, keyword@, collected[q2]@));
            }
        }
        out
    }
}

/// Whether any of the texts, case-folded, contains the already-folded
/// `needle_lower`.
fn any_contains(texts: &Vec<String>, needle_lower: &str) -> (r: bool)
    ensures
        r == exists|i: int|
            0 <= i < texts@.len() && contains_seq(lower_of(#[trigger] texts@[i]@), needle_lower@),
{
    let n = texts.len();
    let mut i: usize = 0;
    while i < n
        invariant
            0 <= i <= n,
            n == texts@.len(),
            forall|k: int|
                0 <= k < i ==> !contains_seq(lower_of(#[trigger] texts@[k]@), needle_lower@),
        decreases n - i,
    {
        let folded = to_lowercase(texts[i].as_str());
        if str_contains(folded.as_str(), needle_lower) {
            return true;
        }
        i = i + 1;
    }
    false
}

/// Whether any of the asset's tags case-folds to the folding of any queried
/// tag.
fn any_tag_matches(audio_tags: &Vec<String>, query_tags: &Vec<String>) -> (r: bool)
    ensures
        r == exists|i: int, j: int|
            0 <= i < audio_tags@.len() && 0 <= j < query_tags@.len() && lower_of(
                #[trigger] audio_tags@[i]@,
            ) == lower_of(#[trigger] query_tags@[j]@),
{
    let n = audio_tags.len();
    let m = query_tags.len();
    let mut i: usize = 0;
    while i < n
        invariant
            0 <= i <= n,
            n == audio_tags@.len(),
            m == query_tags@.len(),
            forall|k: int, j: int|
                0 <= k < i && 0 <= j < m ==> lower_of(#[trigger] audio_tags@[k]@) != lower_of(
                    #[trigger] query_tags@[j]@,
                ),
        decreases n - i,
    {
        let folded = to_lowercase(audio_tags[i].as_str());
        let mut j: usize = 0;
        while j < m
            invariant
                0 <= j <= m,
                0 <= i < n,
                n == audio_tags@.len(),
                m == query_tags@.len(),
                folded@ == lower_of(audio_tags@[i as int]@),
                forall|q: int|
                    0 <= q < j ==> lower_of(audio_tags@[i as int]@) != lower_of(
                        #[trigger] query_tags@[q]@,
                    ),
            decreases m - j,
        {
            let wanted = to_lowercase(query_tags[j].as_str());
            if str_eq(folded.as_str(), wanted.as_str()) {
                return true;
            }
            j = j + 1;
        }
        i = i + 1;
    }
    false
}

} // verus!
