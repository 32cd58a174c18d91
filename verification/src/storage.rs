//! Usage accounting and space-bounded eviction over the owned asset root.
//!
//! The filesystem itself is outside this crate: the caller lists file sizes
//! and hands them in as plain values, and deletes the files this module
//! plans for eviction.

use vstd::prelude::*;
use crate::paths::get_config_path;

verus! {

/// The two storage components, addressed by directory.
pub struct Storage {
    /// The owned application root directory.
    pub app_dir: String,
    /// The persisted catalog document inside it.
    pub config_file: String,
}

/// Derived accounting of the bytes under the asset root.
#[derive(Debug, Clone)]
pub struct StorageUsage {
    pub total_bytes: u64,
    pub audio_bytes: u64,
    pub cover_bytes: u64,
    pub audio_count: usize,
}

/// What one eviction pass deleted: counts and bytes even when zero, so a
/// caller can tell "nothing to do" from failure.
#[derive(Debug, Clone)]
pub struct CleanupResult {
    pub deleted_files: usize,
    pub freed_bytes: u64,
    /// The evicted asset identifiers, in victim order; the caller removes
    /// them from the catalog and persists it.
    pub deleted_audios: Vec<String>,
}

/// One catalog entry as the eviction planner sees it: its identifier, when
/// it was last played, and the measured on-disk sizes of its files — `None`
/// where the file is already missing (treated as already reclaimed).
#[derive(Debug, Clone)]
pub struct EvictCandidate {
    pub audio_id: String,
    pub last_played: Option<u64>,
    pub audio_size: Option<u64>,
    pub cover_size: Option<u64>,
}

/// The mathematical value of an [`EvictCandidate`].
pub struct EvictCandidateView {
    pub audio_id: Seq<char>,
    pub last_played: Option<u64>,
    pub audio_size: Option<u64>,
    pub cover_size: Option<u64>,
}

impl View for EvictCandidate {
    type V = EvictCandidateView;

    open spec fn view(&self) -> EvictCandidateView {
        EvictCandidateView {
            audio_id: self.audio_id@,
            last_played: self.last_played,
            audio_size: self.audio_size,
            cover_size: self.cover_size,
        }
    }
}

/// Strict "played longer ago" order on last-played stamps: an entry that
/// was never played counts as older than every played one.
pub open spec fn played_before(x: Option<u64>, y: Option<u64>) -> bool {
    match (x, y) {
        (None, None) => false,
        (None, Some(_)) => true,
        (Some(_), None) => false,
        (Some(a), Some(b)) => a < b,
    }
}

/// The strict victim order between the entries at indices `a` and `b`:
/// least recently played first, ties resolved by catalog order.
pub open spec fn evicts_before(entries: Seq<EvictCandidate>, a: int, b: int) -> bool {
    ||| played_before(entries[a].last_played, entries[b].last_played)
    ||| (entries[a].last_played == entries[b].last_played && a < b)
}

/// `order` lists every index of `entries` exactly once, strictly sorted by
/// the victim order — never-played entries first, then ascending last-played
/// time, ties in catalog order.
pub open spec fn is_victim_order(entries: Seq<EvictCandidate>, order: Seq<usize>) -> bool {
    &&& order.len() == entries.len()
    &&& forall|p: int| 0 <= p < order.len() ==> (#[trigger] order[p]) < entries.len()
    &&& forall|p: int, q: int|
        0 <= p < q < order.len() ==> evicts_before(entries, #[trigger] order[p] as int, #[trigger] order[q] as int)
}

/// The entries in victim order, as mathematical values.
pub open spec fn ordered_views(entries: Seq<EvictCandidate>, order: Seq<usize>) -> Seq<
    EvictCandidateView,
> {
    order.map_values(|x: usize| entries[x as int]@)
}

/// A missing size contributes nothing.
pub open spec fn size_or_zero(s: Option<u64>) -> int {
    match s {
        Some(b) => b as int,
        None => 0,
    }
}

/// The bytes deleting one entry's files frees.
pub open spec fn freed_of(e: EvictCandidateView) -> int {
    size_or_zero(e.audio_size) + size_or_zero(e.cover_size)
}

/// How many files deleting one entry removes.
pub open spec fn files_of(e: EvictCandidateView) -> int {
    (if e.audio_size is Some {
        1int
    } else {
        0int
    }) + (if e.cover_size is Some {
        1int
    } else {
        0int
    })
}

/// The bytes freed by deleting every entry of `vs`.
pub open spec fn sum_freed(vs: Seq<EvictCandidateView>) -> int
    decreases vs.len(),
{
    if vs.len() == 0 {
        0
    } else {
        sum_freed(vs.drop_last()) + freed_of(vs.last())
    }
}

/// The files removed by deleting every entry of `vs`.
pub open spec fn sum_files(vs: Seq<EvictCandidateView>) -> int
    decreases vs.len(),
{
    if vs.len() == 0 {
        0
    } else {
        sum_files(vs.drop_last()) + files_of(vs.last())
    }
}

/// How many entries of the victim sequence `vs` an eviction pass walks:
/// zero once the remaining bytes fit the budget, and otherwise one more
/// than the walk of the rest with that entry's bytes reclaimed. The pass
/// stops at the first point where the budget is met, or exhausts the list.
pub open spec fn walk_count(vs: Seq<EvictCandidateView>, remaining: int, budget: int) -> int
    decreases vs.len(),
{
    if remaining <= budget || vs.len() == 0 {
        0
    } else {
        1 + walk_count(vs.drop_first(), remaining - freed_of(vs.first()), budget)
    }
}

/// An unbounded count clamped to what a `u64` can carry.
pub open spec fn clamp_u64(x: int) -> int {
    if x <= u64::MAX {
        x
    } else {
        u64::MAX as int
    }
}

/// An unbounded count clamped to what a `usize` can carry.
pub open spec fn clamp_usize(x: int) -> int {
    if x <= usize::MAX {
        x
    } else {
        usize::MAX as int
    }
}

/// The eviction budget in bytes of a budget in megabytes.
pub open spec fn budget_bytes_of(max_size_mb: u64) -> int {
    clamp_u64(max_size_mb * 0x100000)
}

/// What a finished eviction pass reports, given the victim order: the walk
/// stops as soon as the remaining bytes fit the budget, and the result
/// accounts exactly the walked entries' files, bytes and identifiers.
pub open spec fn cleanup_result_ok(
    entries: Seq<EvictCandidate>,
    order: Seq<usize>,
    total_bytes: u64,
    budget: int,
    r: CleanupResult,
) -> bool {
    let os = ordered_views(entries, order);
    let k = walk_count(os, total_bytes as int, budget);
    &&& r.freed_bytes == clamp_u64(sum_freed(os.take(k)))
    &&& r.deleted_files == clamp_usize(sum_files(os.take(k)))
    &&& r.deleted_audios.deep_view() == os.take(k).map_values(|e: EvictCandidateView| e.audio_id)
}

/// Computes the unique victim order of `entries`: ascending by last-played
/// stamp with never-played entries first, ties keeping catalog order.
pub fn victim_order(entries: &Vec<EvictCandidate>) -> (order: Vec<usize>)
    ensures
        is_victim_order(entries@, order@),
{
    let n = entries.len();
    let mut order: Vec<usize> = Vec::new();
    let mut idx: usize = 0;
    while idx < n
        invariant
            0 <= idx <= n,
            order@.len() == idx,
            forall|p: int| 0 <= p < idx ==> (#[trigger] order@[p]) == p,
        decreases n - idx,
    {
        order.push(idx);
        idx = idx + 1;
    }
    if n <= 1 {
        return order;
    }
    let mut i: usize = 1;
    while i < n
        invariant
            1 <= i <= n,
            n == entries@.len(),
            order@.len() == n,
            forall|p: int| 0 <= p < n ==> (#[trigger] order@[p]) < n,
            forall|p: int, q: int| 0 <= p < q < n ==> order@[p] != order@[q],
            forall|p: int, q: int|
                0 <= p < q < i ==> evicts_before(
                    entries@,
                    #[trigger] order@[p] as int,
                    #[trigger] order@[q] as int,
                ),
        decreases n - i,
    {
        let mut k = i;
        while k > 0 && candidate_lt(entries, order[k], order[k - 1])
            invariant
                0 <= k <= i < n,
                n == entries@.len(),
                order@.len() == n,
                forall|p: int| 0 <= p < n ==> (#[trigger] order@[p]) < n,
                forall|p: int, q: int| 0 <= p < q < n ==> order@[p] != order@[q],
                forall|p: int, q: int|
                    0 <= p < q <= i && q != k ==> evicts_before(
                        entries@,
                        #[trigger] order@[p] as int,
                        #[trigger] order@[q] as int,
                    ),
                forall|q: int|
                    k < q <= i ==> evicts_before(
                        entries@,
                        order@[k as int] as int,
                        #[trigger] order@[q] as int,
                    ),
            decreases k,
        {
            let a = order[k - 1];
            let b = order[k];
            order.set(k - 1, b);
            order.set(k, a);
            k = k - 1;
        }
        proof {
            // The prefix is sorted again: pairs around position k chain
            // through the element that settled there.
            assert forall|p: int, q: int|
                0 <= p < q <= i implies evicts_before(
                entries@,
                #[trigger] order@[p] as int,
                #[trigger] order@[q] as int,
            ) by {
                if q == k {
                    if k > 0 && p < k - 1 {
                        assert(evicts_before(entries@, order@[p] as int, order@[k - 1] as int));
                        assert(evicts_before(entries@, order@[k - 1] as int, order@[k as int] as int));
                    }
                }
            }
        }
        i = i + 1;
    }
    order
}

/// Whether the entry at index `a` is evicted before the one at index `b`.
fn candidate_lt(entries: &Vec<EvictCandidate>, a: usize, b: usize) -> (r: bool)
    requires
        a < entries@.len(),
        b < entries@.len(),
    ensures
        r == evicts_before(entries@, a as int, b as int),
{
    match (entries[a].last_played, entries[b].last_played) {
        (None, None) => a < b,
        (None, Some(_)) => true,
        (Some(_), None) => false,
        (Some(x), Some(y)) => x < y || (x == y && a < b),
    }
}

impl Storage {
    /// A storage rooted at `app_dir`, with the catalog document inside it.
    pub fn new(app_dir: String) -> (r: Storage)
        ensures
            r.app_dir == app_dir,
            r.config_file@ == app_dir@ + "/musicfree.json"@,
    {
        let config_file = get_config_path(app_dir.as_str());
        Storage { app_dir, config_file }
    }

    /// Accounts the listed file sizes: the whole root, the audio subtrees
    /// and the cover subtrees, each summed separately and saturating at the
    /// largest representable total. A subtree that does not exist is an
    /// empty list and contributes zero.
    pub fn get_storage_usage(
        &self,
        all_sizes: &Vec<u64>,
        audio_sizes: &Vec<u64>,
        cover_sizes: &Vec<u64>,
    ) -> (u: StorageUsage)
        ensures
            u.total_bytes == clamp_u64(sum_sizes(all_sizes@)),
            u.audio_bytes == clamp_u64(sum_sizes(audio_sizes@)),
            u.cover_bytes == clamp_u64(sum_sizes(cover_sizes@)),
            u.audio_count == audio_sizes@.len(),
    {
        StorageUsage {
            total_bytes: sum_sizes_clamped(all_sizes),
            audio_bytes: sum_sizes_clamped(audio_sizes),
            cover_bytes: sum_sizes_clamped(cover_sizes),
            audio_count: audio_sizes.len(),
        }
    }

    /// Plans one eviction pass over the catalog's entries, given the bytes
    /// currently under the root and the budget in megabytes. When the total
    /// already fits the budget the result is empty; otherwise entries are
    /// walked in victim order — never played first, then least recently
    /// played, ties in catalog order — each entry's files reclaimed and its
    /// identifier recorded, until the budget is met or the list is
    /// exhausted. The caller deletes the planned files and removes the
    /// returned identifiers from the catalog.
    pub fn cleanup_cache(
        &self,
        entries: &Vec<EvictCandidate>,
        total_bytes: u64,
        max_size_mb: u64,
    ) -> (r: CleanupResult)
        ensures
            exists|order: Seq<usize>|
                #[trigger] is_victim_order(entries@, order) && cleanup_result_ok(
                    entries@,
                    order,
                    total_bytes,
                    budget_bytes_of(max_size_mb),
                    r,
                ),
    {
        let budget: u64 = match max_size_mb.checked_mul(0x100000) {
            Some(b) => b,
            None => u64::MAX,
        };
        let order = victim_order(entries);
        let ghost os = ordered_views(entries@, order@);
        let n = order.len();
        let mut t: usize = 0;
        let mut freed: u128 = 0;
        let mut files: usize = 0;
        let mut ids: Vec<String> = Vec::new();
        let total128 = total_bytes as u128;
        let budget128 = budget as u128;
        proof {
            assert(os.take(0) =~= Seq::<EvictCandidateView>::empty());
            assert(os.skip(0) =~= os);
            assert(ids.deep_view() =~= os.take(0).map_values(|e: EvictCandidateView| e.audio_id));
        }
        while t < n && total128 > budget128 + freed
            invariant
                0 <= t <= n,
                n == order@.len(),
                is_victim_order(entries@, order@),
                os == ordered_views(entries@, order@),
                os.len() == n,
                forall|p: int| 0 <= p < n ==> os[p] == entries@[order@[p] as int]@,
                total128 == total_bytes as int,
                budget128 == budget as int,
                freed as int == sum_freed(os.take(t as int)),
                freed <= 3 * (u64::MAX as u128),
                files == clamp_usize(sum_files(os.take(t as int))),
                ids.deep_view() == os.take(t as int).map_values(
                    |e: EvictCandidateView| e.audio_id,
                ),
                walk_count(os, total_bytes as int, budget as int) == t + walk_count(
                    os.skip(t as int),
                    total_bytes - sum_freed(os.take(t as int)),
                    budget as int,
                ),
            decreases n - t,
        {
            proof {
                assert(os.skip(t as int).len() > 0);
                assert(os.skip(t as int).first() == os[t as int]);
                assert(os.skip(t as int).drop_first() =~= os.skip(t + 1));
                assert(os.take(t + 1).drop_last() =~= os.take(t as int));
                assert(os.take(t + 1).last() == os[t as int]);
                assert(os.take(t + 1).map_values(|e: EvictCandidateView| e.audio_id) =~= os.take(
                    t as int,
                ).map_values(|e: EvictCandidateView| e.audio_id).push(os[t as int].audio_id));
            }
            let e = &entries[order[t]];
            match e.audio_size {
                Some(s) => {
                    freed = freed + (s as u128);
                    files = files.saturating_add(1);
                },
                None => {},
            }
            match e.cover_size {
                Some(s) => {
                    freed = freed + (s as u128);
                    files = files.saturating_add(1);
                },
                None => {},
            }
            ids.push(e.audio_id.clone());
            t = t + 1;
        }
        proof {
            if t < n {
                // Stopped because the budget is met: the rest of the walk is
                // empty.
                assert(walk_count(
                    os.skip(t as int),
                    total_bytes - sum_freed(os.take(t as int)),
                    budget as int,
                ) == 0);
            } else {
                assert(os.skip(t as int) =~= Seq::<EvictCandidateView>::empty());
            }
            assert(walk_count(os, total_bytes as int, budget as int) == t);
        }
        let freed_bytes: u64 = if freed > (u64::MAX as u128) {
            u64::MAX
        } else {
            freed as u64
        };
        CleanupResult { deleted_files: files, freed_bytes, deleted_audios: ids }
    }
}

/// The exact sum of a size listing.
pub open spec fn sum_sizes(sizes: Seq<u64>) -> int
    decreases sizes.len(),
{
    if sizes.len() == 0 {
        0
    } else {
        sum_sizes(sizes.drop_last()) + sizes.last()
    }
}

/// Sums a size listing, saturating at the largest representable value.
fn sum_sizes_clamped(sizes: &Vec<u64>) -> (total: u64)
    ensures
        total == clamp_u64(sum_sizes(sizes@)),
{
    let n = sizes.len();
    let mut total: u64 = 0;
    let mut i: usize = 0;
    while i < n
        invariant
            0 <= i <= n,
            n == sizes@.len(),
            total == clamp_u64(sum_sizes(sizes@.take(i as int))),
        decreases n - i,
    {
        proof {
            assert(sizes@.take(i + 1).drop_last() =~= sizes@.take(i as int));
            assert(sizes@.take(i + 1).last() == sizes@[i as int]);
        }
        total = total.saturating_add(sizes[i]);
        i = i + 1;
    }
    proof {
        assert(sizes@.take(n as int) =~= sizes@);
    }
    total
}

/// How one eviction pass converges: it walks `walk_count` entries, after
/// which either the remaining bytes fit the budget or the list is
/// exhausted — and it never walks an entry once the budget is already met,
/// so no more is deleted than the first sufficient point.
pub proof fn lemma_eviction_convergence(vs: Seq<EvictCandidateView>, total: int, budget: int)
    ensures
        0 <= walk_count(vs, total, budget) <= vs.len(),
        total - sum_freed(vs.take(walk_count(vs, total, budget))) <= budget || walk_count(
            vs,
            total,
            budget,
        ) == vs.len(),
        forall|m: int|
            0 <= m < walk_count(vs, total, budget) ==> total - sum_freed(#[trigger] vs.take(m))
                > budget,
    decreases vs.len(),
{
    let k = walk_count(vs, total, budget);
    if total <= budget || vs.len() == 0 {
        assert(vs.take(0) =~= Seq::<EvictCandidateView>::empty());
    } else {
        let rest = vs.drop_first();
        let total2 = total - freed_of(vs.first());
        lemma_eviction_convergence(rest, total2, budget);
        let k2 = walk_count(rest, total2, budget);
        assert(k == 1 + k2);
        lemma_sum_freed_take_first(vs, k);
        assert forall|m: int| 0 <= m < k implies total - sum_freed(#[trigger] vs.take(m))
            > budget by {
            if m == 0 {
                assert(vs.take(0) =~= Seq::<EvictCandidateView>::empty());
            } else {
                lemma_sum_freed_take_first(vs, m);
                assert(total2 - sum_freed(rest.take(m - 1)) > budget);
            }
        }
        if total - sum_freed(vs.take(k)) > budget {
            assert(total2 - sum_freed(rest.take(k2)) > budget);
            assert(k2 == rest.len());
        }
    }
}

/// Whether the run `s` holds the value `v`.
pub open spec fn holds_value(s: Seq<usize>, v: usize) -> bool {
    exists|i: int| 0 <= i < s.len() && (#[trigger] s[i]) == v
}

/// A run of distinct values below a bound is no longer than the bound.
proof fn lemma_distinct_bounded_len(s: Seq<usize>, m: int)
    requires
        0 <= m,
        forall|p: int, q: int| 0 <= p < q < s.len() ==> s[p] != s[q],
        forall|p: int| 0 <= p < s.len() ==> (#[trigger] s[p]) < m,
    ensures
        s.len() <= m,
    decreases m,
{
    if s.len() == 0 {
    } else if m == 0 {
        assert(s[0] < 0);
    } else if exists|i: int| 0 <= i < s.len() && ((#[trigger] s[i]) as int) == m - 1 {
        let i = choose|i: int| 0 <= i < s.len() && ((#[trigger] s[i]) as int) == m - 1;
        let rest = s.remove(i);
        assert(forall|p: int|
            0 <= p < rest.len() ==> (#[trigger] rest[p]) == if p < i {
                s[p]
            } else {
                s[p + 1]
            });
        assert forall|p: int, q: int| 0 <= p < q < rest.len() implies rest[p] != rest[q] by {
            if p < i && q < i {
                assert(s[p] != s[q]);
            } else if p < i {
                assert(s[p] != s[q + 1]);
            } else {
                assert(s[p + 1] != s[q + 1]);
            }
        }
        assert forall|p: int| 0 <= p < rest.len() implies ((#[trigger] rest[p]) as int) < m
            - 1 by {
            if p < i {
                assert(s[p] != s[i]);
            } else {
                assert(s[p + 1] != s[i]);
            }
        }
        lemma_distinct_bounded_len(rest, m - 1);
    } else {
        assert forall|p: int| 0 <= p < s.len() implies ((#[trigger] s[p]) as int) < m - 1 by {
            assert(((s[p]) as int) != m - 1);
        }
        lemma_distinct_bounded_len(s, m - 1);
    }
}

/// A run of `n` distinct values below `n` holds every value below `n`.
proof fn lemma_distinct_below_contains(s: Seq<usize>, v: usize)
    requires
        forall|p: int, q: int| 0 <= p < q < s.len() ==> s[p] != s[q],
        forall|p: int| 0 <= p < s.len() ==> (#[trigger] s[p]) < s.len(),
        (v as int) < s.len(),
    ensures
        holds_value(s, v),
{
    if !holds_value(s, v) {
        assert(forall|i: int| 0 <= i < s.len() ==> (#[trigger] s[i]) != v);
        // Shift every value above the missing one down: the result is a run
        // of distinct values below one less than the length, which is too
        // long to exist.
        let t = s.map_values(
            |x: usize|
                if x > v {
                    (x - 1) as usize
                } else {
                    x
                },
        );
        assert forall|p: int, q: int| 0 <= p < q < t.len() implies t[p] != t[q] by {
            assert(s[p] != s[q]);
            assert(s[p] != v && s[q] != v);
        }
        assert forall|p: int| 0 <= p < t.len() implies ((#[trigger] t[p]) as int) < s.len() - 1 by {
            assert(s[p] != v);
            assert(s[p] < s.len());
        }
        lemma_distinct_bounded_len(t, s.len() - 1);
    }
}

/// Two strictly sorted runs over the same values are the same run.
proof fn lemma_sorted_same_values_equal(
    entries: Seq<EvictCandidate>,
    o1: Seq<usize>,
    o2: Seq<usize>,
)
    requires
        o1.len() == o2.len(),
        forall|p: int| 0 <= p < o1.len() ==> (#[trigger] o1[p]) < entries.len(),
        forall|p: int| 0 <= p < o2.len() ==> (#[trigger] o2[p]) < entries.len(),
        forall|p: int, q: int|
            0 <= p < q < o1.len() ==> evicts_before(
                entries,
                #[trigger] o1[p] as int,
                #[trigger] o1[q] as int,
            ),
        forall|p: int, q: int|
            0 <= p < q < o2.len() ==> evicts_before(
                entries,
                #[trigger] o2[p] as int,
                #[trigger] o2[q] as int,
            ),
        forall|v: usize| #[trigger] holds_value(o1, v) <==> #[trigger] holds_value(o2, v),
    ensures
        o1 == o2,
    decreases o1.len(),
{
    if o1.len() == 0 {
        assert(o1 =~= o2);
    } else {
        let h1 = o1[0];
        let h2 = o2[0];
        assert(holds_value(o1, h1));
        assert(holds_value(o2, h2));
        if h1 != h2 {
            assert(holds_value(o2, h1));
            assert(holds_value(o1, h2));
            let i2 = choose|i: int| 0 <= i < o2.len() && (#[trigger] o2[i]) == h1;
            let i1 = choose|i: int| 0 <= i < o1.len() && (#[trigger] o1[i]) == h2;
            assert(i2 > 0 && i1 > 0);
            assert(evicts_before(entries, h2 as int, h1 as int));
            assert(evicts_before(entries, h1 as int, h2 as int));
            assert(false);
        }
        let t1 = o1.drop_first();
        let t2 = o2.drop_first();
        assert(forall|p: int| 0 <= p < t1.len() ==> (#[trigger] t1[p]) == o1[p + 1]);
        assert(forall|p: int| 0 <= p < t2.len() ==> (#[trigger] t2[p]) == o2[p + 1]);
        assert forall|v: usize| #[trigger] holds_value(t1, v) <==> #[trigger] holds_value(
            t2,
            v,
        ) by {
            // The tails hold the heads' values minus the shared head, which
            // can not recur later because the order is strict.
            if holds_value(t1, v) {
                let i = choose|i: int| 0 <= i < t1.len() && (#[trigger] t1[i]) == v;
                assert(o1[i + 1] == v);
                assert(holds_value(o1, v));
                assert(v != h1) by {
                    if v == h1 {
                        assert(evicts_before(entries, h1 as int, h1 as int));
                    }
                }
                assert(holds_value(o2, v));
                let j = choose|j: int| 0 <= j < o2.len() && (#[trigger] o2[j]) == v;
                assert(j > 0);
                assert(t2[j - 1] == v);
                assert(holds_value(t2, v));
            }
            if holds_value(t2, v) {
                let i = choose|i: int| 0 <= i < t2.len() && (#[trigger] t2[i]) == v;
                assert(o2[i + 1] == v);
                assert(holds_value(o2, v));
                assert(v != h2) by {
                    if v == h2 {
                        assert(evicts_before(entries, h2 as int, h2 as int));
                    }
                }
                assert(holds_value(o1, v));
                let j = choose|j: int| 0 <= j < o1.len() && (#[trigger] o1[j]) == v;
                assert(j > 0);
                assert(t1[j - 1] == v);
                assert(holds_value(t1, v));
            }
        }
        lemma_sorted_same_values_equal(entries, t1, t2);
        assert forall|p: int| 0 <= p < o1.len() implies o1[p] == o2[p] by {
            if p > 0 {
                assert(t1[p - 1] == o1[p]);
                assert(t2[p - 1] == o2[p]);
            }
        }
        assert(o1 =~= o2);
    }
}

/// There is exactly one victim order: whatever computed it, any two orders
/// of the same entries agree, so the eviction pass is fully determined by
/// the catalog and the sizes.
pub proof fn lemma_victim_order_unique(
    entries: Seq<EvictCandidate>,
    o1: Seq<usize>,
    o2: Seq<usize>,
)
    requires
        is_victim_order(entries, o1),
        is_victim_order(entries, o2),
    ensures
        o1 == o2,
{
    assert forall|p: int, q: int| 0 <= p < q < o1.len() implies o1[p] != o1[q] by {
        if o1[p] == o1[q] {
            assert(evicts_before(entries, o1[p] as int, o1[q] as int));
            assert(false);
        }
    }
    assert forall|p: int, q: int| 0 <= p < q < o2.len() implies o2[p] != o2[q] by {
        if o2[p] == o2[q] {
            assert(evicts_before(entries, o2[p] as int, o2[q] as int));
            assert(false);
        }
    }
    assert forall|v: usize| #[trigger] holds_value(o1, v) <==> #[trigger] holds_value(
        o2,
        v,
    ) by {
        if (v as int) < entries.len() {
            lemma_distinct_below_contains(o1, v);
            lemma_distinct_below_contains(o2, v);
        } else {
            if holds_value(o1, v) {
                let i = choose|i: int| 0 <= i < o1.len() && (#[trigger] o1[i]) == v;
                assert(o1[i] < entries.len());
            }
            if holds_value(o2, v) {
                let i = choose|i: int| 0 <= i < o2.len() && (#[trigger] o2[i]) == v;
                assert(o2[i] < entries.len());
            }
        }
    }
    lemma_sorted_same_values_equal(entries, o1, o2);
}

/// Splits the freed-bytes sum of a prefix at its first entry.
proof fn lemma_sum_freed_take_first(vs: Seq<EvictCandidateView>, m: int)
    requires
        1 <= m <= vs.len(),
    ensures
        sum_freed(vs.take(m)) == freed_of(vs.first()) + sum_freed(vs.drop_first().take(m - 1)),
    decreases m,
{
    if m == 1 {
        assert(vs.take(1).drop_last() =~= Seq::<EvictCandidateView>::empty());
        assert(vs.take(1).last() == vs.first());
        assert(vs.drop_first().take(0) =~= Seq::<EvictCandidateView>::empty());
    } else {
        lemma_sum_freed_take_first(vs, m - 1);
        assert(vs.take(m).drop_last() =~= vs.take(m - 1));
        assert(vs.take(m).last() == vs[m - 1]);
        assert(vs.drop_first().take(m - 1).drop_last() =~= vs.drop_first().take(m - 2));
        assert(vs.drop_first().take(m - 1).last() == vs[m - 1]);
    }
}

} // verus!
