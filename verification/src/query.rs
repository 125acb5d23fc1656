//! Report query façade: the one entry point the presentation layer
//! calls once per refresh tick.
//!
//! A query filters the snapshot, sorts the survivors in report order,
//! and slices out the requested page. Recomputation is memoized per
//! refresh cycle: as long as the aggregate traffic counter, criteria,
//! mode and page are unchanged since the last computation, the cached
//! result is reused instead of recomputed.

use crate::criteria::{unconstrained, CriteriaModel, SearchCriteria};
use crate::filter::{filter_records, match_pred, spec_filter, spec_matches};
use crate::paginate::{
    lemma_window_in_range,
    paginate,
    spec_paginate,
    spec_total_pages,
    PageView,
    ReportPage,
    PAGE_SIZE,
};
use crate::record::{distinct_keys, models_of, ConnectionRecord, RecordModel};
use crate::sort::{is_sorted, sort_records, sort_spec, SortMode};
use vstd::prelude::*;

verus! {

/// The full filtered, sorted sequence a query pages over. This is also
/// what the report-export collaborator consumes, unpaginated.
pub open spec fn spec_report_order(s: Seq<RecordModel>, c: CriteriaModel, mode: SortMode) -> Seq<
    RecordModel,
> {
    sort_spec(mode, spec_filter(c, s))
}

/// The displayed page a snapshot, criteria, mode and requested page
/// number determine. The query result is a function of these inputs
/// alone.
pub open spec fn spec_query(s: Seq<RecordModel>, c: CriteriaModel, mode: SortMode, page: int) -> PageView {
    spec_paginate(spec_report_order(s, c, mode), page, PAGE_SIZE as int)
}

/// Run one query: filter the snapshot, sort the matches in report
/// order, and slice out the requested page (clamped).
pub fn query_report(
    snapshot: &Vec<ConnectionRecord>,
    criteria: &SearchCriteria,
    mode: SortMode,
    page: usize,
) -> (out: ReportPage)
    ensures
        out@ == spec_query(models_of(snapshot@), criteria@, mode, page as int),
{
    let kept = filter_records(snapshot, criteria);
    let sorted = sort_records(mode, &kept);
    paginate(sorted, page, PAGE_SIZE)
}

/// The matched records, sorted, without pagination: what the report
/// export consumes.
pub fn full_report(snapshot: &Vec<ConnectionRecord>, criteria: &SearchCriteria, mode: SortMode) -> (out:
    Vec<ConnectionRecord>)
    ensures
        models_of(out@) == spec_report_order(models_of(snapshot@), criteria@, mode),
{
    let kept = filter_records(snapshot, criteria);
    sort_records(mode, &kept)
}


/// What every displayed page is: a contiguous window of the report
/// order, itself sorted, made only of matching records, with the
/// banner bookkeeping consistent -- the match count is the number of
/// records the filter keeps, the page count is the rounded-up quotient,
/// and the shown page always lies within it.
pub proof fn lemma_query_page_properties(
    s: Seq<RecordModel>,
    c: CriteriaModel,
    mode: SortMode,
    page: int,
)
    ensures
        ({
            let pv = spec_query(s, c, mode, page);
            &&& pv.total_matches == spec_filter(c, s).len()
            &&& pv.total_pages == spec_total_pages(pv.total_matches, PAGE_SIZE as int)
            &&& 1 <= pv.page <= pv.total_pages
            &&& pv.rows.len() <= PAGE_SIZE
            &&& pv.rows == spec_report_order(s, c, mode).subrange(
                pv.start_index,
                pv.start_index + pv.rows.len(),
            )
            &&& is_sorted(mode, pv.rows)
            &&& forall|i: int|
                0 <= i < pv.rows.len() ==> spec_matches(c, #[trigger] pv.rows[i])
        }),
{
    broadcast use vstd::seq_lib::group_to_multiset_ensures;

    let kept = spec_filter(c, s);
    let order = spec_report_order(s, c, mode);
    let pv = spec_query(s, c, mode, page);
    crate::sort::lemma_sort_spec_ensures(mode, kept);
    lemma_window_in_range(order.len() as int, page, PAGE_SIZE as int);
    let start = pv.start_index;
    assert(pv.rows =~= order.subrange(start, start + pv.rows.len()));
    assert forall|i: int| 0 <= i < pv.rows.len() implies spec_matches(
        c,
        #[trigger] pv.rows[i],
    ) by {
        let x = order[start + i];
        assert(pv.rows[i] == x);
        assert(order.contains(x));
        assert(order.to_multiset().contains(x));
        assert(kept.contains(x));
        let k = choose|k: int| 0 <= k < kept.len() && kept[k] == x;
        s.lemma_filter_pred(match_pred(c), k);
        assert(match_pred(c)(x) == spec_matches(c, x));
    }
    assert(is_sorted(mode, pv.rows)) by {
        assert(forall|i: int, j: int|
            0 <= i < j < pv.rows.len() ==> crate::sort::record_le(
                mode,
                #[trigger] pv.rows[i],
                #[trigger] pv.rows[j],
            ) == crate::sort::record_le(mode, order[start + i], order[start + j]));
    }
}

/// Clearing all filters restores the full set: with the default,
/// unconstrained criteria the report is the whole snapshot, under the
/// currently selected sort mode.
pub proof fn lemma_clear_filters_restores_all(s: Seq<RecordModel>, mode: SortMode)
    ensures
        spec_report_order(s, unconstrained(), mode) == sort_spec(mode, s),
{
    crate::filter::lemma_unconstrained_keeps_all(s);
}

/// Pairwise-distinct identity keys survive any rearrangement that
/// keeps the multiset of records.
proof fn lemma_distinct_keys_permutation(s1: Seq<RecordModel>, s2: Seq<RecordModel>)
    requires
        s1.to_multiset() == s2.to_multiset(),
        distinct_keys(s1),
    ensures
        distinct_keys(s2),
{
    broadcast use vstd::seq_lib::group_to_multiset_ensures;

    assert forall|i: int, j: int|
        0 <= i < s2.len() && 0 <= j < s2.len() && i != j implies (#[trigger] s2[i]).key
        != (#[trigger] s2[j]).key by {
        let a = s2[i];
        let b = s2[j];
        if a.key == b.key {
            if a != b {
                assert(s2.to_multiset().contains(a));
                assert(s1.contains(a));
                assert(s2.to_multiset().contains(b));
                assert(s1.contains(b));
                let k = choose|k: int| 0 <= k < s1.len() && s1[k] == a;
                let m = choose|m: int| 0 <= m < s1.len() && s1[m] == b;
                assert(k != m);
                assert(s1[k].key != s1[m].key);
                assert(false);
            } else {
                // the same record twice in s2 means multiplicity two,
                // so it sits at two distinct positions of s1 as well
                assert(s2.remove(i).to_multiset() == s2.to_multiset().remove(a));
                assert(s2.remove(i).contains(b)) by {
                    s2.remove_ensures(i);
                    if j < i {
                        assert(s2.remove(i)[j] == b);
                    } else {
                        assert(s2.remove(i)[j - 1] == b);
                    }
                }
                assert(s1.to_multiset().remove(a).count(a) > 0);
                assert(s1.contains(a));
                let k = choose|k: int| 0 <= k < s1.len() && s1[k] == a;
                assert(s1.remove(k).to_multiset() == s1.to_multiset().remove(a));
                assert(s1.remove(k).to_multiset().count(a) > 0);
                assert(s1.remove(k).contains(a));
                let m = choose|m: int| 0 <= m < s1.remove(k).len() && s1.remove(k)[m] == a;
                s1.remove_ensures(k);
                if m < k {
                    assert(s1[m] == a && m != k);
                    assert(s1[m].key != s1[k].key);
                } else {
                    assert(s1[m + 1] == a && m + 1 != k);
                    assert(s1[m + 1].key != s1[k].key);
                }
                assert(false);
            }
        }
    }
}

/// Filtering a snapshot with pairwise-distinct identity keys yields
/// matches with pairwise-distinct identity keys.
proof fn lemma_filter_distinct_keys(c: CriteriaModel, s: Seq<RecordModel>)
    requires
        distinct_keys(s),
    ensures
        distinct_keys(spec_filter(c, s)),
    decreases s.len(),
{
    reveal(Seq::filter);
    if s.len() > 0 {
        let prefix = s.drop_last();
        assert(distinct_keys(prefix));
        lemma_filter_distinct_keys(c, prefix);
        let kept = spec_filter(c, prefix);
        if crate::filter::spec_matches(c, s.last()) {
            assert forall|i: int, j: int|
                0 <= i < kept.push(s.last()).len() && 0 <= j < kept.push(s.last()).len() && i != j
                implies (#[trigger] kept.push(s.last())[i]).key != (#[trigger] kept.push(
                s.last(),
            )[j]).key by {
                broadcast use vstd::seq_lib::group_filter_ensures;
                broadcast use vstd::prelude::Seq::lemma_filter_contains_rev;

                let out = kept.push(s.last());
                if i < kept.len() && j < kept.len() {
                    assert(out[i] == kept[i] && out[j] == kept[j]);
                    assert(kept[i].key != kept[j].key);
                } else {
                    let inner = if i < kept.len() { i } else { j };
                    assert(out[inner] == kept[inner]);
                    assert(kept.contains(kept[inner]));
                    assert(prefix.contains(kept[inner]));
                    let k = choose|k: int| 0 <= k < prefix.len() && prefix[k] == kept[inner];
                    assert(s[k] == kept[inner] && 0 <= k < s.len() - 1);
                    assert(s[k].key != s[s.len() - 1].key);
                }
            }
        }
    }
}

/// Sort stability: under a fixed mode, the matched records of a
/// well-formed snapshot have exactly one arrangement in report order,
/// and it is the one every query shows. Re-querying an unchanged
/// snapshot therefore always yields the same order, ties included: no
/// record can drift between pages while snapshot, criteria and mode
/// are unchanged.
pub proof fn lemma_sort_stability(
    mode: SortMode,
    c: CriteriaModel,
    s: Seq<RecordModel>,
    arrangement: Seq<RecordModel>,
)
    requires
        distinct_keys(s),
        is_sorted(mode, arrangement),
        arrangement.to_multiset() == spec_filter(c, s).to_multiset(),
    ensures
        arrangement == spec_report_order(s, c, mode),
{
    let kept = spec_filter(c, s);
    lemma_filter_distinct_keys(c, s);
    crate::sort::lemma_sort_spec_ensures(mode, kept);
    lemma_distinct_keys_permutation(kept, spec_report_order(s, c, mode));
    crate::sort::lemma_report_order_unique(mode, spec_report_order(s, c, mode), arrangement);
}


/// Memoized recomputation for the refresh loop.
///
/// The cache key is the tuple the page's refresh reacts to: the
/// aggregate traffic counter of the capture session, the criteria, the
/// mode and the requested page. The counter stands in for the snapshot
/// itself: the capture subsystem only ever grows it when the store
/// changes, so callers must pass equal counters only while the
/// snapshot is unchanged -- that is the precondition of
/// [`ReportCache::query_cached`].
pub struct ReportCache {
    /// Whether a result is cached at all.
    pub valid: bool,
    /// Aggregate traffic counter at the cached computation.
    pub counter: u64,
    /// Criteria of the cached computation.
    pub criteria: SearchCriteria,
    /// Sort mode of the cached computation.
    pub mode: SortMode,
    /// Requested (unclamped) page of the cached computation.
    pub page: usize,
    /// The cached displayed page.
    pub result: ReportPage,
    /// The snapshot the cached result was computed from.
    pub snap: Ghost<Seq<RecordModel>>,
}

impl ReportCache {
    /// The cache never holds a stale lie: whatever is cached is the
    /// query result of the remembered inputs.
    pub open spec fn wf(self) -> bool {
        self.valid ==> self.result@ == spec_query(
            self.snap@,
            self.criteria@,
            self.mode,
            self.page as int,
        )
    }

    /// An empty cache: nothing memoized yet.
    pub fn new() -> (out: ReportCache)
        ensures
            out.wf(),
            !out.valid,
    {
        ReportCache {
            valid: false,
            counter: 0,
            criteria: SearchCriteria::default(),
            mode: SortMode::MostRecent,
            page: 1,
            result: ReportPage {
                rows: Vec::new(),
                total_matches: 0,
                total_pages: 1,
                page: 1,
                start_index: 0,
            },
            snap: Ghost(Seq::empty()),
        }
    }

    /// Run one query through the cache: when counter, criteria, mode
    /// and page all match the memoized computation, hand the cached
    /// page back; otherwise recompute and remember the result. Either
    /// way the answer is exactly the query of the given inputs.
    ///
    /// Callers own the counter's meaning: passing the counter of the
    /// cached computation asserts that the snapshot is still the one
    /// it was computed from.
    pub fn query_cached(
        &mut self,
        snapshot: &Vec<ConnectionRecord>,
        counter: u64,
        criteria: &SearchCriteria,
        mode: SortMode,
        page: usize,
    ) -> (out: ReportPage)
        requires
            old(self).wf(),
            old(self).valid && old(self).counter == counter ==> old(self).snap@ == models_of(
                snapshot@,
            ),
        ensures
            final(self).wf(),
            out@ == spec_query(models_of(snapshot@), criteria@, mode, page as int),
            final(self).valid,
            final(self).result@ == out@,
            final(self).counter == counter,
            final(self).criteria@ == criteria@,
            final(self).mode == mode,
            final(self).page == page,
            final(self).snap@ == models_of(snapshot@),
    {
        if self.valid && self.counter == counter && self.criteria.same_as(criteria)
            && self.mode == mode && self.page == page {
            proof {
                self.snap@ = models_of(snapshot@);
            }
            self.criteria = criteria.duplicate();
            return self.result.duplicate();
        }
        let out = query_report(snapshot, criteria, mode, page);
        self.valid = true;
        self.counter = counter;
        self.criteria = criteria.duplicate();
        self.mode = mode;
        self.page = page;
        self.result = out.duplicate();
        self.snap = Ghost(models_of(snapshot@));
        out
    }
}

} // verus!
