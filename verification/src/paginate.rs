//! Paginator: fixed-size windows over the filtered, sorted sequence.
//!
//! Pages are 1-indexed. A requested page is silently clamped into
//! `[1, total_pages]` before slicing, so a stale page number (after a
//! filter removed matches, say) can never request an out-of-range
//! window; out-of-range pages are not an error.

use crate::record::{models_of, ConnectionRecord, RecordModel};
use vstd::arithmetic::div_mod::lemma_fundamental_div_mod;
use vstd::arithmetic::mul::lemma_mul_inequality;
use vstd::prelude::*;

verus! {

/// How many records one page shows.
pub const PAGE_SIZE: usize = 20;

/// Number of pages a total of `total` records fills: at least 1 (an
/// empty result still has one, empty, page), else the rounded-up
/// quotient.
pub open spec fn spec_total_pages(total: int, page_size: int) -> int
    recommends
        total >= 0,
        page_size >= 1,
{
    if total == 0 {
        1
    } else {
        (total - 1) / page_size + 1
    }
}

/// A requested page clamped into `[1, total_pages]`.
pub open spec fn spec_clamp_page(page: int, total_pages: int) -> int {
    if page < 1 {
        1
    } else if page > total_pages {
        total_pages
    } else {
        page
    }
}

/// First index (0-based) of the clamped page's window.
pub open spec fn spec_window_start(total: int, page: int, page_size: int) -> int {
    (spec_clamp_page(page, spec_total_pages(total, page_size)) - 1) * page_size
}

/// One-past-last index of the clamped page's window.
pub open spec fn spec_window_end(total: int, page: int, page_size: int) -> int {
    let start = spec_window_start(total, page, page_size);
    if start + page_size <= total {
        start + page_size
    } else {
        total
    }
}

/// The visible window of the clamped page.
pub open spec fn spec_window(s: Seq<RecordModel>, page: int, page_size: int) -> Seq<RecordModel>
    recommends
        page_size >= 1,
{
    s.subrange(
        spec_window_start(s.len() as int, page, page_size),
        spec_window_end(s.len() as int, page, page_size),
    )
}

/// The window of every page lies inside the sequence: its start never
/// passes the total, and a clamped page before the last one starts a
/// full page short of the end.
pub proof fn lemma_window_in_range(total: int, page: int, page_size: int)
    requires
        total >= 0,
        page_size >= 1,
    ensures
        1 <= spec_total_pages(total, page_size),
        spec_total_pages(total, page_size) <= (if total == 0 { 1int } else { total }),
        spec_total_pages(total, page_size) * page_size >= total,
        0 <= spec_window_start(total, page, page_size),
        spec_window_start(total, page, page_size) <= total,
        spec_window_start(total, page, page_size) <= spec_window_end(total, page, page_size),
        spec_window_end(total, page, page_size) <= total,
        total > 0 ==> spec_window_start(total, page, page_size) < total,
{
    let tp = spec_total_pages(total, page_size);
    let p = spec_clamp_page(page, tp);
    vstd::arithmetic::mul::lemma_mul_basics(page_size);
    if total == 0 {
        assert(spec_window_start(total, page, page_size) == 0);
    } else {
        let q = (total - 1) / page_size;
        lemma_fundamental_div_mod(total - 1, page_size);
        assert(total - 1 == page_size * q + (total - 1) % page_size);
        assert(0 <= (total - 1) % page_size < page_size) by {
            vstd::arithmetic::div_mod::lemma_mod_division_less_than_divisor(total - 1, page_size);
        }
        assert(page_size * q <= total - 1);
        assert(q >= 0) by {
            vstd::arithmetic::div_mod::lemma_div_pos_is_pos(total - 1, page_size);
        }
        assert(q <= page_size * q) by {
            lemma_mul_inequality(1, page_size, q);
            vstd::arithmetic::mul::lemma_mul_is_commutative(q, page_size);
        }
        assert(tp <= total);
        assert(1 <= p <= tp);
        assert(p - 1 <= q);
        lemma_mul_inequality(p - 1, q, page_size);
        assert((p - 1) * page_size <= q * page_size);
        vstd::arithmetic::mul::lemma_mul_is_commutative(q, page_size);
        assert((p - 1) * page_size <= total - 1);
        assert(tp * page_size >= total) by {
            assert(tp * page_size == (q + 1) * page_size);
            vstd::arithmetic::mul::lemma_mul_is_distributive_add_other_way(page_size, q, 1);
            assert((q + 1) * page_size == q * page_size + page_size);
        }
    }
}

/// The first `k` pages, concatenated in page order.
pub open spec fn pages_concat(s: Seq<RecordModel>, k: int, page_size: int) -> Seq<RecordModel>
    recommends
        page_size >= 1,
    decreases k,
{
    if k <= 0 {
        Seq::empty()
    } else {
        pages_concat(s, k - 1, page_size) + spec_window(s, k, page_size)
    }
}

/// The first `k` pages, concatenated, are exactly the first
/// `k * page_size` records (or all of them, whichever ends sooner).
proof fn lemma_pages_concat_prefix(s: Seq<RecordModel>, k: int, page_size: int)
    requires
        page_size >= 1,
        0 <= k <= spec_total_pages(s.len() as int, page_size),
    ensures
        k * page_size <= s.len() ==> pages_concat(s, k, page_size) == s.subrange(
            0,
            k * page_size,
        ),
        k * page_size > s.len() ==> pages_concat(s, k, page_size) == s.subrange(
            0,
            s.len() as int,
        ),
    decreases k,
{
    let len = s.len() as int;
    let tp = spec_total_pages(len, page_size);
    vstd::arithmetic::mul::lemma_mul_basics(page_size);
    if k == 0 {
        assert(pages_concat(s, 0, page_size) =~= s.subrange(0, 0));
    } else {
        lemma_pages_concat_prefix(s, k - 1, page_size);
        lemma_window_in_range(len, k, page_size);
        vstd::arithmetic::mul::lemma_mul_is_distributive_add_other_way(page_size, k - 1, 1);
        assert(k * page_size == (k - 1) * page_size + page_size);
        assert(spec_clamp_page(k, tp) == k);
        let start = (k - 1) * page_size;
        assert(spec_window_start(len, k, page_size) == start);
        assert(start <= len);
        assert((k - 1) * page_size <= len) by {
            if len > 0 {
                assert(start < len) by {
                    lemma_window_in_range(len, k, page_size);
                }
            }
        }
        let end = spec_window_end(len, k, page_size);
        if k * page_size <= len {
            assert(end == k * page_size);
            assert(pages_concat(s, k - 1, page_size) + spec_window(s, k, page_size) =~= s.subrange(
                0,
                k * page_size,
            ));
        } else {
            assert(end == len);
            assert(pages_concat(s, k - 1, page_size) + spec_window(s, k, page_size) =~= s.subrange(
                0,
                len,
            ));
        }
    }
}

/// Pagination coverage: the pages `1..=total_pages`, concatenated in
/// order, reproduce exactly the full sequence, with no gaps and no
/// duplicates; every page but the last holds exactly `page_size`
/// records, and the last holds the remainder.
pub proof fn lemma_pagination_coverage(s: Seq<RecordModel>, page_size: int)
    requires
        page_size >= 1,
    ensures
        pages_concat(s, spec_total_pages(s.len() as int, page_size), page_size) == s,
        forall|p: int|
            1 <= p < spec_total_pages(s.len() as int, page_size) ==> (#[trigger] spec_window(
                s,
                p,
                page_size,
            )).len() == page_size,
        s.len() > 0 ==> spec_window(s, spec_total_pages(s.len() as int, page_size), page_size).len()
            == s.len() - (spec_total_pages(s.len() as int, page_size) - 1) * page_size,
{
    let len = s.len() as int;
    let tp = spec_total_pages(len, page_size);
    lemma_window_in_range(len, 0, page_size);
    lemma_pages_concat_prefix(s, tp, page_size);
    if tp * page_size <= len {
        assert(tp * page_size >= len);
        assert(pages_concat(s, tp, page_size) =~= s);
    } else {
        assert(pages_concat(s, tp, page_size) =~= s);
    }
    assert forall|p: int| 1 <= p < tp implies (#[trigger] spec_window(s, p, page_size)).len()
        == page_size by {
        lemma_window_in_range(len, p, page_size);
        assert(spec_clamp_page(p, tp) == p);
        let start = (p - 1) * page_size;
        assert(start + page_size == p * page_size) by {
            vstd::arithmetic::mul::lemma_mul_is_distributive_add_other_way(page_size, p - 1, 1);
        }
        assert(p * page_size <= (tp - 1) * page_size) by {
            lemma_mul_inequality(p, tp - 1, page_size);
        }
        assert((tp - 1) * page_size <= len - 1) by {
            let q = (len - 1) / page_size;
            lemma_fundamental_div_mod(len - 1, page_size);
            vstd::arithmetic::div_mod::lemma_mod_division_less_than_divisor(len - 1, page_size);
            assert(tp - 1 == q);
            vstd::arithmetic::mul::lemma_mul_is_commutative(q, page_size);
        }
        assert(spec_window_end(len, p, page_size) == start + page_size);
    }
    if len > 0 {
        lemma_window_in_range(len, tp, page_size);
        assert(spec_clamp_page(tp, tp) == tp);
        assert(spec_window(s, tp, page_size).len() == spec_window_end(len, tp, page_size) - (tp - 1)
            * page_size);
        assert(spec_window_end(len, tp, page_size) == len) by {
            vstd::arithmetic::mul::lemma_mul_is_distributive_add_other_way(page_size, tp - 1, 1);
            assert((tp - 1) * page_size + page_size == tp * page_size);
            assert(tp * page_size >= len);
        }
    }
}

/// Clamping: requesting page 0 (or anything below 1) shows page 1, and
/// requesting a page beyond `total_pages` shows the last page -- the
/// whole displayed page is the same, bookkeeping included.
pub proof fn lemma_page_clamping(s: Seq<RecordModel>, page: int, page_size: int)
    requires
        page_size >= 1,
    ensures
        page < 1 ==> spec_paginate(s, page, page_size) == spec_paginate(s, 1, page_size),
        page > spec_total_pages(s.len() as int, page_size) ==> spec_paginate(s, page, page_size)
            == spec_paginate(s, spec_total_pages(s.len() as int, page_size), page_size),
{
    let tp = spec_total_pages(s.len() as int, page_size);
    lemma_window_in_range(s.len() as int, 0, page_size);
    if page < 1 {
        assert(spec_clamp_page(page, tp) == spec_clamp_page(1, tp));
        assert(spec_paginate(s, page, page_size) =~= spec_paginate(s, 1, page_size));
    }
    if page > tp {
        assert(spec_clamp_page(page, tp) == spec_clamp_page(tp, tp));
        assert(spec_paginate(s, page, page_size) =~= spec_paginate(s, tp, page_size));
    }
}

/// The page bookkeeping and visible slice of one query.
///
/// `total_matches` counts every record that survived the filter, not
/// just those on the shown page; a `total_matches` of zero is the
/// distinguishable "no matches at all" signal, as opposed to "matches
/// exist on some other page", which clamping already rules out.
#[verifier::ext_equal]
pub struct PageView {
    /// The shown records, in report order.
    pub rows: Seq<RecordModel>,
    /// How many records matched, over all pages.
    pub total_matches: int,
    /// How many pages they fill; at least 1.
    pub total_pages: int,
    /// The shown page, already clamped into `[1, total_pages]`.
    pub page: int,
    /// 0-based index of the first shown record in the full order.
    pub start_index: int,
}

/// One displayed page: the visible rows of the clamped page plus the
/// bookkeeping a "showing X-Y of Z" banner needs.
pub struct ReportPage {
    /// The shown records, in report order.
    pub rows: Vec<ConnectionRecord>,
    /// How many records matched, over all pages.
    pub total_matches: usize,
    /// How many pages they fill; at least 1.
    pub total_pages: usize,
    /// The shown page, already clamped into `[1, total_pages]`.
    pub page: usize,
    /// 0-based index of the first shown record in the full order.
    pub start_index: usize,
}

impl View for ReportPage {
    type V = PageView;

    open spec fn view(&self) -> PageView {
        PageView {
            rows: models_of(self.rows@),
            total_matches: self.total_matches as int,
            total_pages: self.total_pages as int,
            page: self.page as int,
            start_index: self.start_index as int,
        }
    }
}

/// The page that a sorted sequence, a requested page number and a page
/// size determine.
pub open spec fn spec_paginate(s: Seq<RecordModel>, page: int, page_size: int) -> PageView {
    PageView {
        rows: spec_window(s, page, page_size),
        total_matches: s.len() as int,
        total_pages: spec_total_pages(s.len() as int, page_size),
        page: spec_clamp_page(page, spec_total_pages(s.len() as int, page_size)),
        start_index: spec_window_start(s.len() as int, page, page_size),
    }
}

/// Slice the requested page out of the sorted, filtered records.
pub fn paginate(sorted: Vec<ConnectionRecord>, page: usize, page_size: usize) -> (out: ReportPage)
    requires
        page_size >= 1,
    ensures
        out@ == spec_paginate(models_of(sorted@), page as int, page_size as int),
{
    let total = sorted.len();
    proof {
        lemma_window_in_range(total as int, page as int, page_size as int);
    }
    let total_pages = if total == 0 {
        1
    } else {
        (total - 1) / page_size + 1
    };
    let clamped = if page < 1 {
        1
    } else if page > total_pages {
        total_pages
    } else {
        page
    };
    let start = (clamped - 1) * page_size;
    let end = if page_size <= total - start {
        start + page_size
    } else {
        total
    };
    let mut rows: Vec<ConnectionRecord> = Vec::new();
    let mut i: usize = start;
    proof {
        assert(models_of(rows@) =~= models_of(sorted@).subrange(start as int, start as int));
    }
    while i < end
        invariant
            start <= i <= end,
            end <= sorted@.len(),
            models_of(rows@) == models_of(sorted@).subrange(start as int, i as int),
        decreases end - i,
    {
        let ghost prev = models_of(rows@);
        rows.push(sorted[i].duplicate());
        proof {
            assert(models_of(rows@) =~= prev.push(sorted@[i as int]@));
            assert(models_of(sorted@).subrange(start as int, i + 1 as int) =~= models_of(
                sorted@,
            ).subrange(start as int, i as int).push(models_of(sorted@)[i as int]));
        }
        i = i + 1;
    }
    let out = ReportPage { rows, total_matches: total, total_pages, page: clamped, start_index: start };
    proof {
        assert(out@.rows =~= spec_window(models_of(sorted@), page as int, page_size as int));
    }
    out
}

impl ReportPage {
    /// Whether nothing at all matched: the empty-state signal, as
    /// opposed to an empty slice of some other page, which clamping
    /// already rules out.
    pub fn no_matches(&self) -> (r: bool)
        ensures
            r == (self@.total_matches == 0),
    {
        self.total_matches == 0
    }

    /// 1-based display index of the first shown record, for a
    /// "showing X-Y of Z" banner.
    pub fn first_shown(&self) -> (r: usize)
        requires
            self@.start_index < usize::MAX,
        ensures
            r == self@.start_index + 1,
    {
        self.start_index + 1
    }

    /// 1-based display index of the last shown record, for a
    /// "showing X-Y of Z" banner.
    pub fn last_shown(&self) -> (r: usize)
        requires
            self@.start_index + self@.rows.len() <= usize::MAX,
        ensures
            r == self@.start_index + self@.rows.len(),
    {
        self.start_index + self.rows.len()
    }

    /// Whether a later page exists.
    pub fn has_next_page(&self) -> (r: bool)
        ensures
            r == (self@.page < self@.total_pages),
    {
        self.page < self.total_pages
    }

    /// A copy of this page with the same view.
    pub fn duplicate(&self) -> (out: ReportPage)
        ensures
            out@ == self@,
    {
        let out = ReportPage {
            rows: crate::record::copy_records(&self.rows),
            total_matches: self.total_matches,
            total_pages: self.total_pages,
            page: self.page,
            start_index: self.start_index,
        };
        proof {
            assert(out@ =~= self@);
        }
        out
    }

    /// Whether an earlier page exists.
    pub fn has_previous_page(&self) -> (r: bool)
        ensures
            r == (self@.page > 1),
    {
        self.page > 1
    }
}

} // verus!
