//! Command side of the inspect page: the state the presentation layer
//! owns (active criteria, sort mode, requested page) and the messages
//! that replace parts of it.
//!
//! State is replaced wholesale, never mutated in place: each message
//! produces new immutable values, and the pure query read path takes
//! them by value. The page number only steps by one per user action;
//! it is clamped against the match count inside the query itself.

use crate::criteria::{unconstrained, SearchCriteria};
use crate::sort::SortMode;
use vstd::prelude::*;

verus! {

/// One user action on the report controls.
pub enum ReportMessage {
    /// Replace the active filter criteria wholesale.
    SetCriteria(SearchCriteria),
    /// Replace the active sort mode.
    SetSortMode(SortMode),
    /// Step one page forward.
    NextPage,
    /// Step one page back.
    PreviousPage,
}

/// The report controls' state: what the presentation layer holds
/// between refresh ticks and hands to every query.
pub struct InspectState {
    /// The active filter criteria.
    pub criteria: SearchCriteria,
    /// The active sort mode.
    pub mode: SortMode,
    /// The requested page, 1-indexed; clamped against the match count
    /// by the query.
    pub page: usize,
}

impl InspectState {
    /// The initial state: no filter active, most recent first, first
    /// page.
    pub fn new() -> (out: InspectState)
        ensures
            out.criteria@ == unconstrained(),
            out.mode == SortMode::MostRecent,
            out.page == 1,
    {
        InspectState { criteria: SearchCriteria::default(), mode: SortMode::MostRecent, page: 1 }
    }

    /// Apply one user action. Criteria and mode are replaced wholesale;
    /// the page steps by one, never below 1, saturating at the top of
    /// `usize` (the query clamps it against the real page count).
    pub fn dispatch(&mut self, msg: &ReportMessage)
        ensures
            (*msg matches ReportMessage::SetCriteria(c) ==> (final(self).criteria@ == c@
                && final(self).mode == old(self).mode && final(self).page == old(self).page)),
            (*msg matches ReportMessage::SetSortMode(m) ==> (final(self).mode == m
                && final(self).criteria@ == old(self).criteria@ && final(self).page == old(
                self,
            ).page)),
            (*msg matches ReportMessage::NextPage ==> (final(self).criteria@ == old(self).criteria@
                && final(self).mode == old(self).mode && final(self).page == (
            if old(self).page < usize::MAX {
                old(self).page + 1
            } else {
                old(self).page as int
            }))),
            (*msg matches ReportMessage::PreviousPage ==> (final(self).criteria@ == old(
                self,
            ).criteria@ && final(self).mode == old(self).mode && final(self).page == (
            if old(self).page > 1 {
                old(self).page - 1
            } else {
                1int
            }))),
    {
        match msg {
            ReportMessage::SetCriteria(c) => {
                self.criteria = c.duplicate();
            },
            ReportMessage::SetSortMode(m) => {
                self.mode = *m;
            },
            ReportMessage::NextPage => {
                if self.page < usize::MAX {
                    self.page = self.page + 1;
                }
            },
            ReportMessage::PreviousPage => {
                if self.page > 1 {
                    self.page = self.page - 1;
                } else {
                    self.page = 1;
                }
            },
        }
    }
}

} // verus!
