//! Search criteria: the user's active filter specification.
//!
//! Four independent text filters plus a favorites-only flag. An empty
//! text filter means "no constraint on this field". Criteria values are
//! immutable: changing one filter builds a whole new value, so a closure
//! captured by the presentation layer never sees a half-updated filter.
//! Matching is case-sensitive; filter text is expected already trimmed.

use crate::text::bytes_equal;
use vstd::prelude::*;

verus! {

/// Mathematical model of a criteria value.
#[verifier::ext_equal]
pub struct CriteriaModel {
    pub app: Seq<u8>,
    pub domain: Seq<u8>,
    pub country: Seq<u8>,
    pub as_name: Seq<u8>,
    pub only_favorites: bool,
}

/// The criteria that constrain nothing: all text filters empty and the
/// favorites flag off. Every record matches them.
pub open spec fn unconstrained() -> CriteriaModel {
    CriteriaModel {
        app: Seq::empty(),
        domain: Seq::empty(),
        country: Seq::empty(),
        as_name: Seq::empty(),
        only_favorites: false,
    }
}

/// The active filter specification: four optional substring filters
/// (application protocol, domain, country, administrative entity) and
/// a favorites-only flag.
pub struct SearchCriteria {
    /// Application-layer protocol filter; empty means no constraint.
    pub app: Vec<u8>,
    /// Domain-name filter; empty means no constraint.
    pub domain: Vec<u8>,
    /// Country-code filter; empty means no constraint.
    pub country: Vec<u8>,
    /// Administrative-entity filter; empty means no constraint.
    pub as_name: Vec<u8>,
    /// When set, only records flagged as favorites match.
    pub only_favorites: bool,
}

impl View for SearchCriteria {
    type V = CriteriaModel;

    open spec fn view(&self) -> CriteriaModel {
        CriteriaModel {
            app: self.app@,
            domain: self.domain@,
            country: self.country@,
            as_name: self.as_name@,
            only_favorites: self.only_favorites,
        }
    }
}

impl Default for SearchCriteria {
    /// The empty criteria: no text filter active, favorites flag off.
    fn default() -> (out: SearchCriteria)
        ensures
            out@ == unconstrained(),
    {
        let out = SearchCriteria {
            app: Vec::new(),
            domain: Vec::new(),
            country: Vec::new(),
            as_name: Vec::new(),
            only_favorites: false,
        };
        proof {
            assert(out@ =~= unconstrained());
        }
        out
    }
}

impl SearchCriteria {
    /// A copy of these criteria with the same model.
    pub fn duplicate(&self) -> (out: SearchCriteria)
        ensures
            out@ == self@,
    {
        let out = SearchCriteria {
            app: crate::record::copy_bytes(&self.app),
            domain: crate::record::copy_bytes(&self.domain),
            country: crate::record::copy_bytes(&self.country),
            as_name: crate::record::copy_bytes(&self.as_name),
            only_favorites: self.only_favorites,
        };
        proof {
            assert(out@ =~= self@);
        }
        out
    }

    /// These criteria with the application-protocol filter replaced.
    pub fn with_app(self, app: Vec<u8>) -> (out: SearchCriteria)
        ensures
            out@ == (CriteriaModel { app: app@, ..self@ }),
    {
        let out = SearchCriteria { app, ..self };
        proof {
            assert(out@ =~= (CriteriaModel { app: out.app@, ..self@ }));
        }
        out
    }

    /// These criteria with the domain filter replaced.
    pub fn with_domain(self, domain: Vec<u8>) -> (out: SearchCriteria)
        ensures
            out@ == (CriteriaModel { domain: domain@, ..self@ }),
    {
        let out = SearchCriteria { domain, ..self };
        proof {
            assert(out@ =~= (CriteriaModel { domain: out.domain@, ..self@ }));
        }
        out
    }

    /// These criteria with the country filter replaced.
    pub fn with_country(self, country: Vec<u8>) -> (out: SearchCriteria)
        ensures
            out@ == (CriteriaModel { country: country@, ..self@ }),
    {
        let out = SearchCriteria { country, ..self };
        proof {
            assert(out@ =~= (CriteriaModel { country: out.country@, ..self@ }));
        }
        out
    }

    /// These criteria with the administrative-entity filter replaced.
    pub fn with_as_name(self, as_name: Vec<u8>) -> (out: SearchCriteria)
        ensures
            out@ == (CriteriaModel { as_name: as_name@, ..self@ }),
    {
        let out = SearchCriteria { as_name, ..self };
        proof {
            assert(out@ =~= (CriteriaModel { as_name: out.as_name@, ..self@ }));
        }
        out
    }

    /// These criteria with the favorites-only flag replaced.
    pub fn with_only_favorites(self, only_favorites: bool) -> (out: SearchCriteria)
        ensures
            out@ == (CriteriaModel { only_favorites, ..self@ }),
    {
        let out = SearchCriteria { only_favorites, ..self };
        proof {
            assert(out@ =~= (CriteriaModel { only_favorites, ..self@ }));
        }
        out
    }

    /// Whether any filter is active: some text filter non-empty, or the
    /// favorites flag set. When false, every record matches.
    pub fn is_some_filter_active(&self) -> (r: bool)
        ensures
            r == (self@ != unconstrained()),
    {
        let active = self.app.len() > 0 || self.domain.len() > 0 || self.country.len() > 0
            || self.as_name.len() > 0 || self.only_favorites;
        proof {
            if !active {
                assert(self@ =~= unconstrained());
            }
        }
        active
    }

    /// Whether two criteria values are the same filter specification.
    pub fn same_as(&self, other: &SearchCriteria) -> (r: bool)
        ensures
            r == (self@ == other@),
    {
        let r = bytes_equal(&self.app, &other.app) && bytes_equal(&self.domain, &other.domain)
            && bytes_equal(&self.country, &other.country) && bytes_equal(
            &self.as_name,
            &other.as_name,
        ) && self.only_favorites == other.only_favorites;
        proof {
            if r {
                assert(self@ =~= other@);
            }
        }
        r
    }
}

} // verus!
