//! Filter evaluator: decides which records the active search criteria
//! keep, and filters a snapshot accordingly.
//!
//! A record matches iff every active constraint holds (logical AND):
//! each non-empty text filter must occur as a substring of the record's
//! corresponding resolved field, and if the favorites flag is set the
//! record must be a favorite. Empty criteria match everything; a record
//! whose field is still unresolved (empty) never matches an active
//! filter on that field.

use crate::criteria::{unconstrained, CriteriaModel, SearchCriteria};
use crate::record::{models_of, ConnectionRecord, RecordModel};
use crate::text::{contains_bytes, is_substring};
use vstd::prelude::*;

verus! {

/// One text filter viewed alone: inactive (empty), or a substring of
/// the record's corresponding field.
pub open spec fn field_passes(filter: Seq<u8>, field: Seq<u8>) -> bool {
    filter.len() == 0 || is_substring(filter, field)
}

/// The favorites constraint viewed alone.
pub open spec fn favorites_pass(c: CriteriaModel, r: RecordModel) -> bool {
    !c.only_favorites || r.favorite
}

/// A record matches the criteria: every individually-active constraint
/// holds, and no active constraint is vacuous.
pub open spec fn spec_matches(c: CriteriaModel, r: RecordModel) -> bool {
    &&& field_passes(c.app, r.app)
    &&& field_passes(c.domain, r.domain)
    &&& field_passes(c.country, r.country)
    &&& field_passes(c.as_name, r.as_name)
    &&& favorites_pass(c, r)
}

/// The matching predicate of one criteria value, as a function value.
pub open spec fn match_pred(c: CriteriaModel) -> spec_fn(RecordModel) -> bool {
    |r: RecordModel| spec_matches(c, r)
}

/// The subsequence of `s` whose records match `c`, in snapshot order.
pub open spec fn spec_filter(c: CriteriaModel, s: Seq<RecordModel>) -> Seq<RecordModel> {
    s.filter(match_pred(c))
}

/// Whether one record matches the criteria.
pub fn record_matches(criteria: &SearchCriteria, record: &ConnectionRecord) -> (r: bool)
    ensures
        r == spec_matches(criteria@, record@),
{
    (criteria.app.len() == 0 || contains_bytes(&record.app, &criteria.app)) && (criteria.domain.len()
        == 0 || contains_bytes(&record.domain, &criteria.domain)) && (criteria.country.len() == 0
        || contains_bytes(&record.country, &criteria.country)) && (criteria.as_name.len() == 0
        || contains_bytes(&record.as_name, &criteria.as_name)) && (!criteria.only_favorites
        || record.favorite)
}

/// The records of the snapshot that match the criteria, in snapshot
/// order.
pub fn filter_records(snapshot: &Vec<ConnectionRecord>, criteria: &SearchCriteria) -> (out: Vec<
    ConnectionRecord,
>)
    ensures
        models_of(out@) == spec_filter(criteria@, models_of(snapshot@)),
{
    broadcast use vstd::prelude::Seq::lemma_filter_push;

    let mut out: Vec<ConnectionRecord> = Vec::new();
    let mut i: usize = 0;
    proof {
        reveal(Seq::filter);
        assert(models_of(snapshot@).subrange(0, 0) =~= Seq::<RecordModel>::empty());
        assert(models_of(out@) =~= Seq::<RecordModel>::empty());
        assert(models_of(out@) == models_of(snapshot@).subrange(0, 0).filter(match_pred(criteria@)));
    }
    while i < snapshot.len()
        invariant
            i <= snapshot@.len(),
            models_of(out@) == models_of(snapshot@).subrange(0, i as int).filter(
                match_pred(criteria@),
            ),
        decreases snapshot@.len() - i,
    {
        let ghost prefix = models_of(snapshot@).subrange(0, i as int);
        let ghost prev = models_of(out@);
        if record_matches(criteria, &snapshot[i]) {
            out.push(snapshot[i].duplicate());
            proof {
                assert(models_of(out@) =~= prev.push(snapshot@[i as int]@));
            }
        }
        proof {
            let x = snapshot@[i as int]@;
            assert(models_of(snapshot@).subrange(0, i + 1 as int) =~= prefix.push(x));
            assert(match_pred(criteria@)(x) == spec_matches(criteria@, x));
            prefix.lemma_filter_push(x, match_pred(criteria@));
            if spec_matches(criteria@, x) {
                assert(models_of(out@) == prefix.filter(match_pred(criteria@)).push(x));
            } else {
                assert(models_of(out@) == prefix.filter(match_pred(criteria@)));
            }
            assert(models_of(out@) == prefix.push(x).filter(match_pred(criteria@)));
        }
        i = i + 1;
    }
    proof {
        assert(models_of(snapshot@).subrange(0, snapshot@.len() as int) =~= models_of(snapshot@));
    }
    out
}

/// Monotonicity of filtering: if `strict` matches a record only where
/// `loose` also matches it, `strict` keeps at most as many records of
/// any snapshot as `loose` does.
pub proof fn lemma_match_count_monotone(loose: CriteriaModel, strict: CriteriaModel, s: Seq<RecordModel>)
    requires
        forall|r: RecordModel| spec_matches(strict, r) ==> spec_matches(loose, r),
    ensures
        spec_filter(strict, s).len() <= spec_filter(loose, s).len(),
    decreases s.len(),
{
    reveal(Seq::filter);
    if s.len() > 0 {
        lemma_match_count_monotone(loose, strict, s.drop_last());
    }
}

/// A record matches combined criteria exactly when it passes each
/// individually-active constraint: the four text filters viewed alone
/// and the favorites flag viewed alone, conjoined.
pub proof fn lemma_matches_decomposition(c: CriteriaModel, r: RecordModel)
    ensures
        spec_matches(c, r) <==> (field_passes(c.app, r.app) && field_passes(c.domain, r.domain)
            && field_passes(c.country, r.country) && field_passes(c.as_name, r.as_name)
            && favorites_pass(c, r)),
{
}

/// One criteria value extends another: every constraint active in the
/// weaker value is active, with the same filter text, in the stronger
/// one. The stronger value may activate further constraints.
pub open spec fn criteria_extends(stronger: CriteriaModel, weaker: CriteriaModel) -> bool {
    &&& (weaker.app.len() == 0 || weaker.app == stronger.app)
    &&& (weaker.domain.len() == 0 || weaker.domain == stronger.domain)
    &&& (weaker.country.len() == 0 || weaker.country == stronger.country)
    &&& (weaker.as_name.len() == 0 || weaker.as_name == stronger.as_name)
    &&& (weaker.only_favorites ==> stronger.only_favorites)
}

/// AND semantics: a record matches iff each individually-active
/// constraint passes, so activating further constraints never widens
/// the match set: whatever matches the extended criteria already
/// matched the original ones, and the match count cannot grow.
pub proof fn lemma_and_semantics(stronger: CriteriaModel, weaker: CriteriaModel, s: Seq<RecordModel>)
    requires
        criteria_extends(stronger, weaker),
    ensures
        forall|r: RecordModel| spec_matches(stronger, r) ==> spec_matches(weaker, r),
        spec_filter(stronger, s).len() <= spec_filter(weaker, s).len(),
{
    lemma_match_count_monotone(weaker, stronger, s);
}

/// Idempotence of clearing: the default, unconstrained criteria match
/// every record, so filtering with them restores the full snapshot.
pub proof fn lemma_unconstrained_keeps_all(s: Seq<RecordModel>)
    ensures
        forall|r: RecordModel| spec_matches(unconstrained(), r),
        spec_filter(unconstrained(), s) == s,
    decreases s.len(),
{
    reveal(Seq::filter);
    if s.len() > 0 {
        lemma_unconstrained_keeps_all(s.drop_last());
        assert(spec_filter(unconstrained(), s) =~= s);
    }
    else {
        assert(spec_filter(unconstrained(), s) =~= s);
    }
}

} // verus!
