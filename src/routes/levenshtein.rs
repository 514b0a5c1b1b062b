//! Bounded edit-distance search.
use vstd::prelude::*;
use crate::data::{GeoNamesSearchResultWithDist, ResultWithDistView};
use crate::error::QueryError;
use crate::index::GeoNamesSearcher;
use crate::order::is_ranking_of;
use crate::outside::{
    fst_search_levenshtein, is_ascii_text, levenshtein_dfa_accepts, levenshtein_dfa_states,
    within_distance,
};
use crate::routes::{
    filter_results, filter_view, filtered_dist, lemma_filtered_ranking_dist, FilterResults,
};
use crate::search::dist_results_view;

verus! {

/// The maximum distance when none is given.
pub fn _schemars_default_max_dist() -> (r: u32)
    ensures
        r == 1,
{
    1
}

/// The state limit when none is given.
pub fn _default_state_limit() -> (r: usize)
    ensures
        r == 10000,
{
    10000
}

/// The example query.
pub fn _schemars_default_levenshtein_query() -> (r: String)
    ensures
        r@ == "Frxnkfxrt"@,
{
    "Frxnkfxrt".to_owned()
}

/// The maximum distance when none is given, as an option.
pub fn _schemars_default_max_dist_one() -> (r: Option<u32>)
    ensures
        r == Some(1u32),
{
    Some(1)
}

/// The state limit when none is given, as an option.
pub fn _schemars_default_state_limit() -> (r: Option<usize>)
    ensures
        r == Some(10000usize),
{
    Some(10000)
}

/// The outcome of an edit-distance search: refused exactly when the
/// automaton needs more states than the limit; otherwise the results of the
/// terms the automaton accepts, ranked, then filtered. For an ASCII query
/// these are exactly the terms within the distance.
pub open spec fn levenshtein_outcome(
    searcher: GeoNamesSearcher,
    query: Seq<char>,
    state_limit: usize,
    max_dist: u32,
    filter: Option<FilterResults>,
    r: Result<Vec<GeoNamesSearchResultWithDist>, QueryError>,
) -> bool {
    &&& r is Err <==> levenshtein_dfa_states(query, max_dist) > state_limit
    &&& r is Err ==> r == Err::<Vec<GeoNamesSearchResultWithDist>, QueryError>(
        QueryError::TooManyStates(state_limit),
    )
    &&& r matches Ok(v) ==> {
        &&& is_ranking_of(
            dist_results_view(v@),
            filtered_dist(
                searcher.hit_results_dist(
                    searcher.accepted(|k: Seq<u8>| levenshtein_dfa_accepts(query, max_dist, k)),
                    query,
                    None,
                ),
                filter_view(filter),
            ),
            |x: ResultWithDistView| x.key(),
        )
        &&& forall|k: Seq<u8>| #[trigger]
            levenshtein_dfa_accepts(query, max_dist, k) ==> within_distance(
                query,
                max_dist as nat,
                k,
            )
        &&& is_ascii_text(query) ==> is_ranking_of(
            dist_results_view(v@),
            filtered_dist(
                searcher.hit_results_dist(
                    searcher.accepted(|k: Seq<u8>| within_distance(query, max_dist as nat, k)),
                    query,
                    None,
                ),
                filter_view(filter),
            ),
            |x: ResultWithDistView| x.key(),
        )
    }
}

/// The terms that fst's Levenshtein automaton accepts for `query` and
/// `max_dist` (for an ASCII query, exactly the terms within `max_dist` edits,
/// counted in characters), each expanded into one result per provenance with
/// its distance, ranked by distance, then match-key order, then filtered. Refused when the automaton
/// would need more than `state_limit` states.
pub fn levenshtein_inner(
    searcher: &GeoNamesSearcher,
    query: &str,
    state_limit: usize,
    max_dist: u32,
    filter: &Option<FilterResults>,
) -> (r: Result<Vec<GeoNamesSearchResultWithDist>, QueryError>)
    requires
        searcher.wf(),
    ensures
        levenshtein_outcome(*searcher, query@, state_limit, max_dist, *filter, r),
{
    match fst_search_levenshtein(searcher.transducer(), query, max_dist, state_limit) {
        Ok(hit_positions) => {
            proof {
                let accepts = |k: Seq<u8>| levenshtein_dfa_accepts(query@, max_dist, k);
                crate::outside::lemma_hits_ext(searcher.transducer_entries(), accepts, accepts);
                searcher.lemma_accepted_in_range(accepts);
                assert(hit_positions@ == searcher.accepted(accepts));
            }
            let found = searcher.search_with_dist(&hit_positions, query, None);
            let kept = filter_results(found, filter);
            proof {
                let accepts = |k: Seq<u8>| levenshtein_dfa_accepts(query@, max_dist, k);
                let within = |k: Seq<u8>| within_distance(query@, max_dist as nat, k);
                lemma_filtered_ranking_dist(
                    found@,
                    searcher.hit_results_dist(searcher.accepted(accepts), query@, None),
                    *filter,
                );
                if is_ascii_text(query@) {
                    assert forall|k: Seq<u8>| #[trigger] accepts(k) == within(k) by {
                        assert(levenshtein_dfa_accepts(query@, max_dist, k) == within_distance(
                            query@,
                            max_dist as nat,
                            k,
                        ));
                    }
                    crate::outside::lemma_hits_ext(searcher.transducer_entries(), accepts, within);
                    assert(searcher.accepted(accepts) == searcher.accepted(within));
                }
            }
            Ok(kept)
        },
        Err(_) => Err(QueryError::TooManyStates(state_limit)),
    }
}

/// Bounded edit-distance search; an empty query is refused before any
/// automaton is built.
pub fn levenshtein(
    searcher: &GeoNamesSearcher,
    query: &str,
    state_limit: usize,
    max_dist: u32,
    filter: &Option<FilterResults>,
) -> (r: Result<Vec<GeoNamesSearchResultWithDist>, QueryError>)
    requires
        searcher.wf(),
    ensures
        query@.len() == 0 ==> r matches Err(QueryError::EmptyQuery),
        query@.len() > 0 ==> levenshtein_outcome(*searcher, query@, state_limit, max_dist, *filter, r),
{
    if query.is_empty() {
        return Err(QueryError::EmptyQuery);
    }
    levenshtein_inner(searcher, query, state_limit, max_dist, filter)
}

} // verus!
