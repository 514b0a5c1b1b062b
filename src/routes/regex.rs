//! Regular-expression search.
use vstd::prelude::*;
use crate::data::{GeoNamesSearchResult, ResultView};
use crate::error::QueryError;
use crate::index::GeoNamesSearcher;
use crate::order::is_ranking_of;
use crate::outside::{fst_search_regex, regex_compiles, regex_matches, RegexSearchAutomaton};
use crate::routes::{filter_results, filter_view, filtered, lemma_filtered_ranking, FilterResults};
use crate::search::results_view;

verus! {

/// The example pattern.
pub fn _schemars_default_regex() -> (r: String)
    ensures
        r@ == "^Frankfurt.*"@,
{
    "^Frankfurt.*".to_owned()
}

/// The terms that the compiled pattern matches, expanded into one result
/// per provenance, ranked in match-key order, then filtered. An empty
/// pattern is refused, and so is one that does not compile.
pub fn regex(searcher: &GeoNamesSearcher, pattern: &str, filter: &Option<FilterResults>) -> (r:
    Result<Vec<GeoNamesSearchResult>, QueryError>)
    requires
        searcher.wf(),
    ensures
        pattern@.len() == 0 ==> r matches Err(QueryError::EmptyQuery),
        pattern@.len() > 0 && !regex_compiles(pattern@) ==> r matches Err(
            QueryError::InvalidRegex(_),
        ),
        pattern@.len() > 0 && regex_compiles(pattern@) ==> (r matches Ok(v) && is_ranking_of(
            results_view(v@),
            filtered(
                searcher.hit_results(searcher.accepted(|k: Seq<u8>| regex_matches(pattern@, k))),
                filter_view(*filter),
            ),
            |x: ResultView| x.key(),
        )),
{
    if pattern.is_empty() {
        return Err(QueryError::EmptyQuery);
    }
    match RegexSearchAutomaton::from_pattern(pattern) {
        Ok(aut) => {
            let hit_positions = fst_search_regex(searcher.transducer(), &aut);
            proof {
                let accepts = |k: Seq<u8>| regex_matches(pattern@, k);
                crate::outside::lemma_hits_ext(
                    searcher.transducer_entries(),
                    |k: Seq<u8>| regex_matches(aut.pattern(), k),
                    accepts,
                );
                searcher.lemma_accepted_in_range(accepts);
                assert(hit_positions@ == searcher.accepted(accepts));
            }
            let found = searcher.search(&hit_positions);
            let kept = filter_results(found, filter);
            proof {
                lemma_filtered_ranking(
                    found@,
                    searcher.hit_results(searcher.accepted(|k: Seq<u8>| regex_matches(pattern@, k))),
                    *filter,
                );
            }
            Ok(kept)
        },
        Err(message) => Err(QueryError::InvalidRegex(message)),
    }
}

} // verus!
