//! Prefix search.
use vstd::prelude::*;
use vstd::utf8::encode_utf8;
use crate::data::{GeoNamesSearchResultWithDist, ResultWithDistView};
use crate::error::QueryError;
use crate::index::GeoNamesSearcher;
use crate::order::is_ranking_of;
use crate::outside::{is_prefix, fst_search_prefix};
use crate::routes::{
    filter_results, filter_view, filtered_dist, lemma_filtered_ranking_dist, FilterResults,
};
use crate::search::dist_results_view;

verus! {

/// The example query.
pub fn _schemars_default_query() -> (r: String)
    ensures
        r@ == "Frankfurt"@,
{
    "Frankfurt".to_owned()
}

/// The terms that begin with the bytes of `query`, each
/// expanded into one result per provenance with its edit distance from
/// `query`; a `max_dist` above zero drops the terms further away. Ranked by
/// distance, then match-key order, then filtered. An empty query is refused.
pub fn starts_with(
    searcher: &GeoNamesSearcher,
    query: &str,
    max_dist: u32,
    filter: &Option<FilterResults>,
) -> (r: Result<Vec<GeoNamesSearchResultWithDist>, QueryError>)
    requires
        searcher.wf(),
    ensures
        query@.len() == 0 ==> r matches Err(QueryError::EmptyQuery),
        query@.len() > 0 ==> (r matches Ok(v) && is_ranking_of(
            dist_results_view(v@),
            filtered_dist(
                searcher.hit_results_dist(
                    searcher.accepted(|k: Seq<u8>| is_prefix(encode_utf8(query@), k)),
                    query@,
                    Some(max_dist),
                ),
                filter_view(*filter),
            ),
            |x: ResultWithDistView| x.key(),
        )),
{
    if query.is_empty() {
        return Err(QueryError::EmptyQuery);
    }
    let hit_positions = fst_search_prefix(searcher.transducer(), query);
    proof {
        let accepts = |k: Seq<u8>| is_prefix(encode_utf8(query@), k);
        crate::outside::lemma_hits_ext(searcher.transducer_entries(), accepts, accepts);
        searcher.lemma_accepted_in_range(accepts);
        assert(hit_positions@ == searcher.accepted(accepts));
    }
    let found = searcher.search_with_dist(&hit_positions, query, Some(max_dist));
    let kept = filter_results(found, filter);
    proof {
        lemma_filtered_ranking_dist(
            found@,
            searcher.hit_results_dist(
                searcher.accepted(|k: Seq<u8>| is_prefix(encode_utf8(query@), k)),
                query@,
                Some(max_dist),
            ),
            *filter,
        );
    }
    Ok(kept)
}

} // verus!
