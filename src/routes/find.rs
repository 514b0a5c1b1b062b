//! Exact lookup.
use vstd::prelude::*;
use crate::data::GeoNamesSearchResult;
use crate::error::QueryError;
use crate::index::GeoNamesSearcher;
use crate::routes::{filter_results, filter_view, filtered, FilterResults, FilterView};
use crate::search::results_view;

verus! {

/// The example query.
pub fn _schemars_default_query() -> (r: String)
    ensures
        r@ == "Feldberg"@,
{
    "Feldberg".to_owned()
}

/// The example filter: feature class `T` in country `DE`.
pub fn _schemars_default_filter_class_t() -> (r: Option<FilterResults>)
    ensures
        filter_view(r) == Some(
            FilterView {
                feature_class: Some("T"@),
                feature_code: None,
                country_code: Some("DE"@),
            },
        ),
{
    Some(
        FilterResults {
            feature_class: Some("T".to_owned()),
            feature_code: None,
            country_code: Some("DE".to_owned()),
        },
    )
}

/// The records named exactly `query`, one result per provenance of the
/// term in its stored order, that the filter admits. An empty query is refused.
pub fn find(searcher: &GeoNamesSearcher, query: &str, filter: &Option<FilterResults>) -> (r: Result<
    Vec<GeoNamesSearchResult>,
    QueryError,
>)
    requires
        searcher.wf(),
    ensures
        query@.len() == 0 ==> r matches Err(QueryError::EmptyQuery),
        query@.len() > 0 ==> (r matches Ok(v) && results_view(v@) == filtered(
            searcher.exact(query@),
            filter_view(*filter),
        )),
{
    if query.is_empty() {
        return Err(QueryError::EmptyQuery);
    }
    let found = searcher.find(query);
    let ghost fv = filter_view(*filter);
    let kept = filter_results(found, filter);
    proof {
        let p = |x: GeoNamesSearchResult| crate::routes::admits(fv, x.entry@);
        let q = |x: crate::data::ResultView| crate::routes::admits(fv, x.entry);
        assert forall|x: GeoNamesSearchResult| #[trigger] p(x) == q(x@) by {}
        crate::order::lemma_filter_map(found@, |x: GeoNamesSearchResult| x@, p, q);
        crate::routes::lemma_filter_ext(
            found@,
            |x: GeoNamesSearchResult| crate::routes::admits(fv, crate::data::Entry::entry_view(&x)),
            p,
        );
    }
    Ok(kept)
}

} // verus!
