//! The query entry points, each with its request defaults, and the
//! attribute filter applied to ranked results.
use vstd::prelude::*;
use crate::data::{
    Entry, EntryView, GeoNamesEntry, GeoNamesSearchResult, GeoNamesSearchResultWithDist, ResultView,
    ResultWithDistView,
};
use crate::search::{dist_results_view, results_view};
use crate::index::GeoNamesSearcher;
use crate::order::{class_of, is_ranking_of, sorted_by};
use crate::outside::hits;

pub mod find;
pub mod fuzzy;
pub mod levenshtein;
pub mod regex;
pub mod starts_with;

verus! {

/// Restricts results to records with the given feature class, feature code
/// and country code; an attribute left out does not restrict.
#[derive(Debug, Clone, PartialEq, Eq)]
pub struct FilterResults {
    pub feature_class: Option<String>,
    pub feature_code: Option<String>,
    pub country_code: Option<String>,
}

pub struct FilterView {
    pub feature_class: Option<Seq<char>>,
    pub feature_code: Option<Seq<char>>,
    pub country_code: Option<Seq<char>>,
}

pub open spec fn text_opt(o: Option<String>) -> Option<Seq<char>> {
    match o {
        Some(s) => Some(s@),
        None => None,
    }
}

impl View for FilterResults {
    type V = FilterView;

    open spec fn view(&self) -> FilterView {
        FilterView {
            feature_class: text_opt(self.feature_class),
            feature_code: text_opt(self.feature_code),
            country_code: text_opt(self.country_code),
        }
    }
}

/// The attributes a filter can restrict.
#[derive(Debug, Clone, Copy, PartialEq, Eq)]
pub enum Attribute {
    FeatureClass,
    FeatureCode,
    CountryCode,
}

pub open spec fn attribute_of(a: Attribute, e: EntryView) -> Seq<char> {
    match a {
        Attribute::FeatureClass => e.feature_class,
        Attribute::FeatureCode => e.feature_code,
        Attribute::CountryCode => e.country_code,
    }
}

/// An attribute that is asked for must be equal; one that is not passes.
pub open spec fn attribute_ok(want: Option<Seq<char>>, have: Seq<char>) -> bool {
    want is None || want->Some_0 == have
}

/// The filter lets the record through: every attribute it gives is equal.
pub open spec fn admits(filter: Option<FilterView>, e: EntryView) -> bool {
    match filter {
        None => true,
        Some(f) => {
            &&& attribute_ok(f.feature_class, e.feature_class)
            &&& attribute_ok(f.feature_code, e.feature_code)
            &&& attribute_ok(f.country_code, e.country_code)
        },
    }
}

pub open spec fn filter_view(filter: Option<FilterResults>) -> Option<FilterView> {
    match filter {
        Some(f) => Some(f@),
        None => None,
    }
}

/// The results the filter lets through, in their order.
pub open spec fn filtered(s: Seq<ResultView>, filter: Option<FilterView>) -> Seq<ResultView> {
    s.filter(|v: ResultView| admits(filter, v.entry))
}

/// The results with distances the filter lets through, in their order.
pub open spec fn filtered_dist(s: Seq<ResultWithDistView>, filter: Option<FilterView>) -> Seq<
    ResultWithDistView,
> {
    s.filter(|v: ResultWithDistView| admits(filter, v.entry))
}

fn attribute_matches(e: &GeoNamesEntry, a: Attribute, value: &String) -> (r: bool)
    ensures
        r == (attribute_of(a, e@) == value@),
{
    match a {
        Attribute::FeatureClass => e.feature_class == *value,
        Attribute::FeatureCode => e.feature_code == *value,
        Attribute::CountryCode => e.country_code == *value,
    }
}

/// Relies on `Vec::retain`: keeps, in their order, the items the predicate accepts.
#[verifier::external_body]
fn retain_attribute<T: Entry>(v: &mut Vec<T>, a: Attribute, value: &String)
    ensures
        final(v)@ == old(v)@.filter(|x: T| attribute_of(a, x.entry_view()) == value@),
{
    v.retain(|r| attribute_matches(r.entry(), a, value));
}

/// Filtering twice is filtering by both predicates at once.
pub proof fn lemma_filter_twice<A>(
    s: Seq<A>,
    p: spec_fn(A) -> bool,
    q: spec_fn(A) -> bool,
    both: spec_fn(A) -> bool,
)
    requires
        forall|x: A| #[trigger] both(x) == (p(x) && q(x)),
    ensures
        s.filter(p).filter(q) == s.filter(both),
    decreases s.len(),
{
    reveal(Seq::filter);
    if s.len() > 0 {
        lemma_filter_twice(s.drop_last(), p, q, both);
        assert(both(s.last()) == (p(s.last()) && q(s.last())));
        if p(s.last()) {
            assert(s.filter(p).drop_last() =~= s.drop_last().filter(p));
        }
    } else {
        assert(s.filter(p).filter(q) =~= s.filter(both));
    }
}

/// Filters by two predicates commute, and are the filter by both.
pub proof fn lemma_attribute_filters_commute<A>(s: Seq<A>, p: spec_fn(A) -> bool, q: spec_fn(A) -> bool)
    ensures
        s.filter(p).filter(q) == s.filter(q).filter(p),
        s.filter(p).filter(q) == s.filter(|x: A| p(x) && q(x)),
{
    let both = |x: A| p(x) && q(x);
    lemma_filter_twice(s, p, q, both);
    lemma_filter_twice(s, q, p, both);
}

/// Filters by predicates that agree everywhere are equal.
pub proof fn lemma_filter_ext<A>(s: Seq<A>, p: spec_fn(A) -> bool, q: spec_fn(A) -> bool)
    requires
        forall|x: A| #[trigger] p(x) == q(x),
    ensures
        s.filter(p) == s.filter(q),
    decreases s.len(),
{
    reveal(Seq::filter);
    if s.len() > 0 {
        lemma_filter_ext(s.drop_last(), p, q);
    }
}

/// A property of every item holds of every item the filter keeps.
pub proof fn lemma_filter_holds<A>(s: Seq<A>, p: spec_fn(A) -> bool, prop: spec_fn(A) -> bool)
    requires
        forall|i: int| 0 <= i < s.len() ==> #[trigger] prop(s[i]),
    ensures
        forall|i: int| 0 <= i < s.filter(p).len() ==> #[trigger] prop(s.filter(p)[i]),
    decreases s.len(),
{
    reveal(Seq::filter);
    if s.len() > 0 {
        let d = s.drop_last();
        assert forall|i: int| 0 <= i < d.len() implies #[trigger] prop(d[i]) by {
            assert(prop(s[i]));
        }
        lemma_filter_holds(d, p, prop);
        assert(prop(s[s.len() - 1]));
        let f = d.filter(p);
        if p(s.last()) {
            assert(s.filter(p) == f.push(s.last()));
            assert forall|i: int| 0 <= i < s.filter(p).len() implies #[trigger] prop(s.filter(p)[i]) by {
                if i < f.len() {
                    assert(s.filter(p)[i] == f[i]);
                }
            }
        } else {
            assert(s.filter(p) == f);
        }
    }
}

/// Filtering a sorted list leaves it sorted.
pub proof fn lemma_filter_sorted<A>(s: Seq<A>, p: spec_fn(A) -> bool, key: spec_fn(A) -> Seq<int>)
    requires
        sorted_by(s, key),
    ensures
        sorted_by(s.filter(p), key),
    decreases s.len(),
{
    reveal(Seq::filter);
    if s.len() > 0 {
        let d = s.drop_last();
        assert(sorted_by(d, key));
        lemma_filter_sorted(d, p, key);
        if p(s.last()) {
            let last = s.last();
            let below = |x: A| !crate::order::seq_lt(key(last), key(x));
            assert forall|i: int| 0 <= i < d.len() implies #[trigger] below(d[i]) by {
                assert(s[i] == d[i]);
                assert(!crate::order::seq_lt(key(s[s.len() - 1]), key(s[i])));
            }
            lemma_filter_holds(d, p, below);
            let f = d.filter(p);
            assert forall|i: int, j: int| 0 <= i < j < f.push(last).len() implies !crate::order::seq_lt(
                key(f.push(last)[j]),
                key(f.push(last)[i]),
            ) by {
                if j == f.len() {
                    assert(below(f[i]));
                }
            }
        }
    }
}

/// Filtering commutes with ranking: the filter of a ranking is a ranking of
/// the filter.
pub proof fn lemma_filter_ranking<A>(
    out: Seq<A>,
    inp: Seq<A>,
    p: spec_fn(A) -> bool,
    key: spec_fn(A) -> Seq<int>,
)
    requires
        is_ranking_of(out, inp, key),
    ensures
        is_ranking_of(out.filter(p), inp.filter(p), key),
{
    lemma_filter_sorted(out, p, key);
    assert forall|k: Seq<int>| #[trigger] class_of(out.filter(p), key, k) == class_of(
        inp.filter(p),
        key,
        k,
    ) by {
        let c = |x: A| key(x) == k;
        lemma_attribute_filters_commute(out, p, c);
        lemma_attribute_filters_commute(inp, p, c);
        assert(class_of(out, key, k) == class_of(inp, key, k));
        assert(class_of(out, key, k) =~= out.filter(c));
        assert(class_of(inp, key, k) =~= inp.filter(c));
        assert(class_of(out.filter(p), key, k) =~= out.filter(p).filter(c));
        assert(class_of(inp.filter(p), key, k) =~= inp.filter(p).filter(c));
    }
}

/// Keeps the results whose records the filter admits, in their order: each
/// attribute it gives in turn, as a conjunction.
pub fn filter_results<T: Entry>(results: Vec<T>, filter: &Option<FilterResults>) -> (r: Vec<T>)
    ensures
        r@ == results@.filter(|x: T| admits(filter_view(*filter), x.entry_view())),
{
    let mut results = results;
    let ghost unfiltered = results@;
    let ghost fv = filter_view(*filter);
    let ghost adm = |x: T| admits(fv, x.entry_view());
    match filter {
        None => {
            proof {
                lemma_filter_all(unfiltered, adm);
            }
        },
        Some(f) => {
            let ghost pc = |x: T| attribute_ok(f@.feature_class, x.entry_view().feature_class);
            let ghost pd = |x: T| attribute_ok(f@.feature_code, x.entry_view().feature_code);
            let ghost pk = |x: T| attribute_ok(f@.country_code, x.entry_view().country_code);
            if let Some(feature_class) = &f.feature_class {
                retain_attribute(&mut results, Attribute::FeatureClass, feature_class);
                proof {
                    lemma_filter_ext(unfiltered, |x: T| attribute_of(Attribute::FeatureClass, x.entry_view()) == feature_class@, pc);
                }
            } else {
                proof {
                    lemma_filter_all(unfiltered, pc);
                }
            }
            let ghost by_class = results@;
            assert(by_class == unfiltered.filter(pc));
            if let Some(feature_code) = &f.feature_code {
                retain_attribute(&mut results, Attribute::FeatureCode, feature_code);
                proof {
                    lemma_filter_ext(by_class, |x: T| attribute_of(Attribute::FeatureCode, x.entry_view()) == feature_code@, pd);
                }
            } else {
                proof {
                    lemma_filter_all(by_class, pd);
                }
            }
            let ghost by_code = results@;
            assert(by_code == by_class.filter(pd));
            if let Some(country_code) = &f.country_code {
                retain_attribute(&mut results, Attribute::CountryCode, country_code);
                proof {
                    lemma_filter_ext(by_code, |x: T| attribute_of(Attribute::CountryCode, x.entry_view()) == country_code@, pk);
                }
            } else {
                proof {
                    lemma_filter_all(by_code, pk);
                }
            }
            proof {
                let cd = |x: T| pc(x) && pd(x);
                lemma_filter_twice(unfiltered, pc, pd, cd);
                lemma_filter_twice(unfiltered, cd, pk, adm);
            }
        },
    }
    results
}

/// Filtering by a predicate that always holds keeps everything.
pub proof fn lemma_filter_all<A>(s: Seq<A>, p: spec_fn(A) -> bool)
    requires
        forall|x: A| #[trigger] p(x),
    ensures
        s.filter(p) == s,
    decreases s.len(),
{
    reveal(Seq::filter);
    if s.len() > 0 {
        lemma_filter_all(s.drop_last(), p);
        assert(p(s.last()));
        assert(s.drop_last().push(s.last()) =~= s);
    } else {
        assert(s.filter(p) =~= s);
    }
}

/// The filter of ranked results is the ranking of the filtered results.
pub proof fn lemma_filtered_ranking(
    v: Seq<GeoNamesSearchResult>,
    h: Seq<ResultView>,
    filter: Option<FilterResults>,
)
    requires
        is_ranking_of(results_view(v), h, |x: ResultView| x.key()),
    ensures
        is_ranking_of(
            results_view(v.filter(|x: GeoNamesSearchResult| admits(filter_view(filter), x.entry_view()))),
            filtered(h, filter_view(filter)),
            |x: ResultView| x.key(),
        ),
{
    let fv = filter_view(filter);
    let p = |x: GeoNamesSearchResult| admits(fv, x.entry_view());
    let q = |x: ResultView| admits(fv, x.entry);
    assert forall|x: GeoNamesSearchResult| #[trigger] p(x) == q(x@) by {}
    crate::order::lemma_filter_map(v, |x: GeoNamesSearchResult| x@, p, q);
    lemma_filter_ranking(results_view(v), h, q, |x: ResultView| x.key());
}

/// The same for results with distances.
pub proof fn lemma_filtered_ranking_dist(
    v: Seq<GeoNamesSearchResultWithDist>,
    h: Seq<ResultWithDistView>,
    filter: Option<FilterResults>,
)
    requires
        is_ranking_of(dist_results_view(v), h, |x: ResultWithDistView| x.key()),
    ensures
        is_ranking_of(
            dist_results_view(
                v.filter(|x: GeoNamesSearchResultWithDist| admits(filter_view(filter), x.entry_view())),
            ),
            filtered_dist(h, filter_view(filter)),
            |x: ResultWithDistView| x.key(),
        ),
{
    let fv = filter_view(filter);
    let p = |x: GeoNamesSearchResultWithDist| admits(fv, x.entry_view());
    let q = |x: ResultWithDistView| admits(fv, x.entry);
    assert forall|x: GeoNamesSearchResultWithDist| #[trigger] p(x) == q(x@) by {}
    crate::order::lemma_filter_map(v, |x: GeoNamesSearchResultWithDist| x@, p, q);
    lemma_filter_ranking(dist_results_view(v), h, q, |x: ResultWithDistView| x.key());
}

/// No results filter.
pub fn _default_string_none() -> (r: Option<String>)
    ensures
        r is None,
{
    None
}

/// By default, no filter.
pub fn _schemars_default_filter() -> (r: Option<FilterResults>)
    ensures
        r is None,
{
    None
}

} // verus!
