//! Queries over the index: exact lookup, and the expansion, distance
//! filtering and ranking of the terms that a traversal of the transducer hits.
use vstd::prelude::*;
use vstd::utf8::encode_utf8;
use crate::data::{
    EntryView, GeoNamesEntry, GeoNamesSearchResult, GeoNamesSearchResultWithDist, MatchType,
    MatchTypeView, ResultView, ResultWithDistView,
};
use crate::index::{reveal_fields, GeoNamesSearcher};
use crate::ingest::store_view;
use crate::order::{is_ranking_of, lemma_ranking_map, term_key, Ranked};
use crate::outside::{
    edit_distance, fst_entries, fst_get, hits, levenshtein_distance, sort_ranked,
};

verus! {

broadcast use vstd::std_specs::hash::group_hash_axioms;

/// The view of a result list.
pub open spec fn results_view(s: Seq<GeoNamesSearchResult>) -> Seq<ResultView> {
    s.map_values(|r: GeoNamesSearchResult| r@)
}

/// The view of a result list with distances.
pub open spec fn dist_results_view(s: Seq<GeoNamesSearchResultWithDist>) -> Seq<ResultWithDistView> {
    s.map_values(|r: GeoNamesSearchResultWithDist| r@)
}

/// Whether the distance filter drops a term at distance `d`: only a
/// maximum that is given and not zero filters.
pub open spec fn exceeds(max_dist: Option<u32>, d: nat) -> bool {
    max_dist matches Some(m) && m > 0 && d > m
}

impl GeoNamesSearcher {
    /// The position of a term in the index, if it is there.
    pub open spec fn position_of(&self, t: Seq<char>) -> Option<int> {
        last_position(self.terms(), t)
    }

    /// The results of the term at position `g`, named `name`: one per
    /// provenance of its group, in group order, with the record it names.
    pub open spec fn expand(&self, g: int, name: Seq<char>) -> Seq<ResultView> {
        self.groups()[g].map_values(
            |m: MatchTypeView| ResultView { name, typ: m, entry: self.store()[m.id()] },
        )
    }

    /// The same with a distance.
    pub open spec fn expand_dist(&self, g: int, name: Seq<char>, d: nat) -> Seq<ResultWithDistView> {
        self.groups()[g].map_values(
            |m: MatchTypeView| ResultWithDistView {
                name,
                typ: m,
                entry: self.store()[m.id()],
                distance: d,
            },
        )
    }

    /// The results of exact lookup: those of the term equal to the query, or none.
    pub open spec fn exact(&self, q: Seq<char>) -> Seq<ResultView> {
        match self.position_of(q) {
            Some(g) => self.expand(g, q),
            None => seq![],
        }
    }

    /// The results of the hit positions, in the order of the hits.
    pub open spec fn hit_results(&self, hs: Seq<u64>) -> Seq<ResultView>
        decreases hs.len(),
    {
        if hs.len() == 0 {
            seq![]
        } else {
            let g = hs.last() as int;
            self.hit_results(hs.drop_last()) + self.expand(g, self.terms()[g])
        }
    }

    /// The results of the hit positions with the edit distance from `raw` to
    /// each term, less the terms that the maximum distance drops.
    pub open spec fn hit_results_dist(&self, hs: Seq<u64>, raw: Seq<char>, max_dist: Option<u32>) -> Seq<
        ResultWithDistView,
    >
        decreases hs.len(),
    {
        if hs.len() == 0 {
            seq![]
        } else {
            let g = hs.last() as int;
            let t = self.terms()[g];
            let d = edit_distance(raw, t);
            if exceeds(max_dist, d) {
                self.hit_results_dist(hs.drop_last(), raw, max_dist)
            } else {
                self.hit_results_dist(hs.drop_last(), raw, max_dist) + self.expand_dist(g, t, d)
            }
        }
    }

    /// The positions of the terms whose bytes `accepts` holds of, in term order.
    pub open spec fn accepted(&self, accepts: spec_fn(Seq<u8>) -> bool) -> Seq<u64> {
        hits(self.transducer_entries(), accepts)
    }

    /// Every position a traversal hits is a position of the index.
    pub proof fn lemma_accepted_in_range(&self, accepts: spec_fn(Seq<u8>) -> bool)
        requires
            self.wf(),
        ensures
            forall|i: int|
                0 <= i < self.accepted(accepts).len() ==> #[trigger] self.accepted(accepts)[i]
                    < self.terms().len(),
    {
        let entries = self.transducer_entries();
        let n = self.terms().len();
        let inside = |e: (Seq<u8>, u64)| e.1 < n;
        let p = |e: (Seq<u8>, u64)| accepts(e.0);
        assert forall|i: int| 0 <= i < entries.len() implies #[trigger] inside(entries[i]) by {}
        crate::routes::lemma_filter_holds(entries, p, inside);
        let f = entries.filter(p);
        assert forall|i: int| 0 <= i < self.accepted(accepts).len() implies #[trigger] self.accepted(accepts)[i] < n by {
            assert(self.accepted(accepts)[i] == f[i].1);
            assert(inside(f[i]));
        }
    }

    /// The record with this identifier, if the store holds one.
    pub fn get(&self, id: u64) -> (r: Option<&GeoNamesEntry>)
        requires
            self.wf(),
        ensures
            match r {
                Some(e) => self.store().contains_key(id) && e@ == self.store()[id],
                None => !self.store().contains_key(id),
            },
    {
        self.entry_of(id)
    }

    fn entry_of(&self, id: u64) -> (r: Option<&GeoNamesEntry>)
        ensures
            match r {
                Some(e) => self.store().contains_key(id) && e@ == self.store()[id],
                None => !self.store().contains_key(id),
            },
    {
        proof {
            reveal_fields(self);
        }
        let r = self.geonames.get(&id);
        proof {
            if let Some(e) = r {
                assert(store_view(self.geonames@)[id] == e@);
            }
        }
        r
    }

    /// Appends the results of the term at position `g`, named `name`.
    fn expand_into(&self, g: usize, name: &str, out: &mut Vec<GeoNamesSearchResult>)
        requires
            self.wf(),
            g < self.terms().len(),
        ensures
            results_view(final(out)@) == results_view(old(out)@) + self.expand(g as int, name@),
    {
        proof {
            reveal_fields(self);
        }
        let group = &self.search_matches[g];
        let ghost start = results_view(out@);
        let mut k: usize = 0;
        while k < group.len()
            invariant
                self.wf(),
                g < self.terms().len(),
                group == self.search_matches@[g as int],
                0 <= k <= group.len(),
                results_view(out@) == start + self.expand(g as int, name@).subrange(0, k as int),
            decreases group.len() - k,
        {
            let typ = &group[k];
            proof {
                reveal_fields(self);
                assert(self.groups()[g as int][k as int] == typ@);
            }
            let entry = self.entry_of(typ.id()).unwrap();
            let ghost before = results_view(out@);
            out.push(GeoNamesSearchResult::new(name, typ, entry));
            proof {
                assert(self.expand(g as int, name@).subrange(0, k + 1) =~= self.expand(
                    g as int,
                    name@,
                ).subrange(0, k as int).push(self.expand(g as int, name@)[k as int]));
                assert(results_view(out@) =~= before.push(self.expand(g as int, name@)[k as int]));
            }
            k = k + 1;
        }
        proof {
            reveal_fields(self);
            assert(self.expand(g as int, name@).subrange(0, k as int) =~= self.expand(g as int, name@));
        }
    }

    /// Appends the results of the term at position `g`, named `name`, at distance `d`.
    fn expand_dist_into(&self, g: usize, name: &str, d: usize, out: &mut Vec<GeoNamesSearchResultWithDist>)
        requires
            self.wf(),
            g < self.terms().len(),
        ensures
            dist_results_view(final(out)@) == dist_results_view(old(out)@) + self.expand_dist(
                g as int,
                name@,
                d as nat,
            ),
    {
        proof {
            reveal_fields(self);
        }
        let group = &self.search_matches[g];
        let ghost start = dist_results_view(out@);
        let ghost exp = self.expand_dist(g as int, name@, d as nat);
        let mut k: usize = 0;
        while k < group.len()
            invariant
                self.wf(),
                g < self.terms().len(),
                group == self.search_matches@[g as int],
                exp == self.expand_dist(g as int, name@, d as nat),
                0 <= k <= group.len(),
                dist_results_view(out@) == start + exp.subrange(0, k as int),
            decreases group.len() - k,
        {
            let typ = &group[k];
            proof {
                reveal_fields(self);
                assert(self.groups()[g as int][k as int] == typ@);
            }
            let entry = self.entry_of(typ.id()).unwrap();
            let ghost before = dist_results_view(out@);
            out.push(GeoNamesSearchResultWithDist::new(name, typ, entry, d));
            proof {
                assert(exp.subrange(0, k + 1) =~= exp.subrange(0, k as int).push(exp[k as int]));
                assert(dist_results_view(out@) =~= before.push(exp[k as int]));
            }
            k = k + 1;
        }
        proof {
            reveal_fields(self);
            assert(exp.subrange(0, k as int) =~= exp);
        }
    }

    /// Exact lookup: the results of the term equal to the query, one per
    /// provenance in group order; none when the index lacks the term.
    pub fn find(&self, query: &str) -> (r: Vec<GeoNamesSearchResult>)
        requires
            self.wf(),
        ensures
            results_view(r@) == self.exact(query@),
    {
        let mut out: Vec<GeoNamesSearchResult> = Vec::new();
        let found = fst_get(&self.map, query);
        proof {
            reveal_fields(self);
        }
        let n = self.terms.len();
        match found {
            Some(v) => {
                proof {
                    assert(self.terms().len() == n);
                    let i = choose|i: int|
                        0 <= i < fst_entries(self.map).len() && #[trigger] fst_entries(self.map)[i] == (
                            encode_utf8(query@),
                            v,
                        );
                    assert(self.transducer_entries()[i] == (encode_utf8(self.terms()[i]), i as u64));
                    assert(v as int == i);
                    lemma_bytes_injective(self.terms()[i], query@);
                    self.lemma_position(i);
                    assert(v < n);
                }
                self.expand_into(v as usize, query, &mut out);
                assert(results_view(out@) =~= results_view(Seq::<GeoNamesSearchResult>::empty()) + self.expand(v as int, query@));
                assert(results_view(out@) =~= self.exact(query@));
            },
            None => {
                proof {
                    if self.terms().contains(query@) {
                        let g = choose|g: int| 0 <= g < self.terms().len() && self.terms()[g] == query@;
                        assert(self.transducer_entries()[g] == (encode_utf8(self.terms()[g]), g as u64));
                        assert(fst_entries(self.map)[g].0 == encode_utf8(query@));
                    }
                    lemma_last_position(self.terms(), query@);
                    assert(self.position_of(query@) is None);
                }
                assert(results_view(out@) =~= self.exact(query@));
            },
        }
        out
    }

    /// The results of the terms at the hit positions, ranked in match-key
    /// order: provenance rank, then record identifier; equal keys keep the
    /// order of the hits.
    pub fn search(&self, hit_positions: &Vec<u64>) -> (r: Vec<GeoNamesSearchResult>)
        requires
            self.wf(),
            forall|i: int| 0 <= i < hit_positions@.len() ==> #[trigger] hit_positions@[i] < self.terms().len(),
        ensures
            is_ranking_of(results_view(r@), self.hit_results(hit_positions@), |v: ResultView| v.key()),
    {
        let mut results: Vec<GeoNamesSearchResult> = Vec::new();
        let mut i: usize = 0;
        while i < hit_positions.len()
            invariant
                self.wf(),
                0 <= i <= hit_positions.len(),
                forall|j: int| 0 <= j < hit_positions@.len() ==> #[trigger] hit_positions@[j] < self.terms().len(),
                results_view(results@) == self.hit_results(hit_positions@.subrange(0, i as int)),
            decreases hit_positions.len() - i,
        {
            let n = self.terms.len();
            proof {
                reveal_fields(self);
                assert(hit_positions@[i as int] < n);
            }
            let g = hit_positions[i] as usize;
            proof {
                assert(hit_positions@.subrange(0, i + 1).drop_last() =~= hit_positions@.subrange(0, i as int));
            }
            let term = self.terms[g].as_str();
            proof {
                assert(hit_positions@.subrange(0, i + 1).last() == hit_positions@[i as int]);
                assert(term@ == self.terms()[g as int]);
            }
            self.expand_into(g, term, &mut results);
            i = i + 1;
        }
        assert(hit_positions@.subrange(0, i as int) =~= hit_positions@);
        let ghost unsorted = results@;
        sort_ranked(&mut results);
        proof {
            lemma_ranking_map(
                results@,
                unsorted,
                |r: GeoNamesSearchResult| r@,
                |r: GeoNamesSearchResult| r.rank_key(),
                |v: ResultView| v.key(),
            );
        }
        results
    }

    /// The results of the terms at the hit positions, each with the edit
    /// distance from `raw` to its term; a maximum that is given and not zero
    /// drops the terms beyond it. Ranked by distance, then match-key order;
    /// equal keys keep the order of the hits.
    pub fn search_with_dist(&self, hit_positions: &Vec<u64>, raw: &str, max_dist: Option<u32>) -> (r: Vec<
        GeoNamesSearchResultWithDist,
    >)
        requires
            self.wf(),
            forall|i: int| 0 <= i < hit_positions@.len() ==> #[trigger] hit_positions@[i] < self.terms().len(),
        ensures
            is_ranking_of(
                dist_results_view(r@),
                self.hit_results_dist(hit_positions@, raw@, max_dist),
                |v: ResultWithDistView| v.key(),
            ),
    {
        let mut results: Vec<GeoNamesSearchResultWithDist> = Vec::new();
        let mut i: usize = 0;
        while i < hit_positions.len()
            invariant
                self.wf(),
                0 <= i <= hit_positions.len(),
                forall|j: int| 0 <= j < hit_positions@.len() ==> #[trigger] hit_positions@[j] < self.terms().len(),
                dist_results_view(results@) == self.hit_results_dist(
                    hit_positions@.subrange(0, i as int),
                    raw@,
                    max_dist,
                ),
            decreases hit_positions.len() - i,
        {
            let n = self.terms.len();
            proof {
                reveal_fields(self);
                assert(hit_positions@[i as int] < n);
            }
            let g = hit_positions[i] as usize;
            proof {
                assert(hit_positions@.subrange(0, i + 1).drop_last() =~= hit_positions@.subrange(0, i as int));
            }
            let term = self.terms[g].as_str();
            proof {
                assert(hit_positions@.subrange(0, i + 1).last() == hit_positions@[i as int]);
                assert(term@ == self.terms()[g as int]);
            }
            let dist = levenshtein_distance(raw, term);
            let keep = match max_dist {
                Some(distance) => !(distance > 0 && dist > distance as usize),
                None => true,
            };
            if keep {
                self.expand_dist_into(g, term, dist, &mut results);
            }
            i = i + 1;
        }
        assert(hit_positions@.subrange(0, i as int) =~= hit_positions@);
        let ghost unsorted = results@;
        sort_ranked(&mut results);
        proof {
            lemma_ranking_map(
                results@,
                unsorted,
                |r: GeoNamesSearchResultWithDist| r@,
                |r: GeoNamesSearchResultWithDist| r.rank_key(),
                |v: ResultWithDistView| v.key(),
            );
        }
        results
    }

    /// The transducer.
    pub fn transducer(&self) -> (r: &fst::Map<Vec<u8>>)
        ensures
            fst_entries(*r) == self.transducer_entries(),
    {
        proof {
            reveal_fields(self);
        }
        &self.map
    }

    /// The term at a position of a well-formed index is found there.
    proof fn lemma_position(&self, i: int)
        requires
            self.wf(),
            0 <= i < self.terms().len(),
        ensures
            self.position_of(self.terms()[i]) == Some(i),
    {
        let terms = self.terms();
        let t = terms[i];
        lemma_last_position(terms, t);
        assert(terms.contains(t));
        let g = last_position(terms, t)->Some_0;
        assert(forall|k: int|
            0 < k < terms.len() ==> crate::order::seq_lt(term_key(#[trigger] terms[k - 1]), term_key(terms[k])));
        if g != i {
            lemma_terms_distinct(terms, g, i);
        }
    }
}

/// A larger maximum distance keeps every result a smaller one keeps: for the
/// same hits, query and filter, each result of the ranked, filtered list at
/// `d1` is in the list at `d2`, when `0 < d1 <= d2` (zero does not filter).
pub proof fn lemma_max_distance_monotonic(
    searcher: &GeoNamesSearcher,
    hit_positions: Seq<u64>,
    raw: Seq<char>,
    d1: u32,
    d2: u32,
    filter: Option<crate::routes::FilterView>,
    r1: Seq<ResultWithDistView>,
    r2: Seq<ResultWithDistView>,
)
    requires
        0 < d1 <= d2,
        is_ranking_of(
            r1,
            crate::routes::filtered_dist(searcher.hit_results_dist(hit_positions, raw, Some(d1)), filter),
            |x: ResultWithDistView| x.key(),
        ),
        is_ranking_of(
            r2,
            crate::routes::filtered_dist(searcher.hit_results_dist(hit_positions, raw, Some(d2)), filter),
            |x: ResultWithDistView| x.key(),
        ),
    ensures
        forall|x: ResultWithDistView| r1.contains(x) ==> r2.contains(x),
{
    let key = |x: ResultWithDistView| x.key();
    let h1 = searcher.hit_results_dist(hit_positions, raw, Some(d1));
    let h2 = searcher.hit_results_dist(hit_positions, raw, Some(d2));
    let p = |v: ResultWithDistView| crate::routes::admits(filter, v.entry);
    assert forall|x: ResultWithDistView| r1.contains(x) implies r2.contains(x) by {
        crate::order::lemma_ranking_members(r1, h1.filter(p), key, x);
        crate::order::lemma_ranking_members(r2, h2.filter(p), key, x);
        lemma_filter_members(h1, p, x);
        lemma_filter_members(h2, p, x);
        lemma_dist_results_grow(searcher, hit_positions, raw, Some(d1), Some(d2), x);
    }
}

/// A bounded maximum distance never gives a result that no maximum lacks:
/// for the same hits, query and filter, each result of the ranked, filtered
/// list at `Some(d)` is in the list at `None`.
pub proof fn lemma_bounded_within_unbounded(
    searcher: &GeoNamesSearcher,
    hit_positions: Seq<u64>,
    raw: Seq<char>,
    d: u32,
    filter: Option<crate::routes::FilterView>,
    r1: Seq<ResultWithDistView>,
    r2: Seq<ResultWithDistView>,
)
    requires
        is_ranking_of(
            r1,
            crate::routes::filtered_dist(searcher.hit_results_dist(hit_positions, raw, Some(d)), filter),
            |x: ResultWithDistView| x.key(),
        ),
        is_ranking_of(
            r2,
            crate::routes::filtered_dist(searcher.hit_results_dist(hit_positions, raw, None), filter),
            |x: ResultWithDistView| x.key(),
        ),
    ensures
        forall|x: ResultWithDistView| r1.contains(x) ==> r2.contains(x),
{
    let key = |x: ResultWithDistView| x.key();
    let h1 = searcher.hit_results_dist(hit_positions, raw, Some(d));
    let h2 = searcher.hit_results_dist(hit_positions, raw, None);
    let p = |v: ResultWithDistView| crate::routes::admits(filter, v.entry);
    assert forall|x: ResultWithDistView| r1.contains(x) implies r2.contains(x) by {
        crate::order::lemma_ranking_members(r1, h1.filter(p), key, x);
        crate::order::lemma_ranking_members(r2, h2.filter(p), key, x);
        lemma_filter_members(h1, p, x);
        lemma_filter_members(h2, p, x);
        lemma_dist_results_grow(searcher, hit_positions, raw, Some(d), None, x);
    }
}

/// For edit-distance search, a larger distance keeps every result a smaller
/// one gives: each result of the ranked, filtered list at `d1` is in the list
/// at `d2`, when `d1 <= d2`. These lists are what the edit-distance search
/// returns for an ASCII query.
pub proof fn lemma_levenshtein_distance_monotonic(
    searcher: &GeoNamesSearcher,
    query: Seq<char>,
    d1: u32,
    d2: u32,
    filter: Option<crate::routes::FilterView>,
    r1: Seq<ResultWithDistView>,
    r2: Seq<ResultWithDistView>,
)
    requires
        d1 <= d2,
        is_ranking_of(
            r1,
            crate::routes::filtered_dist(
                searcher.hit_results_dist(
                    searcher.accepted(|k: Seq<u8>| crate::outside::within_distance(query, d1 as nat, k)),
                    query,
                    None,
                ),
                filter,
            ),
            |x: ResultWithDistView| x.key(),
        ),
        is_ranking_of(
            r2,
            crate::routes::filtered_dist(
                searcher.hit_results_dist(
                    searcher.accepted(|k: Seq<u8>| crate::outside::within_distance(query, d2 as nat, k)),
                    query,
                    None,
                ),
                filter,
            ),
            |x: ResultWithDistView| x.key(),
        ),
    ensures
        forall|x: ResultWithDistView| r1.contains(x) ==> r2.contains(x),
{
    let key = |x: ResultWithDistView| x.key();
    let near = |k: Seq<u8>| crate::outside::within_distance(query, d1 as nat, k);
    let far = |k: Seq<u8>| crate::outside::within_distance(query, d2 as nat, k);
    let hs1 = searcher.accepted(near);
    let hs2 = searcher.accepted(far);
    let h1 = searcher.hit_results_dist(hs1, query, None);
    let h2 = searcher.hit_results_dist(hs2, query, None);
    let p = |v: ResultWithDistView| crate::routes::admits(filter, v.entry);
    assert forall|x: ResultWithDistView| r1.contains(x) implies r2.contains(x) by {
        crate::order::lemma_ranking_members(r1, h1.filter(p), key, x);
        crate::order::lemma_ranking_members(r2, h2.filter(p), key, x);
        lemma_filter_members(h1, p, x);
        lemma_filter_members(h2, p, x);
        lemma_hit_member(searcher, hs1, query, x);
        let j = choose|j: int|
            0 <= j < hs1.len() && searcher.expand_dist(
                hs1[j] as int,
                searcher.terms()[hs1[j] as int],
                edit_distance(query, searcher.terms()[hs1[j] as int]),
            ).contains(x);
        lemma_hits_grow(searcher.transducer_entries(), near, far, hs1[j]);
        let m = choose|m: int| 0 <= m < hs2.len() && hs2[m] == hs1[j];
        lemma_hit_member(searcher, hs2, query, x);
        lemma_expansion_in_hits(searcher, hs2, query, m, x);
    }
}

/// A position the weaker predicate hits, the stronger one hits too.
proof fn lemma_hits_grow(
    entries: Seq<(Seq<u8>, u64)>,
    near: spec_fn(Seq<u8>) -> bool,
    far: spec_fn(Seq<u8>) -> bool,
    h: u64,
)
    requires
        forall|k: Seq<u8>| #[trigger] near(k) ==> far(k),
    ensures
        hits(entries, near).contains(h) ==> hits(entries, far).contains(h),
{
    let f1 = |e: (Seq<u8>, u64)| near(e.0);
    let f2 = |e: (Seq<u8>, u64)| far(e.0);
    let v = |e: (Seq<u8>, u64)| e.1;
    if hits(entries, near).contains(h) {
        let m = choose|m: int| 0 <= m < hits(entries, near).len() && hits(entries, near)[m] == h;
        let e = entries.filter(f1)[m];
        assert(e.1 == h);
        lemma_filter_members(entries, f1, e);
        assert(entries.filter(f1).contains(e));
        assert(near(e.0));
        lemma_filter_members(entries, f2, e);
        let n = choose|n: int| 0 <= n < entries.filter(f2).len() && entries.filter(f2)[n] == e;
        assert(hits(entries, far)[n] == h);
    }
}

/// A result of the hits with no maximum comes from the expansion of one hit.
proof fn lemma_hit_member(
    searcher: &GeoNamesSearcher,
    hs: Seq<u64>,
    raw: Seq<char>,
    x: ResultWithDistView,
)
    ensures
        searcher.hit_results_dist(hs, raw, None).contains(x) ==> exists|j: int|
            0 <= j < hs.len() && searcher.expand_dist(
                hs[j] as int,
                searcher.terms()[hs[j] as int],
                edit_distance(raw, searcher.terms()[hs[j] as int]),
            ).contains(x),
    decreases hs.len(),
{
    if hs.len() > 0 && searcher.hit_results_dist(hs, raw, None).contains(x) {
        let rest = hs.drop_last();
        let g = hs.last() as int;
        let t = searcher.terms()[g];
        let e = searcher.expand_dist(g, t, edit_distance(raw, t));
        let a = searcher.hit_results_dist(rest, raw, None);
        let h = searcher.hit_results_dist(hs, raw, None);
        assert(h == a + e);
        let i = choose|i: int| 0 <= i < h.len() && h[i] == x;
        if i < a.len() {
            assert(a[i] == x);
            lemma_hit_member(searcher, rest, raw, x);
            let j = choose|j: int|
                0 <= j < rest.len() && searcher.expand_dist(
                    rest[j] as int,
                    searcher.terms()[rest[j] as int],
                    edit_distance(raw, searcher.terms()[rest[j] as int]),
                ).contains(x);
            assert(hs[j] == rest[j]);
        } else {
            assert(e[i - a.len()] == x);
            assert(e.contains(x));
            assert(hs[hs.len() - 1] as int == g);
        }
    }
}

/// The expansion of a hit lies in the results of the hits, with no maximum.
proof fn lemma_expansion_in_hits(
    searcher: &GeoNamesSearcher,
    hs: Seq<u64>,
    raw: Seq<char>,
    m: int,
    x: ResultWithDistView,
)
    requires
        0 <= m < hs.len(),
        searcher.expand_dist(
            hs[m] as int,
            searcher.terms()[hs[m] as int],
            edit_distance(raw, searcher.terms()[hs[m] as int]),
        ).contains(x),
    ensures
        searcher.hit_results_dist(hs, raw, None).contains(x),
    decreases hs.len(),
{
    let rest = hs.drop_last();
    let g = hs.last() as int;
    let t = searcher.terms()[g];
    let e = searcher.expand_dist(g, t, edit_distance(raw, t));
    let a = searcher.hit_results_dist(rest, raw, None);
    let h = searcher.hit_results_dist(hs, raw, None);
    assert(h == a + e);
    if m < hs.len() - 1 {
        assert(rest[m] == hs[m]);
        lemma_expansion_in_hits(searcher, rest, raw, m, x);
        let i = choose|i: int| 0 <= i < a.len() && a[i] == x;
        assert(h[i] == x);
    } else {
        let i = choose|i: int| 0 <= i < e.len() && e[i] == x;
        assert(h[a.len() + i] == x);
    }
}

/// The items a filter keeps are the items of the list it accepts.
pub proof fn lemma_filter_members<A>(s: Seq<A>, p: spec_fn(A) -> bool, x: A)
    ensures
        s.filter(p).contains(x) <==> (s.contains(x) && p(x)),
{
    if s.contains(x) && p(x) {
        let j = choose|j: int| 0 <= j < s.len() && s[j] == x;
        s.lemma_filter_contains(p, j);
    }
    if s.filter(p).contains(x) {
        let m = choose|m: int| 0 <= m < s.filter(p).len() && s.filter(p)[m] == x;
        let prop = |y: A| s.contains(y);
        assert forall|i: int| 0 <= i < s.len() implies #[trigger] prop(s[i]) by {
            assert(s.contains(s[i]));
        }
        crate::routes::lemma_filter_holds(s, p, prop);
        assert(prop(s.filter(p)[m]));
        s.lemma_filter_pred(p, m);
    }
}

proof fn lemma_dist_results_grow(
    searcher: &GeoNamesSearcher,
    hs: Seq<u64>,
    raw: Seq<char>,
    max1: Option<u32>,
    max2: Option<u32>,
    x: ResultWithDistView,
)
    requires
        forall|n: nat| #[trigger] exceeds(max2, n) ==> exceeds(max1, n),
    ensures
        searcher.hit_results_dist(hs, raw, max1).contains(x) ==> searcher.hit_results_dist(
            hs,
            raw,
            max2,
        ).contains(x),
    decreases hs.len(),
{
    if hs.len() > 0 && searcher.hit_results_dist(hs, raw, max1).contains(x) {
        let rest = hs.drop_last();
        lemma_dist_results_grow(searcher, rest, raw, max1, max2, x);
        let g = hs.last() as int;
        let t = searcher.terms()[g];
        let d = edit_distance(raw, t);
        let e = searcher.expand_dist(g, t, d);
        let a1 = searcher.hit_results_dist(rest, raw, max1);
        let a2 = searcher.hit_results_dist(rest, raw, max2);
        let h1 = searcher.hit_results_dist(hs, raw, max1);
        let h2 = searcher.hit_results_dist(hs, raw, max2);
        let j = choose|j: int| 0 <= j < h1.len() && h1[j] == x;
        if exceeds(max1, d) {
            assert(a1.contains(x));
        } else if j < a1.len() {
            assert(h1[j] == a1[j]);
            assert(a1.contains(x));
        } else {
            assert(h1 == a1 + e);
            assert(e[j - a1.len()] == x);
            assert(!exceeds(max2, d));
            assert(h2 == a2 + e);
            assert(h2[a2.len() + (j - a1.len())] == x);
        }
        if a2.contains(x) {
            let k = choose|k: int| 0 <= k < a2.len() && a2[k] == x;
            if exceeds(max2, d) {
                assert(h2 == a2);
            } else {
                assert(h2 == a2 + e);
                assert(h2[k] == x);
            }
        }
    }
}

/// The last position of `t` in `terms`, if any.
pub open spec fn last_position(terms: Seq<Seq<char>>, t: Seq<char>) -> Option<int>
    decreases terms.len(),
{
    if terms.len() == 0 {
        None
    } else if terms.last() == t {
        Some(terms.len() - 1)
    } else {
        last_position(terms.drop_last(), t)
    }
}

proof fn lemma_last_position(terms: Seq<Seq<char>>, t: Seq<char>)
    ensures
        match last_position(terms, t) {
            Some(g) => 0 <= g < terms.len() && terms[g] == t && forall|k: int|
                g < k < terms.len() ==> terms[k] != t,
            None => !terms.contains(t),
        },
    decreases terms.len(),
{
    if terms.len() > 0 {
        lemma_last_position(terms.drop_last(), t);
        if terms.last() != t {
            if terms.contains(t) {
                let j = choose|j: int| 0 <= j < terms.len() && terms[j] == t;
                assert(terms.drop_last()[j] == t);
            }
            if let Some(g) = last_position(terms.drop_last(), t) {
                assert(terms[g] == terms.drop_last()[g]);
                assert forall|k: int| g < k < terms.len() implies terms[k] != t by {
                    if k < terms.len() - 1 {
                        assert(terms[k] == terms.drop_last()[k]);
                    }
                }
            }
        }
    }
}

/// Distinct character sequences have distinct UTF-8 encodings.
proof fn lemma_bytes_injective(a: Seq<char>, b: Seq<char>)
    requires
        encode_utf8(a) == encode_utf8(b),
    ensures
        a == b,
{
    vstd::utf8::encode_utf8_decode_utf8(a);
    vstd::utf8::encode_utf8_decode_utf8(b);
}

/// Strictly increasing terms are distinct.
proof fn lemma_terms_distinct(terms: Seq<Seq<char>>, a: int, b: int)
    requires
        0 <= a < terms.len(),
        0 <= b < terms.len(),
        a != b,
        forall|i: int|
            0 < i < terms.len() ==> crate::order::seq_lt(term_key(#[trigger] terms[i - 1]), term_key(terms[i])),
    ensures
        terms[a] != terms[b],
    decreases if a < b { b - a } else { a - b },
{
    let (lo, hi) = if a < b { (a, b) } else { (b, a) };
    lemma_increasing(terms, lo, hi);
    if terms[lo] == terms[hi] {
        crate::order::lemma_seq_lt_irreflexive(term_key(terms[lo]));
    }
}

proof fn lemma_increasing(terms: Seq<Seq<char>>, a: int, b: int)
    requires
        0 <= a < b < terms.len(),
        forall|i: int|
            0 < i < terms.len() ==> crate::order::seq_lt(term_key(#[trigger] terms[i - 1]), term_key(terms[i])),
    ensures
        crate::order::seq_lt(term_key(terms[a]), term_key(terms[b])),
    decreases b - a,
{
    let g = b;
    assert(crate::order::seq_lt(term_key(terms[g - 1]), term_key(terms[g])));
    if b > a + 1 {
        lemma_increasing(terms, a, b - 1);
        crate::order::lemma_seq_lt_transitive(term_key(terms[a]), term_key(terms[b - 1]), term_key(terms[b]));
    }
}

} // verus!
