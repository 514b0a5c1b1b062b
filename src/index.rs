//! The term index: unique terms in bytewise order, the provenances of each
//! term, the transducer from each term to its ordinal, and the entry store.
use std::collections::HashMap;
use vstd::prelude::*;
use vstd::utf8::encode_utf8;
use crate::data::{EntryView, GeoNamesEntry, MatchType, MatchTypeView};
use crate::error::BuildError;
use crate::ingest::{
    alternate_files_outcome, build_outcome, lemma_alternate_files_error_persists,
    lemma_alternate_ids, lemma_primary_files_error_persists, lemma_primary_ids, pairs_view,
    parse_alternate_names_file, parse_geonames_file, primary_files_outcome, store_view,
};
use crate::order::{
    class_of, compare_bytes, is_ranking_of, lemma_class_holds, lemma_class_nonempty,
    lemma_class_of_member, lemma_member_in_class, lemma_seq_lt_antisymmetric,
    lemma_seq_lt_irreflexive, lemma_seq_lt_total, lemma_seq_lt_transitive, same_classes, seq_lt,
    term_key, Ranked,
};
use crate::outside::{fst_entries, fst_from_pairs, sort_ranked};

verus! {

broadcast use vstd::std_specs::hash::group_hash_axioms;

/// The provenances of the pairs whose term is `t`, in the order of the pairs.
pub open spec fn provenances_of(ps: Seq<(Seq<char>, MatchTypeView)>, t: Seq<char>) -> Seq<
    MatchTypeView,
>
    decreases ps.len(),
{
    if ps.len() == 0 {
        seq![]
    } else if ps.last().0 == t {
        provenances_of(ps.drop_last(), t).push(ps.last().1)
    } else {
        provenances_of(ps.drop_last(), t)
    }
}

/// `t` is the term of some pair.
pub open spec fn has_term(ps: Seq<(Seq<char>, MatchTypeView)>, t: Seq<char>) -> bool {
    exists|j: int| 0 <= j < ps.len() && #[trigger] ps[j].0 == t
}

impl Ranked for (String, MatchType) {
    open spec fn rank_key(&self) -> Seq<int> {
        term_key(self.0@)
    }

    fn compare(&self, other: &Self) -> (r: std::cmp::Ordering) {
        compare_bytes(self.0.as_str().as_bytes(), other.0.as_str().as_bytes())
    }
}

/// Distinct terms have distinct keys.
pub proof fn lemma_term_key_injective(a: Seq<char>, b: Seq<char>)
    requires
        term_key(a) == term_key(b),
    ensures
        a == b,
{
    let (ea, eb) = (encode_utf8(a), encode_utf8(b));
    assert(ea.len() == term_key(a).len());
    assert forall|i: int| 0 <= i < ea.len() implies ea[i] == eb[i] by {
        assert(term_key(a)[i] == term_key(b)[i]);
        assert(term_key(a)[i] == ea[i] as int);
        assert(term_key(b)[i] == eb[i] as int);
    }
    assert(ea =~= eb);
    vstd::utf8::encode_utf8_decode_utf8(a);
    vstd::utf8::encode_utf8_decode_utf8(b);
}

/// The provenances of a term are the provenance views of its class under the term key.
proof fn lemma_provenances_class(s: Seq<(String, MatchType)>, t: Seq<char>)
    ensures
        provenances_of(pairs_view(s), t) == class_of(s, |p: (String, MatchType)| p.rank_key(), term_key(t)).map_values(
            |p: (String, MatchType)| p.1@,
        ),
    decreases s.len(),
{
    reveal(Seq::filter);
    let key = |p: (String, MatchType)| p.rank_key();
    if s.len() > 0 {
        lemma_provenances_class(s.drop_last(), t);
        assert(pairs_view(s).drop_last() =~= pairs_view(s.drop_last()));
        let c = class_of(s.drop_last(), key, term_key(t));
        if s.last().0@ == t {
            assert(c.push(s.last()).map_values(|p: (String, MatchType)| p.1@) =~= c.map_values(
                |p: (String, MatchType)| p.1@,
            ).push(s.last().1@));
        } else {
            if term_key(s.last().0@) == term_key(t) {
                lemma_term_key_injective(s.last().0@, t);
            }
        }
    } else {
        assert(class_of(s, key, term_key(t)) =~= Seq::<(String, MatchType)>::empty());
    }
}

pub struct GeoNamesSearcher {
    pub(crate) map: fst::Map<Vec<u8>>,
    pub(crate) geonames: HashMap<u64, GeoNamesEntry>,
    pub(crate) terms: Vec<String>,
    pub(crate) search_matches: Vec<Vec<MatchType>>,
}

/// What the views of the index are, for the modules of this crate.
pub(crate) proof fn reveal_fields(s: &GeoNamesSearcher)
    ensures
        s.terms() == s.terms@.map_values(|t: String| t@),
        s.groups() == s.search_matches@.map_values(
            |g: Vec<MatchType>| g@.map_values(|m: MatchType| m@),
        ),
        s.store() == store_view(s.geonames@),
        s.transducer_entries() == fst_entries(s.map),
{
}

impl GeoNamesSearcher {
    /// The unique terms, in increasing bytewise order.
    pub closed spec fn terms(&self) -> Seq<Seq<char>> {
        self.terms@.map_values(|t: String| t@)
    }

    /// The provenances of each term, position for position.
    pub closed spec fn groups(&self) -> Seq<Seq<MatchTypeView>> {
        self.search_matches@.map_values(|g: Vec<MatchType>| g@.map_values(|m: MatchType| m@))
    }

    /// The entry store.
    pub closed spec fn store(&self) -> Map<u64, EntryView> {
        store_view(self.geonames@)
    }

    /// The transducer maps each term to its position.
    pub closed spec fn transducer_entries(&self) -> Seq<(Seq<u8>, u64)> {
        fst_entries(self.map)
    }

    pub open spec fn wf(&self) -> bool {
        let (terms, groups) = (self.terms(), self.groups());
        &&& terms.len() == groups.len()
        &&& terms.len() <= u64::MAX
        &&& self.transducer_entries() == Seq::new(
            terms.len(),
            |i: int| (encode_utf8(terms[i]), i as u64),
        )
        &&& forall|i: int| 0 <= i < terms.len() ==> #[trigger] terms[i].len() > 0
        &&& forall|i: int|
            0 < i < terms.len() ==> seq_lt(term_key(#[trigger] terms[i - 1]), term_key(terms[i]))
        &&& forall|g: int| 0 <= g < groups.len() ==> #[trigger] groups[g].len() > 0
        &&& forall|g: int, j: int|
            0 <= g < groups.len() && 0 <= j < groups[g].len() ==> self.store().contains_key(
                #[trigger] groups[g][j].id(),
            )
    }

    /// The index holds exactly the non-empty terms of the pairs, each with
    /// the provenances of its pairs in their order.
    pub open spec fn indexes(&self, ps: Seq<(Seq<char>, MatchTypeView)>) -> bool {
        &&& forall|g: int|
            0 <= g < self.terms().len() ==> #[trigger] self.groups()[g] == provenances_of(
                ps,
                self.terms()[g],
            )
        &&& forall|t: Seq<char>|
            (t.len() > 0 && has_term(ps, t)) <==> #[trigger] self.terms().contains(t)
    }

    proof fn lemma_view_facts(&self)
        ensures
            self.terms().len() == self.terms@.len(),
            self.groups().len() == self.search_matches@.len(),
            forall|i: int| 0 <= i < self.terms@.len() ==> #[trigger] self.terms()[i] == self.terms@[i]@,
            forall|g: int|
                0 <= g < self.search_matches@.len() ==> #[trigger] self.groups()[g]
                    == self.search_matches@[g]@.map_values(|m: MatchType| m@),
    {
    }

    /// Builds the index from (term, provenance) pairs: the pairs are sorted
    /// stably by the bytes of their terms, pairs with an empty term dropped,
    /// and pairs of equal terms gathered, in their order, under that term.
    pub fn from_pairs(query_pairs: Vec<(String, MatchType)>, geonames: HashMap<u64, GeoNamesEntry>) -> (r: Result<GeoNamesSearcher, BuildError>)
        requires
            forall|i: int|
                0 <= i < query_pairs@.len() ==> store_view(geonames@).contains_key(
                    (#[trigger] query_pairs@[i]).1@.id(),
                ),
        ensures
            r matches Ok(s) && s.wf() && s.store() == store_view(geonames@) && s.indexes(
                pairs_view(query_pairs@),
            ),
    {
        let ghost orig = query_pairs@;
        let ghost key = |p: (String, MatchType)| p.rank_key();
        let mut sorted = query_pairs;
        sort_ranked(&mut sorted);
        let ghost sv = pairs_view(sorted@);
        let ghost store = store_view(geonames@);
        proof {
            // every provenance of the sorted pairs belongs to a record of the store
            let p = |x: (String, MatchType)| store.contains_key(x.1@.id());
            assert forall|j: int| 0 <= j < sorted@.len() implies store.contains_key(
                #[trigger] sorted@[j].1@.id(),
            ) by {
                let x = sorted@[j];
                lemma_member_in_class(sorted@, key, j);
                assert(class_of(sorted@, key, key(x)) == class_of(orig, key, key(x)));
                assert forall|i: int| 0 <= i < orig.len() implies #[trigger] p(orig[i]) by {}
                lemma_class_holds(orig, key, key(x), p);
                let c = class_of(orig, key, key(x));
                let m = choose|m: int| 0 <= m < c.len() && c[m] == x;
                assert(p(c[m]));
            }
        }
        let mut terms: Vec<String> = Vec::new();
        let mut search_matches: Vec<Vec<MatchType>> = Vec::new();
        let ghost tv = terms@.map_values(|t: String| t@);
        let mut i: usize = 0;
        while i < sorted.len()
            invariant
                0 <= i <= sorted.len(),
                sv == pairs_view(sorted@),
                store == store_view(geonames@),
                is_ranking_of(sorted@, orig, key),
                key == (|p: (String, MatchType)| p.rank_key()),
                forall|j: int| 0 <= j < sorted@.len() ==> store.contains_key(#[trigger] sorted@[j].1@.id()),
                terms.len() == search_matches.len(),
                terms.len() <= i,
                forall|g: int| 0 <= g < terms.len() ==> (#[trigger] terms@[g])@.len() > 0,
                forall|g: int|
                    0 < g < terms.len() ==> seq_lt(term_key((#[trigger] terms@[g - 1])@), term_key(terms@[g]@)),
                forall|g: int| 0 <= g < terms.len() ==> (#[trigger] search_matches@[g])@.len() > 0,
                forall|g: int, j: int|
                    0 <= g < terms.len() && 0 <= j < search_matches@[g]@.len() ==> store.contains_key(
                        (#[trigger] search_matches@[g]@[j])@.id(),
                    ),
                forall|g: int|
                    0 <= g < terms.len() ==> (#[trigger] search_matches@[g])@.map_values(|m: MatchType| m@)
                        == provenances_of(sv.subrange(0, i as int), terms@[g]@),
                forall|t: Seq<char>|
                    (t.len() > 0 && has_term(sv.subrange(0, i as int), t)) <==> exists|g: int|
                        0 <= g < terms.len() && #[trigger] terms@[g]@ == t,
                i > 0 && sv[i - 1].0.len() > 0 ==> terms.len() > 0 && terms@[terms.len() - 1]@ == sv[i - 1].0,
                i > 0 && sv[i - 1].0.len() == 0 ==> terms.len() == 0,
            decreases sorted.len() - i,
        {
            let ghost pre = sv.subrange(0, i as int);
            let ghost post = sv.subrange(0, i + 1);
            assert(post.drop_last() =~= pre);
            assert(post.last() == sv[i as int]);
            assert(sv[i as int] == (sorted@[i as int].0@, sorted@[i as int].1@));
            let term = &sorted[i].0;
            if term.as_str().is_empty() {
                proof {
                    assert forall|g: int| 0 <= g < terms.len() implies (#[trigger] search_matches@[g])@.map_values(
                        |m: MatchType| m@,
                    ) == provenances_of(post, terms@[g]@) by {}
                    assert forall|t: Seq<char>|
                        (t.len() > 0 && has_term(post, t)) <==> exists|g: int|
                            0 <= g < terms.len() && #[trigger] terms@[g]@ == t by {
                        if t.len() > 0 && has_term(post, t) {
                            let j = choose|j: int| 0 <= j < post.len() && #[trigger] post[j].0 == t;
                            assert(j < i);
                            assert(pre[j].0 == t);
                        }
                        if has_term(pre, t) {
                            let j = choose|j: int| 0 <= j < pre.len() && #[trigger] pre[j].0 == t;
                            assert(post[j].0 == t);
                        }
                    }
                    // an empty term sorts before any other, so nothing came before
                    if i > 0 && sv[i - 1].0.len() > 0 {
                        assert(!seq_lt(key(sorted@[i as int]), key(sorted@[i - 1])));
                        assert(encode_utf8(sv[i - 1].0).len() > 0) by {
                            vstd::utf8::encode_utf8_decode_utf8(sv[i - 1].0);
                        }
                        assert(term_key(term@) =~= Seq::<int>::empty()) by {
                            assert(encode_utf8(term@) =~= Seq::<u8>::empty());
                        }
                        assert(term_key(sv[i - 1].0).len() > 0);
                    }
                }
            } else {
                let same = i > 0 && sorted[i - 1].0 == *term;
                let m = sorted[i].1.snapshot();
                if same {
                    let ghost old_matches = search_matches@;
                    let mut last = search_matches.pop().unwrap();
                    last.push(m);
                    search_matches.push(last);
                    proof {
                        let g0 = terms.len() - 1;
                        assert(search_matches@[g0]@.map_values(|m: MatchType| m@) =~= old_matches[g0]@.map_values(
                            |m: MatchType| m@,
                        ).push(sv[i as int].1));
                        assert forall|g: int| 0 <= g < terms.len() implies (#[trigger] search_matches@[g])@.map_values(
                            |m: MatchType| m@,
                        ) == provenances_of(post, terms@[g]@) by {
                            if g != g0 {
                                assert(search_matches@[g] == old_matches[g]);
                                if terms@[g]@ == term@ {
                                    lemma_seq_lt_irreflexive(term_key(term@));
                                    lemma_terms_strict(terms@, g, g0);
                                }
                            }
                        }
                        assert forall|g: int, j: int|
                            0 <= g < terms.len() && 0 <= j < search_matches@[g]@.len() implies store.contains_key(
                                (#[trigger] search_matches@[g]@[j])@.id(),
                            ) by {
                            if g != g0 {
                                assert(search_matches@[g] == old_matches[g]);
                            } else if j < old_matches[g]@.len() {
                                assert(search_matches@[g]@[j] == old_matches[g]@[j]);
                            }
                        }
                        assert forall|g: int| 0 <= g < terms.len() implies (#[trigger] search_matches@[g])@.len() > 0 by {
                            if g != g0 {
                                assert(search_matches@[g] == old_matches[g]);
                            }
                        }
                        assert forall|t: Seq<char>|
                            (t.len() > 0 && has_term(post, t)) <==> exists|g: int|
                                0 <= g < terms.len() && #[trigger] terms@[g]@ == t by {
                            if t.len() > 0 && has_term(post, t) {
                                let j = choose|j: int| 0 <= j < post.len() && #[trigger] post[j].0 == t;
                                if j < i {
                                    assert(pre[j].0 == t);
                                } else {
                                    assert(terms@[g0]@ == t);
                                }
                            }
                            if has_term(pre, t) {
                                let j = choose|j: int| 0 <= j < pre.len() && #[trigger] pre[j].0 == t;
                                assert(post[j].0 == t);
                            }
                        }
                    }
                } else {
                    let ghost old_terms = terms@;
                    let ghost old_matches = search_matches@;
                    proof {
                        // no earlier pair has this term
                        assert forall|j: int| 0 <= j < i implies #[trigger] pre[j].0 != term@ by {
                            if pre[j].0 == term@ {
                                assert(sv[j] == pre[j]);
                                assert(sv[j].0 == sorted@[j].0@);
                                assert(key(sorted@[j]) == term_key(sorted@[j].0@));
                                assert(key(sorted@[i as int]) == term_key(sorted@[i as int].0@));
                                assert(key(sorted@[i - 1]) == term_key(sorted@[i - 1].0@));
                                assert(key(sorted@[j]) == key(sorted@[i as int]));
                                if j < i - 1 {
                                    assert(!seq_lt(key(sorted@[i - 1]), key(sorted@[j])));
                                } else {
                                    lemma_seq_lt_irreflexive(key(sorted@[j]));
                                }
                                assert(!seq_lt(key(sorted@[i as int]), key(sorted@[i - 1])));
                                lemma_seq_lt_antisymmetric(key(sorted@[i - 1]), key(sorted@[i as int]));
                                lemma_term_key_injective(sorted@[i - 1].0@, term@);
                            }
                        }
                        lemma_provenances_absent(pre, term@);
                        // the new term is above the last one
                        if terms.len() > 0 {
                            let lt = terms@[terms.len() - 1]@;
                            assert(sv[i - 1].0.len() > 0) by {
                                if sv[i - 1].0.len() == 0 {}
                            }
                            assert(lt == sv[i - 1].0);
                            assert(!seq_lt(key(sorted@[i as int]), key(sorted@[i - 1])));
                            lemma_seq_lt_total(term_key(lt), term_key(term@));
                            if term_key(lt) == term_key(term@) {
                                lemma_term_key_injective(lt, term@);
                            }
                        }
                    }
                    terms.push(term.clone());
                    let mut group: Vec<MatchType> = Vec::new();
                    group.push(m);
                    search_matches.push(group);
                    proof {
                        let g0 = terms.len() - 1;
                        assert(search_matches@[g0]@.map_values(|m: MatchType| m@) =~= seq![sv[i as int].1]);
                        assert(provenances_of(pre, term@) =~= Seq::<MatchTypeView>::empty());
                        assert forall|g: int| 0 <= g < terms.len() implies (#[trigger] search_matches@[g])@.map_values(
                            |m: MatchType| m@,
                        ) == provenances_of(post, terms@[g]@) by {
                            if g != g0 {
                                assert(search_matches@[g] == old_matches[g]);
                                assert(terms@[g] == old_terms[g]);
                                assert(terms@[g]@ != term@) by {
                                    if terms@[g]@ == term@ {
                                        assert(has_term(pre, term@));
                                        let j = choose|j: int| 0 <= j < pre.len() && #[trigger] pre[j].0 == term@;
                                    }
                                }
                            }
                        }
                        assert forall|g: int, j: int|
                            0 <= g < terms.len() && 0 <= j < search_matches@[g]@.len() implies store.contains_key(
                                (#[trigger] search_matches@[g]@[j])@.id(),
                            ) by {
                            if g != g0 {
                                assert(search_matches@[g] == old_matches[g]);
                            }
                        }
                        assert forall|g: int| 0 <= g < terms.len() implies (#[trigger] search_matches@[g])@.len() > 0 by {
                            if g != g0 {
                                assert(search_matches@[g] == old_matches[g]);
                            }
                        }
                        assert forall|g: int| 0 <= g < terms.len() implies (#[trigger] terms@[g])@.len() > 0 by {
                            if g != g0 {
                                assert(terms@[g] == old_terms[g]);
                            }
                        }
                        assert forall|g: int|
                            0 < g < terms.len() implies seq_lt(term_key((#[trigger] terms@[g - 1])@), term_key(terms@[g]@)) by {
                            if g != g0 {
                                assert(terms@[g] == old_terms[g]);
                                assert(terms@[g - 1] == old_terms[g - 1]);
                            }
                        }
                        assert forall|t: Seq<char>|
                            (t.len() > 0 && has_term(post, t)) <==> exists|g: int|
                                0 <= g < terms.len() && #[trigger] terms@[g]@ == t by {
                            if t.len() > 0 && has_term(post, t) {
                                let j = choose|j: int| 0 <= j < post.len() && #[trigger] post[j].0 == t;
                                if j < i {
                                    assert(pre[j].0 == t);
                                    assert(has_term(pre, t));
                                    let g = choose|g: int| 0 <= g < old_terms.len() && #[trigger] old_terms[g]@ == t;
                                    assert(terms@[g] == old_terms[g]);
                                } else {
                                    assert(terms@[g0]@ == t);
                                }
                            }
                            if exists|g: int| 0 <= g < terms.len() && #[trigger] terms@[g]@ == t {
                                let g = choose|g: int| 0 <= g < terms.len() && #[trigger] terms@[g]@ == t;
                                if g == g0 {
                                    assert(post[i as int].0 == t);
                                } else {
                                    assert(terms@[g] == old_terms[g]);
                                    assert(exists|g: int| 0 <= g < old_terms.len() && #[trigger] old_terms[g]@ == t);
                                    assert(has_term(pre, t));
                                    let j = choose|j: int| 0 <= j < pre.len() && #[trigger] pre[j].0 == t;
                                    assert(post[j].0 == t);
                                }
                            }
                        }
                    }
                }
            }
            i = i + 1;
        }
        proof {
            assert(sv.subrange(0, i as int) =~= sv);
        }
        let ghost tv = terms@.map_values(|t: String| t@);
        // the ordinal of each term is its position
        let mut keyed: Vec<(String, u64)> = Vec::new();
        let mut g: usize = 0;
        while g < terms.len()
            invariant
                0 <= g <= terms.len(),
                terms.len() <= sorted.len(),
                keyed@.len() == g,
                forall|k: int| 0 <= k < g ==> (#[trigger] keyed@[k]).0@ == terms@[k]@ && keyed@[k].1 == k as u64,
            decreases terms.len() - g,
        {
            keyed.push((terms[g].clone(), g as u64));
            g = g + 1;
        }
        let ghost kv = keyed@;
        let built = fst_from_pairs(keyed);
        proof {
            assert forall|k: int| 0 < k < kv.len() implies seq_lt(
                term_key(#[trigger] kv[k - 1].0@),
                term_key(kv[k].0@),
            ) by {
                assert(kv[k - 1].0@ == terms@[k - 1]@);
            }
        }
        match built {
            Ok(map) => {
                let r = GeoNamesSearcher { map, geonames, terms, search_matches };
                proof {
                    r.lemma_view_facts();
                    assert(r.transducer_entries() =~= Seq::new(
                        r.terms().len(),
                        |i: int| (encode_utf8(r.terms()[i]), i as u64),
                    ));
                    assert forall|g: int| 0 <= g < r.terms().len() implies #[trigger] r.groups()[g] == provenances_of(
                        pairs_view(orig),
                        r.terms()[g],
                    ) by {
                        lemma_provenances_class(sorted@, r.terms()[g]);
                        lemma_provenances_class(orig, r.terms()[g]);
                        assert(class_of(sorted@, key, term_key(r.terms()[g])) == class_of(orig, key, term_key(r.terms()[g])));
                    }
                    assert forall|t: Seq<char>|
                        (t.len() > 0 && has_term(pairs_view(orig), t)) <==> #[trigger] r.terms().contains(t) by {
                        lemma_same_terms(sorted@, orig, t);
                        if r.terms().contains(t) {
                            let g = choose|g: int| 0 <= g < r.terms().len() && r.terms()[g] == t;
                            assert(r.terms@[g]@ == t);
                        }
                        if t.len() > 0 && has_term(sv, t) {
                            let g = choose|g: int| 0 <= g < r.terms@.len() && #[trigger] r.terms@[g]@ == t;
                            assert(r.terms()[g] == t);
                        }
                    }
                    assert forall|g: int, j: int|
                        0 <= g < r.groups().len() && 0 <= j < r.groups()[g].len() implies r.store().contains_key(
                            #[trigger] r.groups()[g][j].id(),
                        ) by {
                        assert(r.groups()[g][j] == r.search_matches@[g]@[j]@);
                    }
                    assert forall|g: int| 0 <= g < r.groups().len() implies #[trigger] r.groups()[g].len() > 0 by {
                        assert(r.search_matches@[g]@.len() > 0);
                    }
                }
                Ok(r)
            },
            Err(_) => Err(BuildError::IndexConstruction),
        }
    }
}

impl GeoNamesSearcher {
    /// Builds the index from the contents of gazetteer files and, if given,
    /// alternate-name files, keeping alternate names in the given languages
    /// only when a list is given.
    pub fn build(
        gn_files: &Vec<Vec<u8>>,
        alternate_files: Option<&Vec<Vec<u8>>>,
        languages: Option<&Vec<String>>,
    ) -> (r: Result<GeoNamesSearcher, BuildError>)
        ensures
            match build_outcome(
                gn_files.deep_view(),
                match alternate_files {
                    Some(f) => Some(f.deep_view()),
                    None => None,
                },
                match languages {
                    Some(l) => Some(l.deep_view()),
                    None => None,
                },
            ) {
                Err(e) => r == Err::<GeoNamesSearcher, BuildError>(e),
                Ok((ps, st)) => r matches Ok(s) && s.wf() && s.store() == st && s.indexes(ps),
            },
    {
        let ghost gv = gn_files.deep_view();
        let ghost langs = match languages {
            Some(l) => Some(l.deep_view()),
            None => None,
        };
        let mut query_pairs: Vec<(String, MatchType)> = Vec::new();
        let mut geonames: HashMap<u64, GeoNamesEntry> = HashMap::new();
        let mut f: usize = 0;
        assert(pairs_view(query_pairs@) =~= seq![]);
        assert(store_view(geonames@) =~= Map::empty());
        assert(gv.subrange(0, 0) =~= seq![]);
        while f < gn_files.len()
            invariant
                0 <= f <= gn_files.len(),
                gv == gn_files.deep_view(),
                primary_files_outcome(gv.subrange(0, f as int), Map::empty()) == Ok::<
                    (Seq<(Seq<char>, MatchTypeView)>, Map<u64, EntryView>),
                    BuildError,
                >((pairs_view(query_pairs@), store_view(geonames@))),
                forall|i: int|
                    0 <= i < query_pairs@.len() ==> store_view(geonames@).contains_key(
                        (#[trigger] query_pairs@[i]).1@.id(),
                    ),
            decreases gn_files.len() - f,
        {
            let ghost (pairs_before, store_before) = (query_pairs@, geonames@);
            assert(gv.subrange(0, f + 1).drop_last() =~= gv.subrange(0, f as int));
            assert(gv.subrange(0, f + 1).last() == gn_files@[f as int]@);
            let res = parse_geonames_file(gn_files[f].as_slice(), &mut query_pairs, &mut geonames);
            if res.is_err() {
                proof {
                    lemma_primary_files_error_persists(gv, Map::empty(), f + 1);
                }
                return Err(res.unwrap_err());
            }
            proof {
                let rows = crate::outside::tsv_records(gn_files@[f as int]@)->Some_0;
                let qs = crate::ingest::primary_outcome(rows)->Ok_0;
                assert(pairs_view(query_pairs@) == pairs_view(pairs_before) + qs);
                assert(store_view(geonames@) == crate::ingest::store_after(store_view(store_before), rows));
                lemma_primary_ids(rows, store_view(store_before));
                assert forall|i: int| 0 <= i < query_pairs@.len() implies store_view(geonames@).contains_key(
                    (#[trigger] query_pairs@[i]).1@.id(),
                ) by {
                    if i < pairs_before.len() {
                        assert(pairs_view(pairs_before)[i] == pairs_view(query_pairs@)[i]);
                        assert(store_view(store_before).contains_key(pairs_before[i].1@.id()));
                    } else {
                        let k = i - pairs_before.len();
                        assert(pairs_view(query_pairs@)[i] == qs[k]);
                        assert(pairs_view(query_pairs@)[i].1 == query_pairs@[i].1@);
                    }
                }
            }
            f = f + 1;
        }
        assert(gv.subrange(0, f as int) =~= gv);
        let ghost primary_pairs = pairs_view(query_pairs@);
        let ghost known = geonames@.dom();
        assert(store_view(geonames@).dom() =~= known);
        if let Some(files) = alternate_files {
            let ghost av = files.deep_view();
            let mut f: usize = 0;
            assert(av.subrange(0, 0) =~= seq![]);
            assert(pairs_view(query_pairs@) =~= primary_pairs + seq![]);
            while f < files.len()
                invariant
                    0 <= f <= files.len(),
                    av == files.deep_view(),
                    alternate_files == Some(files),
                    gv == gn_files.deep_view(),
                    known == geonames@.dom(),
                    primary_files_outcome(gv, Map::empty()) == Ok::<
                        (Seq<(Seq<char>, MatchTypeView)>, Map<u64, EntryView>),
                        BuildError,
                    >((primary_pairs, store_view(geonames@))),
                    store_view(geonames@).dom() == known,
                    langs == match languages {
                        Some(l) => Some(l.deep_view()),
                        None => None,
                    },
                    alternate_files_outcome(av.subrange(0, f as int), known, langs) is Ok,
                    pairs_view(query_pairs@) == primary_pairs + alternate_files_outcome(
                        av.subrange(0, f as int),
                        known,
                        langs,
                    )->Ok_0,
                    forall|i: int|
                        0 <= i < query_pairs@.len() ==> store_view(geonames@).contains_key(
                            (#[trigger] query_pairs@[i]).1@.id(),
                        ),
                decreases files.len() - f,
            {
                let ghost pairs_before = query_pairs@;
                assert(av.subrange(0, f + 1).drop_last() =~= av.subrange(0, f as int));
                assert(av.subrange(0, f + 1).last() == files@[f as int]@);
                let res = parse_alternate_names_file(
                    files[f].as_slice(),
                    &mut query_pairs,
                    &geonames,
                    languages,
                );
                if res.is_err() {
                    proof {
                        lemma_alternate_files_error_persists(av, known, langs, f + 1);
                    }
                    return Err(res.unwrap_err());
                }
                proof {
                    let rows = crate::outside::tsv_records(files@[f as int]@)->Some_0;
                    lemma_alternate_ids(rows, known, langs);
                    assert(pairs_view(query_pairs@) =~= primary_pairs + alternate_files_outcome(
                        av.subrange(0, f + 1),
                        known,
                        langs,
                    )->Ok_0);
                    assert forall|i: int| 0 <= i < query_pairs@.len() implies store_view(geonames@).contains_key(
                        (#[trigger] query_pairs@[i]).1@.id(),
                    ) by {
                        if i < pairs_before.len() {
                            assert(pairs_view(pairs_before)[i] == pairs_view(query_pairs@)[i]);
                        } else {
                            let k = i - pairs_before.len();
                            let qs = crate::ingest::alternate_outcome(rows, known, langs)->Ok_0;
                            assert(pairs_view(query_pairs@) == pairs_view(pairs_before) + qs);
                            assert(pairs_view(query_pairs@)[i] == qs[k]);
                            assert(pairs_view(query_pairs@)[i].1 == query_pairs@[i].1@);
                        }
                    }
                }
                f = f + 1;
            }
            assert(av.subrange(0, f as int) =~= av);
        }
        GeoNamesSearcher::from_pairs(query_pairs, geonames)
    }
}

/// In a well-formed index every key of the transducer leads to a group that
/// is not empty, and every provenance of every group names a record of the
/// entry store.
pub proof fn lemma_keys_resolve(s: &GeoNamesSearcher)
    requires
        s.wf(),
    ensures
        forall|i: int|
            #![trigger s.transducer_entries()[i]]
            0 <= i < s.transducer_entries().len() ==> {
                let g = s.transducer_entries()[i].1 as int;
                &&& g < s.groups().len()
                &&& s.groups()[g].len() > 0
                &&& forall|j: int|
                    0 <= j < s.groups()[g].len() ==> s.store().contains_key(
                        #[trigger] s.groups()[g][j].id(),
                    )
            },
{
}

/// In a strictly increasing list of terms, keys grow from any position to
/// any later one, so no two positions hold the same term.
proof fn lemma_terms_strict(terms: Seq<String>, a: int, b: int)
    requires
        0 <= a < b < terms.len(),
        forall|g: int|
            0 < g < terms.len() ==> seq_lt(term_key((#[trigger] terms[g - 1])@), term_key(terms[g]@)),
    ensures
        seq_lt(term_key(terms[a]@), term_key(terms[b]@)),
        terms[a]@ != terms[b]@,
    decreases b - a,
{
    let g = b;
    assert(seq_lt(term_key(terms[g - 1]@), term_key(terms[g]@)));
    if b > a + 1 {
        lemma_terms_strict(terms, a, b - 1);
        lemma_seq_lt_transitive(term_key(terms[a]@), term_key(terms[b - 1]@), term_key(terms[b]@));
    }
    if terms[a]@ == terms[b]@ {
        lemma_seq_lt_irreflexive(term_key(terms[a]@));
    }
}

/// A term that no pair has has no provenances.
proof fn lemma_provenances_absent(ps: Seq<(Seq<char>, MatchTypeView)>, t: Seq<char>)
    requires
        forall|j: int| 0 <= j < ps.len() ==> #[trigger] ps[j].0 != t,
    ensures
        provenances_of(ps, t) == Seq::<MatchTypeView>::empty(),
    decreases ps.len(),
{
    if ps.len() > 0 {
        assert(ps.last() == ps[ps.len() - 1]);
        lemma_provenances_absent(ps.drop_last(), t);
    }
}

/// Two lists with the same classes under the term key hold the same terms.
proof fn lemma_same_terms(a: Seq<(String, MatchType)>, b: Seq<(String, MatchType)>, t: Seq<char>)
    requires
        same_classes(a, b, |p: (String, MatchType)| p.rank_key()),
    ensures
        has_term(pairs_view(a), t) == has_term(pairs_view(b), t),
{
    lemma_has_term_class(a, t);
    lemma_has_term_class(b, t);
    assert(class_of(a, |p: (String, MatchType)| p.rank_key(), term_key(t)) == class_of(
        b,
        |p: (String, MatchType)| p.rank_key(),
        term_key(t),
    ));
}

proof fn lemma_has_term_class(a: Seq<(String, MatchType)>, t: Seq<char>)
    ensures
        has_term(pairs_view(a), t) == (class_of(a, |p: (String, MatchType)| p.rank_key(), term_key(t)).len()
            > 0),
{
    let key = |p: (String, MatchType)| p.rank_key();
    if has_term(pairs_view(a), t) {
        let j = choose|j: int| 0 <= j < pairs_view(a).len() && #[trigger] pairs_view(a)[j].0 == t;
        lemma_class_of_member(a, key, j);
    }
    if class_of(a, key, term_key(t)).len() > 0 {
        lemma_class_nonempty(a, key, term_key(t));
        let j = choose|j: int| 0 <= j < a.len() && key(a[j]) == term_key(t);
        lemma_term_key_injective(a[j].0@, t);
        assert(pairs_view(a)[j].0 == t);
    }
}

} // verus!
