//! Annotation of a document's entities: each entity's text is looked up,
//! and the first result or all results become annotations of the entity.
use vstd::prelude::*;
use crate::data::{GeoNamesSearchResult, GeoNamesSearchResultWithDist, ResultView, ResultWithDistView};
use crate::index::GeoNamesSearcher;
use crate::error::QueryError;
use crate::order::is_ranking_of;
use crate::outside::{
    is_ascii_text, is_prefix, is_subsequence, levenshtein_dfa_accepts, levenshtein_dfa_states,
    within_distance,
};
use crate::routes::{
    admits, filter_results, filter_view, filtered, filtered_dist, FilterResults, FilterView,
};
use crate::search::{dist_results_view, results_view};
use vstd::utf8::encode_utf8;

verus! {

/// An entity of a document: a reference and its covered text.
pub struct Entity {
    pub reference: u32,
    pub text: String,
}

/// A search result attached to the entity it annotates.
#[derive(Debug, PartialEq)]
pub struct AnnotatedEntity {
    pub reference: u32,
    pub annotation: GeoNamesSearchResultWithDist,
}

pub struct AnnotationView {
    pub reference: u32,
    pub annotation: ResultWithDistView,
}

impl View for AnnotatedEntity {
    type V = AnnotationView;

    open spec fn view(&self) -> AnnotationView {
        AnnotationView { reference: self.reference, annotation: self.annotation@ }
    }
}

pub open spec fn annotations_view(s: Seq<AnnotatedEntity>) -> Seq<AnnotationView> {
    s.map_values(|a: AnnotatedEntity| a@)
}

impl AnnotatedEntity {
    pub fn annotate(entity: &Entity, annotation: GeoNamesSearchResultWithDist) -> (r: AnnotatedEntity)
        ensures
            r@ == (AnnotationView { reference: entity.reference, annotation: annotation@ }),
    {
        AnnotatedEntity { reference: entity.reference, annotation }
    }
}

/// Which results of an entity become annotations.
#[derive(Debug, Clone, Copy, PartialEq, Eq)]
pub enum ResultSelection {
    First,
    All,
}

impl Default for ResultSelection {
    fn default() -> (r: Self)
        ensures
            r == ResultSelection::First,
    {
        ResultSelection::First
    }
}

/// Results at distance zero.
pub open spec fn at_distance_zero(s: Seq<ResultView>) -> Seq<ResultWithDistView> {
    s.map_values(
        |v: ResultView| ResultWithDistView { name: v.name, typ: v.typ, entry: v.entry, distance: 0 },
    )
}

impl ResultSelection {
    /// The annotations of an entity with these results: the first result
    /// alone (none when there is no result), or all of them in order.
    pub open spec fn select(self, reference: u32, items: Seq<ResultWithDistView>) -> Option<
        Seq<AnnotationView>,
    > {
        match self {
            ResultSelection::First => if items.len() == 0 {
                None
            } else {
                Some(seq![AnnotationView { reference, annotation: items[0] }])
            },
            ResultSelection::All => Some(
                items.map_values(|v: ResultWithDistView| AnnotationView { reference, annotation: v }),
            ),
        }
    }

    pub fn apply(&self, entity: &Entity, items: Vec<GeoNamesSearchResultWithDist>) -> (r: Option<
        Vec<AnnotatedEntity>,
    >)
        ensures
            match r {
                Some(v) => self.select(
                    entity.reference,
                    items@.map_values(|x: GeoNamesSearchResultWithDist| x@),
                ) == Some(annotations_view(v@)),
                None => self.select(
                    entity.reference,
                    items@.map_values(|x: GeoNamesSearchResultWithDist| x@),
                ) is None,
            },
    {
        let ghost iv = items@.map_values(|x: GeoNamesSearchResultWithDist| x@);
        match self {
            ResultSelection::First => {
                if items.len() == 0 {
                    None
                } else {
                    let mut out: Vec<AnnotatedEntity> = Vec::new();
                    out.push(AnnotatedEntity::annotate(entity, items[0].snapshot()));
                    assert(annotations_view(out@) =~= seq![
                        AnnotationView { reference: entity.reference, annotation: iv[0] },
                    ]);
                    Some(out)
                }
            },
            ResultSelection::All => {
                let mut out: Vec<AnnotatedEntity> = Vec::new();
                let mut i: usize = 0;
                while i < items.len()
                    invariant
                        0 <= i <= items.len(),
                        iv == items@.map_values(|x: GeoNamesSearchResultWithDist| x@),
                        annotations_view(out@) == iv.subrange(0, i as int).map_values(
                            |v: ResultWithDistView|
                                AnnotationView { reference: entity.reference, annotation: v },
                        ),
                    decreases items.len() - i,
                {
                    let ghost before = annotations_view(out@);
                    out.push(AnnotatedEntity::annotate(entity, items[i].snapshot()));
                    assert(annotations_view(out@) =~= before.push(
                        AnnotationView { reference: entity.reference, annotation: iv[i as int] },
                    ));
                    assert(iv.subrange(0, i + 1) =~= iv.subrange(0, i as int).push(iv[i as int]));
                    assert(annotations_view(out@) =~= iv.subrange(0, i + 1).map_values(
                        |v: ResultWithDistView|
                            AnnotationView { reference: entity.reference, annotation: v },
                    ));
                    i = i + 1;
                }
                assert(iv.subrange(0, i as int) =~= iv);
                Some(out)
            },
        }
    }
}

/// The annotations of exact lookups of the entities' texts, filtered, at
/// distance zero, entity after entity.
pub open spec fn find_annotations(
    searcher: GeoNamesSearcher,
    texts: Seq<(u32, Seq<char>)>,
    filter: Option<FilterView>,
    selection: ResultSelection,
) -> Seq<AnnotationView>
    decreases texts.len(),
{
    if texts.len() == 0 {
        seq![]
    } else {
        let (reference, text) = texts.last();
        let items = at_distance_zero(filtered(searcher.exact(text), filter));
        let prev = find_annotations(searcher, texts.drop_last(), filter, selection);
        match selection.select(reference, items) {
            Some(a) => prev + a,
            None => prev,
        }
    }
}

pub open spec fn entities_view(s: Seq<Entity>) -> Seq<(u32, Seq<char>)> {
    s.map_values(|e: Entity| (e.reference, e.text@))
}

/// Annotates each entity with the results of exact lookup of its text.
pub fn process_find(
    searcher: &GeoNamesSearcher,
    queries: &Vec<Entity>,
    filter: &Option<FilterResults>,
    selection: ResultSelection,
) -> (r: Vec<AnnotatedEntity>)
    requires
        searcher.wf(),
    ensures
        annotations_view(r@) == find_annotations(
            *searcher,
            entities_view(queries@),
            filter_view(*filter),
            selection,
        ),
{
    let ghost fv = filter_view(*filter);
    let mut out: Vec<AnnotatedEntity> = Vec::new();
    let mut i: usize = 0;
    while i < queries.len()
        invariant
            searcher.wf(),
            0 <= i <= queries.len(),
            fv == filter_view(*filter),
            annotations_view(out@) == find_annotations(
                *searcher,
                entities_view(queries@).subrange(0, i as int),
                fv,
                selection,
            ),
        decreases queries.len() - i,
    {
        let entity = &queries[i];
        let found = searcher.find(entity.text.as_str());
        let kept = filter_results(found, filter);
        proof {
            let p = |x: GeoNamesSearchResult| admits(fv, x.entry@);
            let q = |x: ResultView| admits(fv, x.entry);
            assert forall|x: GeoNamesSearchResult| #[trigger] p(x) == q(x@) by {}
            crate::order::lemma_filter_map(found@, |x: GeoNamesSearchResult| x@, p, q);
            crate::routes::lemma_filter_ext(
                found@,
                |x: GeoNamesSearchResult| admits(fv, crate::data::Entry::entry_view(&x)),
                p,
            );
        }
        let ghost kv = results_view(kept@);
        let mut items: Vec<GeoNamesSearchResultWithDist> = Vec::new();
        let mut k: usize = 0;
        let mut kept = kept;
        let ghost kept0 = kept@;
        while k < kept.len()
            invariant
                0 <= k <= kept.len(),
                kept@ == kept0,
                kv == results_view(kept0),
                items@.map_values(|x: GeoNamesSearchResultWithDist| x@) == at_distance_zero(
                    kv.subrange(0, k as int),
                ),
            decreases kept.len() - k,
        {
            let r = GeoNamesSearchResult::new(
                kept[k].key.name.as_str(),
                &kept[k].key.typ,
                &kept[k].entry,
            );
            let ghost before = items@.map_values(|x: GeoNamesSearchResultWithDist| x@);
            items.push(GeoNamesSearchResultWithDist::from(r));
            assert(kv[k as int] == kept0[k as int]@);
            assert(items@.map_values(|x: GeoNamesSearchResultWithDist| x@) =~= before.push(
                ResultWithDistView {
                    name: kv[k as int].name,
                    typ: kv[k as int].typ,
                    entry: kv[k as int].entry,
                    distance: 0,
                },
            ));
            assert(kv.subrange(0, k + 1) =~= kv.subrange(0, k as int).push(kv[k as int]));
            assert(items@.map_values(|x: GeoNamesSearchResultWithDist| x@) =~= at_distance_zero(
                kv.subrange(0, k + 1),
            ));
            k = k + 1;
        }
        assert(kv.subrange(0, k as int) =~= kv);
        let ghost before = annotations_view(out@);
        let selected = selection.apply(entity, items);
        proof {
            let ev = entities_view(queries@);
            assert(ev.subrange(0, i + 1).drop_last() =~= ev.subrange(0, i as int));
            assert(ev.subrange(0, i + 1).last() == (entity.reference, entity.text@));
        }
        if let Some(annotations) = selected {
            let mut annotations = annotations;
            let ghost av = annotations_view(annotations@);
            out.append(&mut annotations);
            assert(annotations_view(out@) =~= before + av);
        }
        i = i + 1;
    }
    assert(entities_view(queries@).subrange(0, i as int) =~= entities_view(queries@));
    out
}

/// The annotations of the entities, given what each entity's search gave
/// (nothing when the search was refused), entity after entity.
pub open spec fn selected_annotations(
    entities: Seq<(u32, Seq<char>)>,
    outcomes: Seq<Option<Seq<ResultWithDistView>>>,
    selection: ResultSelection,
) -> Seq<AnnotationView>
    decreases entities.len(),
{
    if entities.len() == 0 || outcomes.len() != entities.len() {
        seq![]
    } else {
        let prev = selected_annotations(entities.drop_last(), outcomes.drop_last(), selection);
        match outcomes.last() {
            None => prev,
            Some(items) => match selection.select(entities.last().0, items) {
                Some(a) => prev + a,
                None => prev,
            },
        }
    }
}

/// The kinds of search an entity's text can be given to.
pub enum SearchMode {
    StartsWith { max_dist: u32, filter: Option<FilterResults> },
    Fuzzy { max_dist: u32, filter: Option<FilterResults> },
    Levenshtein { max_dist: u32, state_limit: usize, filter: Option<FilterResults> },
}

/// What the search of `text` in this mode may give: nothing exactly when the
/// search is refused, otherwise its ranked, filtered results.
pub open spec fn mode_outcome(
    searcher: GeoNamesSearcher,
    mode: SearchMode,
    text: Seq<char>,
    outcome: Option<Seq<ResultWithDistView>>,
) -> bool {
    match mode {
        SearchMode::StartsWith { max_dist, filter } => {
            &&& outcome is None <==> text.len() == 0
            &&& outcome matches Some(v) ==> is_ranking_of(
                v,
                filtered_dist(
                    searcher.hit_results_dist(
                        searcher.accepted(|k: Seq<u8>| is_prefix(encode_utf8(text), k)),
                        text,
                        Some(max_dist),
                    ),
                    filter_view(filter),
                ),
                |x: ResultWithDistView| x.key(),
            )
        },
        SearchMode::Fuzzy { max_dist, filter } => {
            &&& outcome is None <==> text.len() == 0
            &&& outcome matches Some(v) ==> is_ranking_of(
                v,
                filtered_dist(
                    searcher.hit_results_dist(
                        searcher.accepted(|k: Seq<u8>| is_subsequence(encode_utf8(text), k)),
                        text,
                        Some(max_dist),
                    ),
                    filter_view(filter),
                ),
                |x: ResultWithDistView| x.key(),
            )
        },
        SearchMode::Levenshtein { max_dist, state_limit, filter } => {
            &&& outcome is None <==> (text.len() == 0 || levenshtein_dfa_states(text, max_dist)
                > state_limit)
            &&& outcome matches Some(v) ==> is_ranking_of(
                v,
                filtered_dist(
                    searcher.hit_results_dist(
                        searcher.accepted(|k: Seq<u8>| levenshtein_dfa_accepts(text, max_dist, k)),
                        text,
                        None,
                    ),
                    filter_view(filter),
                ),
                |x: ResultWithDistView| x.key(),
            )
            &&& is_ascii_text(text) ==> (outcome matches Some(v) ==> is_ranking_of(
                v,
                filtered_dist(
                    searcher.hit_results_dist(
                        searcher.accepted(|k: Seq<u8>| within_distance(text, max_dist as nat, k)),
                        text,
                        None,
                    ),
                    filter_view(filter),
                ),
                |x: ResultWithDistView| x.key(),
            ))
        },
    }
}

/// The search of one entity's text in the mode; `None` when it is refused.
fn search_entity(searcher: &GeoNamesSearcher, mode: &SearchMode, text: &str) -> (r: Option<
    Vec<GeoNamesSearchResultWithDist>,
>)
    requires
        searcher.wf(),
    ensures
        mode_outcome(
            *searcher,
            *mode,
            text@,
            match r {
                Some(v) => Some(dist_results_view(v@)),
                None => None,
            },
        ),
{
    let outcome = match mode {
        SearchMode::StartsWith { max_dist, filter } => crate::routes::starts_with::starts_with(
            searcher,
            text,
            *max_dist,
            filter,
        ),
        SearchMode::Fuzzy { max_dist, filter } => crate::routes::fuzzy::fuzzy(
            searcher,
            text,
            *max_dist,
            filter,
        ),
        SearchMode::Levenshtein { max_dist, state_limit, filter } => {
            crate::routes::levenshtein::levenshtein(searcher, text, *state_limit, *max_dist, filter)
        },
    };
    match outcome {
        Ok(v) => Some(v),
        Err(_) => None,
    }
}

/// Annotates each entity with the results of searching its text in the
/// mode; an entity whose search is refused gets no annotation.
pub fn process_with_dist(
    searcher: &GeoNamesSearcher,
    queries: &Vec<Entity>,
    mode: &SearchMode,
    selection: ResultSelection,
) -> (r: Vec<AnnotatedEntity>)
    requires
        searcher.wf(),
    ensures
        exists|outcomes: Seq<Option<Seq<ResultWithDistView>>>|
            {
                &&& outcomes.len() == queries@.len()
                &&& forall|i: int|
                    0 <= i < queries@.len() ==> mode_outcome(
                        *searcher,
                        *mode,
                        queries@[i].text@,
                        #[trigger] outcomes[i],
                    )
                &&& annotations_view(r@) == selected_annotations(
                    entities_view(queries@),
                    outcomes,
                    selection,
                )
            },
{
    let mut out: Vec<AnnotatedEntity> = Vec::new();
    let ghost mut outcomes: Seq<Option<Seq<ResultWithDistView>>> = seq![];
    let mut i: usize = 0;
    while i < queries.len()
        invariant
            searcher.wf(),
            0 <= i <= queries.len(),
            outcomes.len() == i,
            forall|j: int|
                0 <= j < i ==> mode_outcome(*searcher, *mode, queries@[j].text@, #[trigger] outcomes[j]),
            annotations_view(out@) == selected_annotations(
                entities_view(queries@).subrange(0, i as int),
                outcomes,
                selection,
            ),
        decreases queries.len() - i,
    {
        let entity = &queries[i];
        let found = search_entity(searcher, mode, entity.text.as_str());
        let ghost this = match &found {
            Some(v) => Some(dist_results_view(v@)),
            None => None::<Seq<ResultWithDistView>>,
        };
        let ghost before = annotations_view(out@);
        let ghost prev_outcomes = outcomes;
        proof {
            outcomes = outcomes.push(this);
            let ev = entities_view(queries@);
            assert(ev.subrange(0, i + 1).drop_last() =~= ev.subrange(0, i as int));
            assert(ev.subrange(0, i + 1).last() == (entity.reference, entity.text@));
            assert(outcomes.drop_last() =~= prev_outcomes);
        }
        if let Some(items) = found {
            let ghost iv = items@.map_values(|x: GeoNamesSearchResultWithDist| x@);
            assert(iv =~= dist_results_view(items@));
            if let Some(annotations) = selection.apply(entity, items) {
                let mut annotations = annotations;
                let ghost av = annotations_view(annotations@);
                out.append(&mut annotations);
                assert(annotations_view(out@) =~= before + av);
            }
        }
        i = i + 1;
    }
    assert(entities_view(queries@).subrange(0, i as int) =~= entities_view(queries@));
    out
}

/// Annotates each entity with the entries whose names begin with its text.
pub fn process_starts_with(
    searcher: &GeoNamesSearcher,
    queries: &Vec<Entity>,
    max_dist: u32,
    filter: Option<FilterResults>,
    selection: ResultSelection,
) -> (r: Vec<AnnotatedEntity>)
    requires
        searcher.wf(),
    ensures
        exists|outcomes: Seq<Option<Seq<ResultWithDistView>>>|
            {
                &&& outcomes.len() == queries@.len()
                &&& forall|i: int|
                    0 <= i < queries@.len() ==> mode_outcome(
                        *searcher,
                        SearchMode::StartsWith { max_dist, filter },
                        queries@[i].text@,
                        #[trigger] outcomes[i],
                    )
                &&& annotations_view(r@) == selected_annotations(
                    entities_view(queries@),
                    outcomes,
                    selection,
                )
            },
{
    process_with_dist(searcher, queries, &SearchMode::StartsWith { max_dist, filter }, selection)
}

/// Annotates each entity with the entries whose names hold its text as a subsequence.
pub fn process_fuzzy(
    searcher: &GeoNamesSearcher,
    queries: &Vec<Entity>,
    max_dist: u32,
    filter: Option<FilterResults>,
    selection: ResultSelection,
) -> (r: Vec<AnnotatedEntity>)
    requires
        searcher.wf(),
    ensures
        exists|outcomes: Seq<Option<Seq<ResultWithDistView>>>|
            {
                &&& outcomes.len() == queries@.len()
                &&& forall|i: int|
                    0 <= i < queries@.len() ==> mode_outcome(
                        *searcher,
                        SearchMode::Fuzzy { max_dist, filter },
                        queries@[i].text@,
                        #[trigger] outcomes[i],
                    )
                &&& annotations_view(r@) == selected_annotations(
                    entities_view(queries@),
                    outcomes,
                    selection,
                )
            },
{
    process_with_dist(searcher, queries, &SearchMode::Fuzzy { max_dist, filter }, selection)
}

/// Annotates each entity with the entries that the edit-distance automaton
/// accepts for its text (for ASCII text, those within the distance).
pub fn process_levenshtein(
    searcher: &GeoNamesSearcher,
    queries: &Vec<Entity>,
    max_dist: u32,
    state_limit: usize,
    filter: Option<FilterResults>,
    selection: ResultSelection,
) -> (r: Vec<AnnotatedEntity>)
    requires
        searcher.wf(),
    ensures
        exists|outcomes: Seq<Option<Seq<ResultWithDistView>>>|
            {
                &&& outcomes.len() == queries@.len()
                &&& forall|i: int|
                    0 <= i < queries@.len() ==> mode_outcome(
                        *searcher,
                        SearchMode::Levenshtein { max_dist, state_limit, filter },
                        queries@[i].text@,
                        #[trigger] outcomes[i],
                    )
                &&& annotations_view(r@) == selected_annotations(
                    entities_view(queries@),
                    outcomes,
                    selection,
                )
            },
{
    process_with_dist(
        searcher,
        queries,
        &SearchMode::Levenshtein { max_dist, state_limit, filter },
        selection,
    )
}

} // verus!
