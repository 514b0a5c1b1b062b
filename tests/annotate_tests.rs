use geonames_search::data::{GeoNamesSearchResultWithDist, MatchType};
use geonames_search::duui::{process_find, AnnotatedEntity, Entity, ResultSelection};
use geonames_search::index::GeoNamesSearcher;
use geonames_search::routes::fuzzy::fuzzy;
use geonames_search::routes::FilterResults;

fn index() -> GeoNamesSearcher {
    let rows = "3\tFeldberg\tFeldberg\t\t47.87\t8.00\tT\tMT\tDE\n\
                4\tFeldberg\tFeldberg\t\t53.33\t13.43\tP\tPPL\tDE\n\
                1\tFrankfurt\tFrankfurt\t\t50.11\t8.68\tP\tPPLA\tDE\n";
    GeoNamesSearcher::build(&vec![rows.as_bytes().to_vec()], None, None).unwrap()
}

fn entity(reference: u32, text: &str) -> Entity {
    Entity { reference, text: text.to_string() }
}

#[test]
fn selection_defaults_to_first() {
    assert_eq!(ResultSelection::default(), ResultSelection::First);
}

#[test]
fn apply_first_keeps_only_the_first_result() {
    let idx = index();
    let items: Vec<GeoNamesSearchResultWithDist> = fuzzy(&idx, "Fldbrg", 0, &None).unwrap();
    assert_eq!(items.len(), 2);
    let e = entity(7, "Fldbrg");
    let first = ResultSelection::First.apply(&e, items).unwrap();
    assert_eq!(first.len(), 1);
    assert_eq!(first[0].reference, 7);
    assert_eq!(first[0].annotation.key.typ, MatchType::Name { id: 3 });
    assert!(ResultSelection::First.apply(&e, Vec::new()).is_none());
}

#[test]
fn apply_all_keeps_every_result_in_order() {
    let idx = index();
    let items = fuzzy(&idx, "Fldbrg", 0, &None).unwrap();
    let e = entity(9, "Fldbrg");
    let all = ResultSelection::All.apply(&e, items).unwrap();
    let ids: Vec<u64> = all.iter().map(|a| a.annotation.entry.id).collect();
    assert_eq!(ids, vec![3, 4]);
    assert!(all.iter().all(|a| a.reference == 9));
    assert_eq!(ResultSelection::All.apply(&e, Vec::new()).unwrap(), Vec::<AnnotatedEntity>::new());
}

#[test]
fn annotate_attaches_reference() {
    let idx = index();
    let item = fuzzy(&idx, "Frankfurt", 0, &None).unwrap().remove(0);
    let a = AnnotatedEntity::annotate(&entity(42, "Frankfurt"), item);
    assert_eq!(a.reference, 42);
    assert_eq!(a.annotation.distance, 0);
}

#[test]
fn process_find_annotates_each_entity() {
    let idx = index();
    let queries = vec![entity(1, "Feldberg"), entity(2, "Nowhere"), entity(3, "Frankfurt")];
    let first = process_find(&idx, &queries, &None, ResultSelection::First);
    let refs: Vec<(u32, u64, usize)> =
        first.iter().map(|a| (a.reference, a.annotation.entry.id, a.annotation.distance)).collect();
    assert_eq!(refs, vec![(1, 3, 0), (3, 1, 0)]);
    let all = process_find(&idx, &queries, &None, ResultSelection::All);
    let refs: Vec<(u32, u64)> = all.iter().map(|a| (a.reference, a.annotation.entry.id)).collect();
    assert_eq!(refs, vec![(1, 3), (1, 4), (3, 1)]);
    let populated = Some(FilterResults {
        feature_class: Some("P".to_string()),
        feature_code: None,
        country_code: None,
    });
    let filtered = process_find(&idx, &queries, &populated, ResultSelection::All);
    let refs: Vec<(u32, u64)> =
        filtered.iter().map(|a| (a.reference, a.annotation.entry.id)).collect();
    assert_eq!(refs, vec![(1, 4), (3, 1)]);
}

#[test]
fn process_starts_with_skips_refused_entities() {
    let idx = index();
    let queries = vec![entity(1, "Feld"), entity(2, ""), entity(3, "Frank")];
    let all = geonames_search::duui::process_starts_with(&idx, &queries, 0, None, ResultSelection::All);
    let refs: Vec<(u32, u64, usize)> =
        all.iter().map(|a| (a.reference, a.annotation.entry.id, a.annotation.distance)).collect();
    assert_eq!(refs, vec![(1, 3, 4), (1, 4, 4), (3, 1, 4)]);
}

#[test]
fn process_levenshtein_with_too_small_limit_gives_nothing() {
    let idx = index();
    let queries = vec![entity(1, "Feldberk")];
    let none = geonames_search::duui::process_levenshtein(&idx, &queries, 1, 1, None, ResultSelection::All);
    assert!(none.is_empty());
    let some = geonames_search::duui::process_levenshtein(&idx, &queries, 1, 10000, None, ResultSelection::First);
    assert_eq!(some.len(), 1);
    assert_eq!(some[0].annotation.key.name, "Feldberg");
    assert_eq!(some[0].annotation.distance, 1);
}

#[test]
fn process_fuzzy_first_per_entity() {
    let idx = index();
    let queries = vec![entity(5, "Frkft")];
    let first = geonames_search::duui::process_fuzzy(&idx, &queries, 0, None, ResultSelection::First);
    assert_eq!(first.len(), 1);
    assert_eq!(first[0].annotation.key.name, "Frankfurt");
}
