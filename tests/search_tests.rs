use geonames_search::data::{GeoNamesSearchResultWithDist, MatchType};
use geonames_search::error::{BuildError, QueryError};
use geonames_search::index::GeoNamesSearcher;
use geonames_search::ingest::match_type_of_flags;
use geonames_search::routes::find::{_schemars_default_filter_class_t, find};
use geonames_search::routes::fuzzy::fuzzy;
use geonames_search::routes::levenshtein::{_default_state_limit, levenshtein, levenshtein_inner};
use geonames_search::routes::regex::regex;
use geonames_search::routes::starts_with::starts_with;
use geonames_search::routes::{filter_results, FilterResults};

fn primary_row(id: &str, name: &str, ascii: &str, class: &str, code: &str, country: &str) -> String {
    format!("{id}\t{name}\t{ascii}\t\t50.11\t8.68\t{class}\t{code}\t{country}\t\t05\t064\t\t\t\t112\n")
}

fn frankfurt_index() -> GeoNamesSearcher {
    let primary = primary_row("1", "Frankfurt", "Frankfurt", "P", "PPLA", "DE");
    let alternate = "100\t1\tde\tFrankfurt am Main\t1\t\t\t\t\t\n".to_string();
    GeoNamesSearcher::build(
        &vec![primary.into_bytes()],
        Some(&vec![alternate.into_bytes()]),
        None,
    )
    .unwrap()
}

fn sample_index() -> GeoNamesSearcher {
    let mut primary = String::new();
    primary.push_str(&primary_row("1", "Frankfurt", "Frankfurt", "P", "PPLA", "DE"));
    primary.push_str(&primary_row("2", "Frankfurt (Oder)", "Frankfurt (Oder)", "P", "PPLA3", "DE"));
    primary.push_str(&primary_row("3", "Feldberg", "Feldberg", "T", "MT", "DE"));
    primary.push_str(&primary_row("4", "Feldberg", "Feldberg", "P", "PPL", "DE"));
    primary.push_str(&primary_row("5", "Zürich", "Zurich", "P", "PPLA", "CH"));
    primary.push_str(&primary_row("6", "Frankfort", "Frankfort", "P", "PPLA", "US"));
    let mut alternate = String::new();
    alternate.push_str("100\t1\tde\tFrankfurt am Main\t1\t\t\t\t\t\n");
    alternate.push_str("101\t1\ten\tFrankfort\t\t\t\t\t\t\n");
    alternate.push_str("102\t5\tde\tZüri\t\t\t1\t\t\t\n");
    alternate.push_str("103\t5\tla\tTuricum\t\t\t\t1\t1000\t1300\n");
    alternate.push_str("104\t99\tde\tNowhere\t1\t\t\t\t\t\n");
    alternate.push_str("105\t3\tde\tFeldberg\t\t1\t\t\t\t\n");
    GeoNamesSearcher::build(
        &vec![primary.into_bytes()],
        Some(&vec![alternate.into_bytes()]),
        None,
    )
    .unwrap()
}

#[test]
fn ingest_frankfurt_example_terms() {
    let index = frankfurt_index();
    let name = find(&index, "Frankfurt", &None).unwrap();
    assert_eq!(name.len(), 1);
    assert_eq!(name[0].key.typ, MatchType::Name { id: 1 });
    let alt = find(&index, "Frankfurt am Main", &None).unwrap();
    assert_eq!(alt.len(), 1);
    assert_eq!(
        alt[0].key.typ,
        MatchType::PreferredName { id: 1, lang: "de".to_string() }
    );
    assert_eq!(alt[0].key.name, "Frankfurt am Main");
    // no ASCII pair: the ASCII name equals the name
    assert!(find(&index, "Frankfurt a", &None).unwrap().is_empty());
}

#[test]
fn exact_frankfurt_returns_name_provenance() {
    let index = frankfurt_index();
    let results = index.find("Frankfurt");
    assert_eq!(results.len(), 1);
    assert_eq!(results[0].key.typ, MatchType::Name { id: 1 });
    assert_eq!(results[0].entry.id, 1);
    assert_eq!(results[0].entry.name, "Frankfurt");
    assert_eq!(results[0].entry.feature_class, "P");
    assert_eq!(results[0].entry.country_code, "DE");
}

#[test]
fn fuzzy_frnkfrt_matches_frankfurt_at_distance_two() {
    let index = frankfurt_index();
    let results = fuzzy(&index, "Frnkfrt", 0, &None).unwrap();
    let frankfurt: Vec<&GeoNamesSearchResultWithDist> =
        results.iter().filter(|r| r.key.name == "Frankfurt").collect();
    assert_eq!(frankfurt.len(), 1);
    assert_eq!(frankfurt[0].distance, 2);
    assert_eq!(results[0].key.name, "Frankfurt");
    assert!(results.iter().any(|r| r.key.name == "Frankfurt am Main"));
}

#[test]
fn empty_query_is_refused_by_every_operation() {
    let index = sample_index();
    assert_eq!(find(&index, "", &None).unwrap_err(), QueryError::EmptyQuery);
    assert_eq!(regex(&index, "", &None).unwrap_err(), QueryError::EmptyQuery);
    assert_eq!(starts_with(&index, "", 0, &None).unwrap_err(), QueryError::EmptyQuery);
    assert_eq!(fuzzy(&index, "", 0, &None).unwrap_err(), QueryError::EmptyQuery);
    assert_eq!(
        levenshtein(&index, "", 10000, 1, &None).unwrap_err(),
        QueryError::EmptyQuery
    );
}

#[test]
fn exact_returns_group_in_stored_order() {
    let index = sample_index();
    let results = index.find("Feldberg");
    let kinds: Vec<MatchType> = results.iter().map(|r| r.key.typ.clone()).collect();
    assert_eq!(
        kinds,
        vec![
            MatchType::Name { id: 3 },
            MatchType::Name { id: 4 },
            MatchType::ShortName { id: 3, lang: "de".to_string() },
        ]
    );
    assert!(index.find("Feld").is_empty());
    assert!(index.find("Nowhere").is_empty());
}

#[test]
fn ascii_name_pair_only_when_it_differs() {
    let index = sample_index();
    let ascii = index.find("Zurich");
    assert_eq!(ascii.len(), 1);
    assert_eq!(ascii[0].key.typ, MatchType::AsciiName { id: 5 });
    assert_eq!(ascii[0].entry.name, "Zürich");
    let name = index.find("Zürich");
    assert_eq!(name.len(), 1);
    assert_eq!(name[0].key.typ, MatchType::Name { id: 5 });
}

#[test]
fn alternate_flags_select_kind() {
    let index = sample_index();
    let colloquial = index.find("Züri");
    assert_eq!(colloquial[0].key.typ, MatchType::Colloquial { id: 5, lang: "de".to_string() });
    let historic = index.find("Turicum");
    assert_eq!(
        historic[0].key.typ,
        MatchType::Historic {
            id: 5,
            lang: "la".to_string(),
            from: "1000".to_string(),
            to: "1300".to_string()
        }
    );
    let frankfort = index.find("Frankfort");
    assert_eq!(
        frankfort.iter().map(|r| r.key.typ.clone()).collect::<Vec<_>>(),
        vec![MatchType::Name { id: 6 }, MatchType::Alternate { id: 1, lang: "en".to_string() }]
    );
}

#[test]
fn flags_map_to_one_kind_or_alternate() {
    let lang = || "de".to_string();
    let s = || String::new();
    assert_eq!(
        match_type_of_flags(true, false, false, false, 7, lang(), s(), s()),
        MatchType::PreferredName { id: 7, lang: lang() }
    );
    assert_eq!(
        match_type_of_flags(false, true, false, false, 7, lang(), s(), s()),
        MatchType::ShortName { id: 7, lang: lang() }
    );
    assert_eq!(
        match_type_of_flags(false, false, true, false, 7, lang(), s(), s()),
        MatchType::Colloquial { id: 7, lang: lang() }
    );
    assert_eq!(
        match_type_of_flags(false, false, false, true, 7, lang(), "a".to_string(), "b".to_string()),
        MatchType::Historic { id: 7, lang: lang(), from: "a".to_string(), to: "b".to_string() }
    );
    assert_eq!(
        match_type_of_flags(true, true, false, false, 7, lang(), s(), s()),
        MatchType::Alternate { id: 7, lang: lang() }
    );
    assert_eq!(
        match_type_of_flags(false, false, false, false, 7, lang(), s(), s()),
        MatchType::Alternate { id: 7, lang: lang() }
    );
}

#[test]
fn unknown_record_alternates_are_dropped() {
    let index = sample_index();
    assert!(index.find("Nowhere").is_empty());
    assert!(index.get(99).is_none());
}

#[test]
fn language_filter_keeps_listed_languages() {
    let primary = primary_row("1", "Frankfurt", "Frankfurt", "P", "PPLA", "DE");
    let alternate = "100\t1\tde\tFrankfurt am Main\t1\t\t\t\t\t\n101\t1\ten\tFrankfort\t\t\t\t\t\t\n";
    let languages = vec!["en".to_string()];
    let index = GeoNamesSearcher::build(
        &vec![primary.into_bytes()],
        Some(&vec![alternate.as_bytes().to_vec()]),
        Some(&languages),
    )
    .unwrap();
    assert!(index.find("Frankfurt am Main").is_empty());
    assert_eq!(index.find("Frankfort").len(), 1);
}

#[test]
fn record_columns_and_defaults() {
    let index = sample_index();
    let e = index.get(1).unwrap();
    assert_eq!(e.latitude, "50.11");
    assert_eq!(e.longitude, "8.68");
    assert_eq!(e.feature_code, "PPLA");
    assert_eq!(e.administrative_divisions.0, "05");
    assert_eq!(e.administrative_divisions.1, "064");
    assert_eq!(e.administrative_divisions.2, "");
    assert_eq!(e.elevation, Some(112));
    let short = GeoNamesSearcher::build(&vec![b"7\tShort\tShort\n".to_vec()], None, None).unwrap();
    let s = short.get(7).unwrap();
    assert_eq!(s.feature_class, "<missing>");
    assert_eq!(s.feature_code, "<missing>");
    assert_eq!(s.country_code, "<missing>");
    assert_eq!(s.latitude, "");
    assert_eq!(s.elevation, None);
}

#[test]
fn later_primary_row_replaces_record() {
    let rows = format!(
        "{}{}",
        primary_row("1", "Old", "Old", "P", "PPL", "DE"),
        primary_row("1", "New", "New", "A", "ADM1", "AT")
    );
    let index = GeoNamesSearcher::build(&vec![rows.into_bytes()], None, None).unwrap();
    assert_eq!(index.get(1).unwrap().name, "New");
    let old = index.find("Old");
    assert_eq!(old.len(), 1);
    assert_eq!(old[0].entry.name, "New");
}

#[test]
fn empty_terms_are_not_indexed() {
    let index = GeoNamesSearcher::build(&vec![b"8\t\tEmpty\n".to_vec()], None, None).unwrap();
    assert!(index.find("").is_empty());
    assert_eq!(index.find("Empty").len(), 1);
    assert_eq!(starts_with(&index, "E", 0, &None).unwrap().len(), 1);
}

#[test]
fn missing_mandatory_column_fails_build() {
    let r = GeoNamesSearcher::build(&vec![b"1\tOnly name\n".to_vec()], None, None);
    assert_eq!(r.err(), Some(BuildError::MissingColumn(2)));
    let alt = GeoNamesSearcher::build(
        &vec![primary_row("1", "A", "A", "P", "PPL", "DE").into_bytes()],
        Some(&vec![b"100\t1\tde\tB\t1\n".to_vec()]),
        None,
    );
    assert_eq!(alt.err(), Some(BuildError::MissingColumn(5)));
}

#[test]
fn invalid_identifier_fails_build() {
    let r = GeoNamesSearcher::build(&vec![b"x1\tName\tName\n".to_vec()], None, None);
    assert_eq!(r.err(), Some(BuildError::InvalidIdentifier));
    let big = GeoNamesSearcher::build(&vec![b"18446744073709551616\tA\tA\n".to_vec()], None, None);
    assert_eq!(big.err(), Some(BuildError::InvalidIdentifier));
    let plus = GeoNamesSearcher::build(&vec![b"+12\tA\tA\n".to_vec()], None, None).unwrap();
    assert!(plus.get(12).is_some());
}

#[test]
fn unreadable_rows_fail_build() {
    let r = GeoNamesSearcher::build(&vec![vec![b'1', b'\t', 0xff, 0xfe, b'\t', b'a', b'\n']], None, None);
    assert_eq!(r.err(), Some(BuildError::UnreadableRows));
}

#[test]
fn traversal_results_are_ranked_by_kind_then_id() {
    let index = sample_index();
    let results = regex(&index, "Frankf.*", &None).unwrap();
    let keys: Vec<(String, MatchType)> =
        results.iter().map(|r| (r.key.name.clone(), r.key.typ.clone())).collect();
    assert_eq!(
        keys,
        vec![
            ("Frankfurt".to_string(), MatchType::Name { id: 1 }),
            ("Frankfurt (Oder)".to_string(), MatchType::Name { id: 2 }),
            ("Frankfort".to_string(), MatchType::Name { id: 6 }),
            (
                "Frankfurt am Main".to_string(),
                MatchType::PreferredName { id: 1, lang: "de".to_string() }
            ),
            ("Frankfort".to_string(), MatchType::Alternate { id: 1, lang: "en".to_string() }),
        ]
    );
}

#[test]
fn regex_anchored_pattern() {
    let index = sample_index();
    let results = regex(&index, "^Frankfurt$", &None).unwrap();
    assert_eq!(results.len(), 1);
    assert_eq!(results[0].key.name, "Frankfurt");
    assert!(regex(&index, "^Berlin", &None).unwrap().is_empty());
}

#[test]
fn invalid_regex_is_reported() {
    let index = sample_index();
    match regex(&index, "(unclosed", &None) {
        Err(QueryError::InvalidRegex(message)) => assert!(!message.is_empty()),
        other => panic!("unexpected {other:?}"),
    }
}

#[test]
fn starts_with_reports_distances_in_order() {
    let index = sample_index();
    let results = starts_with(&index, "Frankfurt", 0, &None).unwrap();
    let names: Vec<(String, usize)> =
        results.iter().map(|r| (r.key.name.clone(), r.distance)).collect();
    assert_eq!(
        names,
        vec![
            ("Frankfurt".to_string(), 0),
            ("Frankfurt (Oder)".to_string(), 7),
            ("Frankfurt am Main".to_string(), 8),
        ]
    );
}

#[test]
fn max_distance_filters_and_grows_monotonically() {
    let index = sample_index();
    let small = starts_with(&index, "Frankfurt", 7, &None).unwrap();
    let large = starts_with(&index, "Frankfurt", 8, &None).unwrap();
    assert_eq!(small.len(), 2);
    assert_eq!(large.len(), 3);
    for r in &small {
        assert!(large.contains(r));
    }
    let unfiltered = starts_with(&index, "Frankfurt", 0, &None).unwrap();
    assert_eq!(unfiltered, large);
}

#[test]
fn levenshtein_finds_terms_within_distance() {
    let index = sample_index();
    let results = levenshtein(&index, "Frankfurd", _default_state_limit(), 1, &None).unwrap();
    let names: Vec<(String, usize)> =
        results.iter().map(|r| (r.key.name.clone(), r.distance)).collect();
    assert_eq!(names, vec![("Frankfurt".to_string(), 1)]);
    let two = levenshtein(&index, "Frankfurd", _default_state_limit(), 2, &None).unwrap();
    let names: Vec<String> = two.iter().map(|r| r.key.name.clone()).collect();
    assert_eq!(names, vec!["Frankfurt", "Frankfort", "Frankfort"]);
    let unicode = levenshtein(&index, "Zurich", _default_state_limit(), 1, &None).unwrap();
    let names: Vec<String> = unicode.iter().map(|r| r.key.name.clone()).collect();
    assert_eq!(names, vec!["Zurich", "Zürich"]);
}

#[test]
fn levenshtein_state_limit_exceeded() {
    let index = sample_index();
    let r = levenshtein_inner(&index, "Frankfurt", 1, 2, &None);
    assert_eq!(r.unwrap_err(), QueryError::TooManyStates(1));
    assert!(levenshtein_inner(&index, "Frankfurt", 10000, 2, &None).is_ok());
}

#[test]
fn filter_by_attributes_in_any_order() {
    let index = sample_index();
    let all = index.find("Feldberg");
    let class_t = Some(FilterResults {
        feature_class: Some("T".to_string()),
        feature_code: None,
        country_code: None,
    });
    let both = _schemars_default_filter_class_t();
    let by_class = filter_results(index.find("Feldberg"), &class_t);
    assert_eq!(by_class.len(), 2);
    assert!(by_class.iter().all(|r| r.entry.id == 3));
    let by_both = filter_results(index.find("Feldberg"), &both);
    assert_eq!(by_both, by_class);
    let country_then_class = filter_results(
        filter_results(
            index.find("Feldberg"),
            &Some(FilterResults {
                feature_class: None,
                feature_code: None,
                country_code: Some("DE".to_string()),
            }),
        ),
        &class_t,
    );
    assert_eq!(country_then_class, by_both);
    assert_eq!(filter_results(index.find("Feldberg"), &None), all);
    let none = filter_results(
        index.find("Feldberg"),
        &Some(FilterResults {
            feature_class: Some("T".to_string()),
            feature_code: None,
            country_code: Some("CH".to_string()),
        }),
    );
    assert!(none.is_empty());
}

#[test]
fn filter_after_ranking_keeps_order() {
    let index = sample_index();
    let ranked = regex(&index, "Frank.*", &None).unwrap();
    let us = Some(FilterResults {
        feature_class: None,
        feature_code: None,
        country_code: Some("DE".to_string()),
    });
    let filtered = regex(&index, "Frank.*", &us).unwrap();
    let expected: Vec<(String, MatchType)> = ranked
        .iter()
        .filter(|r| r.entry.country_code == "DE")
        .map(|r| (r.key.name.clone(), r.key.typ.clone()))
        .collect();
    let got: Vec<(String, MatchType)> =
        filtered.iter().map(|r| (r.key.name.clone(), r.key.typ.clone())).collect();
    assert_eq!(got, expected);
}

#[test]
fn reranking_a_ranked_list_changes_nothing() {
    let index = sample_index();
    let first = fuzzy(&index, "Frkt", 0, &None).unwrap();
    let second = fuzzy(&index, "Frkt", 0, &None).unwrap();
    assert_eq!(first, second);
    for w in first.windows(2) {
        let a = (w[0].distance, w[0].key.typ.ord(), w[0].key.typ.id());
        let b = (w[1].distance, w[1].key.typ.ord(), w[1].key.typ.id());
        assert!(a <= b);
    }
}

#[test]
fn match_type_rank_and_id() {
    assert_eq!(MatchType::Name { id: 4 }.ord(), 0);
    assert_eq!(MatchType::AsciiName { id: 4 }.ord(), 1);
    assert_eq!(MatchType::Alternate { id: 9, lang: String::new() }.ord(), 6);
    assert_eq!(MatchType::Alternate { id: 9, lang: String::new() }.id(), 9);
    assert_eq!(
        MatchType::Historic { id: 3, lang: String::new(), from: String::new(), to: String::new() }.ord(),
        5
    );
}

#[test]
fn request_defaults() {
    assert_eq!(geonames_search::routes::find::_schemars_default_query(), "Feldberg");
    assert_eq!(geonames_search::routes::starts_with::_schemars_default_query(), "Frankfurt");
    assert_eq!(geonames_search::routes::fuzzy::_schemars_default_fuzzy_query(), "FrnkfraMain");
    assert_eq!(geonames_search::routes::regex::_schemars_default_regex(), "^Frankfurt.*");
    assert_eq!(
        geonames_search::routes::levenshtein::_schemars_default_levenshtein_query(),
        "Frxnkfxrt"
    );
    assert_eq!(geonames_search::routes::levenshtein::_schemars_default_max_dist(), 1);
    assert_eq!(_default_state_limit(), 10000);
    assert_eq!(geonames_search::routes::levenshtein::_schemars_default_max_dist_one(), Some(1));
    assert_eq!(geonames_search::routes::levenshtein::_schemars_default_state_limit(), Some(10000));
    assert_eq!(geonames_search::routes::_default_string_none(), None);
    assert_eq!(geonames_search::routes::_schemars_default_filter(), None);
}

#[test]
fn result_converts_at_distance_zero() {
    let index = frankfurt_index();
    let r = index.find("Frankfurt").remove(0);
    let d = GeoNamesSearchResultWithDist::from(r);
    assert_eq!(d.distance, 0);
    assert_eq!(d.key.typ, MatchType::Name { id: 1 });
    assert_eq!(d.entry.name, "Frankfurt");
}

#[test]
fn levenshtein_non_ascii_query_stays_within_distance() {
    let index = sample_index();
    let results = levenshtein(&index, "Zürick", _default_state_limit(), 1, &None).unwrap();
    assert!(results.iter().all(|r| r.distance <= 1));
    let wide = levenshtein(&index, "Zürick", _default_state_limit(), 3, &None).unwrap();
    assert!(wide.iter().all(|r| r.distance <= 3));
}
