//! Reading gazetteer rows and alternate-name rows into (term, provenance)
//! pairs and records.
use std::collections::HashMap;
use vstd::prelude::*;
use crate::data::{EntryView, GeoNamesEntry, MatchType, MatchTypeView};
use crate::error::BuildError;
use crate::outside::{parse_i16, parse_u64, parsed_i16, parsed_u64, read_tsv, tsv_records};

verus! {

broadcast use vstd::std_specs::hash::group_hash_axioms;

/// The text of column `i`, or `default` when the row is shorter.
pub open spec fn column(row: Seq<Seq<char>>, i: int, default: Seq<char>) -> Seq<char> {
    if 0 <= i < row.len() {
        row[i]
    } else {
        default
    }
}

/// (term, provenance) pairs as sequences.
pub open spec fn pairs_view(s: Seq<(String, MatchType)>) -> Seq<(Seq<char>, MatchTypeView)> {
    s.map_values(|p: (String, MatchType)| (p.0@, p.1@))
}

/// The entry store as a map of record views.
pub open spec fn store_view(m: Map<u64, GeoNamesEntry>) -> Map<u64, EntryView> {
    m.map_values(|e: GeoNamesEntry| e@)
}

/// The error a gazetteer row raises, if any: identifier, name and ASCII name
/// are mandatory, and the identifier must be a decimal `u64`.
pub open spec fn primary_row_error(row: Seq<Seq<char>>) -> Option<BuildError> {
    if row.len() < 1 {
        Some(BuildError::MissingColumn(0))
    } else if parsed_u64(row[0]) is None {
        Some(BuildError::InvalidIdentifier)
    } else if row.len() < 2 {
        Some(BuildError::MissingColumn(1))
    } else if row.len() < 3 {
        Some(BuildError::MissingColumn(2))
    } else {
        None
    }
}

pub open spec fn row_id(row: Seq<Seq<char>>) -> u64 {
    parsed_u64(row[0])->Some_0
}

/// The pairs of a valid gazetteer row: the ASCII name, where it differs from
/// the name, then the name.
pub open spec fn primary_row_pairs(row: Seq<Seq<char>>) -> Seq<(Seq<char>, MatchTypeView)> {
    let id = row_id(row);
    if row[2] != row[1] {
        seq![(row[2], MatchTypeView::AsciiName { id }), (row[1], MatchTypeView::Name { id })]
    } else {
        seq![(row[1], MatchTypeView::Name { id })]
    }
}

/// The record of a valid gazetteer row.
pub open spec fn primary_record(row: Seq<Seq<char>>) -> EntryView {
    EntryView {
        id: row_id(row),
        name: row[1],
        latitude: column(row, 4, ""@),
        longitude: column(row, 5, ""@),
        feature_class: column(row, 6, "<missing>"@),
        feature_code: column(row, 7, "<missing>"@),
        country_code: column(row, 8, "<missing>"@),
        administrative_divisions: (
            column(row, 10, ""@),
            column(row, 11, ""@),
            column(row, 12, ""@),
            column(row, 13, ""@),
        ),
        elevation: if row.len() > 15 {
            parsed_i16(row[15])
        } else {
            None
        },
    }
}

/// The pairs of gazetteer rows in order, or the error of the first bad row.
pub open spec fn primary_outcome(rows: Seq<Seq<Seq<char>>>) -> Result<
    Seq<(Seq<char>, MatchTypeView)>,
    BuildError,
>
    decreases rows.len(),
{
    if rows.len() == 0 {
        Ok(seq![])
    } else {
        match primary_outcome(rows.drop_last()) {
            Err(e) => Err(e),
            Ok(ps) => match primary_row_error(rows.last()) {
                Some(e) => Err(e),
                None => Ok(ps + primary_row_pairs(rows.last())),
            },
        }
    }
}

/// The entry store after valid gazetteer rows: each row's record under its
/// identifier, a later row replacing an earlier one.
pub open spec fn store_after(store: Map<u64, EntryView>, rows: Seq<Seq<Seq<char>>>) -> Map<
    u64,
    EntryView,
>
    decreases rows.len(),
{
    if rows.len() == 0 {
        store
    } else {
        store_after(store, rows.drop_last()).insert(
            row_id(rows.last()),
            primary_record(rows.last()),
        )
    }
}

/// The provenance that the four flags of an alternate name select: exactly
/// one flag picks its kind, any other combination is `Alternate`.
pub open spec fn classify(
    preferred: bool,
    short: bool,
    colloquial: bool,
    historic: bool,
    id: u64,
    lang: Seq<char>,
    from: Seq<char>,
    to: Seq<char>,
) -> MatchTypeView {
    if preferred && !short && !colloquial && !historic {
        MatchTypeView::PreferredName { id, lang }
    } else if !preferred && short && !colloquial && !historic {
        MatchTypeView::ShortName { id, lang }
    } else if !preferred && !short && colloquial && !historic {
        MatchTypeView::Colloquial { id, lang }
    } else if !preferred && !short && !colloquial && historic {
        MatchTypeView::Historic { id, lang, from, to }
    } else {
        MatchTypeView::Alternate { id, lang }
    }
}

/// What an alternate-name row gives: an error, nothing (its language is not
/// wanted or its record is unknown), or one pair.
pub open spec fn alternate_row_outcome(
    row: Seq<Seq<char>>,
    known: Set<u64>,
    languages: Option<Seq<Seq<char>>>,
) -> Result<Option<(Seq<char>, MatchTypeView)>, BuildError> {
    if row.len() < 3 {
        Err(BuildError::MissingColumn(2))
    } else if languages is Some && !languages->Some_0.contains(row[2]) {
        Ok(None)
    } else if parsed_u64(row[1]) is None {
        Err(BuildError::InvalidIdentifier)
    } else if !known.contains(parsed_u64(row[1])->Some_0) {
        Ok(None)
    } else if row.len() < 8 {
        Err(BuildError::MissingColumn(row.len() as usize))
    } else {
        let id = parsed_u64(row[1])->Some_0;
        let typ = classify(
            row[4] == "1"@,
            row[5] == "1"@,
            row[6] == "1"@,
            row[7] == "1"@,
            id,
            row[2],
            column(row, 8, ""@),
            column(row, 9, ""@),
        );
        Ok(Some((row[3], typ)))
    }
}

/// The pairs of alternate-name rows in order, or the error of the first bad row.
pub open spec fn alternate_outcome(
    rows: Seq<Seq<Seq<char>>>,
    known: Set<u64>,
    languages: Option<Seq<Seq<char>>>,
) -> Result<Seq<(Seq<char>, MatchTypeView)>, BuildError>
    decreases rows.len(),
{
    if rows.len() == 0 {
        Ok(seq![])
    } else {
        match alternate_outcome(rows.drop_last(), known, languages) {
            Err(e) => Err(e),
            Ok(ps) => match alternate_row_outcome(rows.last(), known, languages) {
                Err(e) => Err(e),
                Ok(None) => Ok(ps),
                Ok(Some(p)) => Ok(ps.push(p)),
            },
        }
    }
}

proof fn lemma_primary_error_persists(rows: Seq<Seq<Seq<char>>>, n: int)
    requires
        0 <= n <= rows.len(),
        primary_outcome(rows.subrange(0, n)) is Err,
    ensures
        primary_outcome(rows) == primary_outcome(rows.subrange(0, n)),
    decreases rows.len() - n,
{
    if n < rows.len() {
        assert(rows.subrange(0, n + 1).drop_last() =~= rows.subrange(0, n));
        lemma_primary_error_persists(rows, n + 1);
    } else {
        assert(rows.subrange(0, n) =~= rows);
    }
}

proof fn lemma_alternate_error_persists(
    rows: Seq<Seq<Seq<char>>>,
    known: Set<u64>,
    languages: Option<Seq<Seq<char>>>,
    n: int,
)
    requires
        0 <= n <= rows.len(),
        alternate_outcome(rows.subrange(0, n), known, languages) is Err,
    ensures
        alternate_outcome(rows, known, languages) == alternate_outcome(
            rows.subrange(0, n),
            known,
            languages,
        ),
    decreases rows.len() - n,
{
    if n < rows.len() {
        assert(rows.subrange(0, n + 1).drop_last() =~= rows.subrange(0, n));
        lemma_alternate_error_persists(rows, known, languages, n + 1);
    } else {
        assert(rows.subrange(0, n) =~= rows);
    }
}

/// Every pair of valid gazetteer rows names a record of the store they
/// leave, and the store keeps every record it had.
pub proof fn lemma_primary_ids(rows: Seq<Seq<Seq<char>>>, store: Map<u64, EntryView>)
    requires
        primary_outcome(rows) is Ok,
    ensures
        forall|i: int|
            0 <= i < primary_outcome(rows)->Ok_0.len() ==> store_after(store, rows).contains_key(
                (#[trigger] primary_outcome(rows)->Ok_0[i]).1.id(),
            ),
        forall|k: u64| store.contains_key(k) ==> #[trigger] store_after(store, rows).contains_key(k),
    decreases rows.len(),
{
    if rows.len() > 0 {
        lemma_primary_ids(rows.drop_last(), store);
        let prev = primary_outcome(rows.drop_last())->Ok_0;
        let ps = primary_outcome(rows)->Ok_0;
        assert forall|i: int| 0 <= i < ps.len() implies store_after(store, rows).contains_key(
            (#[trigger] ps[i]).1.id(),
        ) by {
            if i < prev.len() {
                assert(ps[i] == prev[i]);
            } else {
                assert(ps[i] == primary_row_pairs(rows.last())[i - prev.len()]);
            }
        }
        assert forall|k: u64| store.contains_key(k) implies #[trigger] store_after(store, rows).contains_key(k) by {
            assert(store_after(store, rows.drop_last()).contains_key(k));
        }
    }
}

/// Every pair of alternate-name rows names a known record.
pub proof fn lemma_alternate_ids(
    rows: Seq<Seq<Seq<char>>>,
    known: Set<u64>,
    languages: Option<Seq<Seq<char>>>,
)
    requires
        alternate_outcome(rows, known, languages) is Ok,
    ensures
        forall|i: int|
            0 <= i < alternate_outcome(rows, known, languages)->Ok_0.len() ==> known.contains(
                (#[trigger] alternate_outcome(rows, known, languages)->Ok_0[i]).1.id(),
            ),
    decreases rows.len(),
{
    if rows.len() > 0 {
        lemma_alternate_ids(rows.drop_last(), known, languages);
        let prev = alternate_outcome(rows.drop_last(), known, languages)->Ok_0;
        let ps = alternate_outcome(rows, known, languages)->Ok_0;
        assert forall|i: int| 0 <= i < ps.len() implies known.contains((#[trigger] ps[i]).1.id()) by {
            if i < prev.len() {
                assert(ps[i] == prev[i]);
            }
        }
    }
}

/// The pairs and the store after gazetteer files read in order, or the
/// error of the first file that fails.
pub open spec fn primary_files_outcome(files: Seq<Seq<u8>>, store: Map<u64, EntryView>) -> Result<
    (Seq<(Seq<char>, MatchTypeView)>, Map<u64, EntryView>),
    BuildError,
>
    decreases files.len(),
{
    if files.len() == 0 {
        Ok((seq![], store))
    } else {
        match primary_files_outcome(files.drop_last(), store) {
            Err(e) => Err(e),
            Ok((ps, st)) => match tsv_records(files.last()) {
                None => Err(BuildError::UnreadableRows),
                Some(rows) => match primary_outcome(rows) {
                    Err(e) => Err(e),
                    Ok(qs) => Ok((ps + qs, store_after(st, rows))),
                },
            },
        }
    }
}

/// The pairs of alternate-name files read in order, or the error of the
/// first file that fails.
pub open spec fn alternate_files_outcome(
    files: Seq<Seq<u8>>,
    known: Set<u64>,
    languages: Option<Seq<Seq<char>>>,
) -> Result<Seq<(Seq<char>, MatchTypeView)>, BuildError>
    decreases files.len(),
{
    if files.len() == 0 {
        Ok(seq![])
    } else {
        match alternate_files_outcome(files.drop_last(), known, languages) {
            Err(e) => Err(e),
            Ok(ps) => match tsv_records(files.last()) {
                None => Err(BuildError::UnreadableRows),
                Some(rows) => match alternate_outcome(rows, known, languages) {
                    Err(e) => Err(e),
                    Ok(qs) => Ok(ps + qs),
                },
            },
        }
    }
}

/// All pairs and the store: gazetteer files first, then alternate-name
/// files against the records the gazetteer files gave.
pub open spec fn build_outcome(
    gn_files: Seq<Seq<u8>>,
    alternate_files: Option<Seq<Seq<u8>>>,
    languages: Option<Seq<Seq<char>>>,
) -> Result<(Seq<(Seq<char>, MatchTypeView)>, Map<u64, EntryView>), BuildError> {
    match primary_files_outcome(gn_files, Map::empty()) {
        Err(e) => Err(e),
        Ok((ps, st)) => match alternate_files {
            None => Ok((ps, st)),
            Some(files) => match alternate_files_outcome(files, st.dom(), languages) {
                Err(e) => Err(e),
                Ok(qs) => Ok((ps + qs, st)),
            },
        },
    }
}

pub proof fn lemma_primary_files_error_persists(files: Seq<Seq<u8>>, store: Map<u64, EntryView>, n: int)
    requires
        0 <= n <= files.len(),
        primary_files_outcome(files.subrange(0, n), store) is Err,
    ensures
        primary_files_outcome(files, store) == primary_files_outcome(files.subrange(0, n), store),
    decreases files.len() - n,
{
    if n < files.len() {
        assert(files.subrange(0, n + 1).drop_last() =~= files.subrange(0, n));
        lemma_primary_files_error_persists(files, store, n + 1);
    } else {
        assert(files.subrange(0, n) =~= files);
    }
}

pub proof fn lemma_alternate_files_error_persists(
    files: Seq<Seq<u8>>,
    known: Set<u64>,
    languages: Option<Seq<Seq<char>>>,
    n: int,
)
    requires
        0 <= n <= files.len(),
        alternate_files_outcome(files.subrange(0, n), known, languages) is Err,
    ensures
        alternate_files_outcome(files, known, languages) == alternate_files_outcome(
            files.subrange(0, n),
            known,
            languages,
        ),
    decreases files.len() - n,
{
    if n < files.len() {
        assert(files.subrange(0, n + 1).drop_last() =~= files.subrange(0, n));
        lemma_alternate_files_error_persists(files, known, languages, n + 1);
    } else {
        assert(files.subrange(0, n) =~= files);
    }
}

/// Maps the four flags of an alternate name to its provenance.
pub fn match_type_of_flags(
    preferred: bool,
    short: bool,
    colloquial: bool,
    historic: bool,
    id: u64,
    lang: String,
    from: String,
    to: String,
) -> (r: MatchType)
    ensures
        r@ == classify(preferred, short, colloquial, historic, id, lang@, from@, to@),
{
    match (preferred, short, colloquial, historic) {
        (true, false, false, false) => MatchType::PreferredName { id, lang },
        (false, true, false, false) => MatchType::ShortName { id, lang },
        (false, false, true, false) => MatchType::Colloquial { id, lang },
        (false, false, false, true) => MatchType::Historic { id, lang, from, to },
        _ => MatchType::Alternate { id, lang },
    }
}

/// The text of column `i`, or `default` when the row is shorter.
fn column_or(row: &Vec<String>, i: usize, default: &str) -> (r: String)
    ensures
        r@ == column(row.deep_view(), i as int, default@),
{
    if i < row.len() {
        row[i].clone()
    } else {
        default.to_owned()
    }
}

/// Whether `list` holds `s`.
fn contains_text(list: &Vec<String>, s: &String) -> (r: bool)
    ensures
        r == list.deep_view().contains(s@),
{
    let mut i: usize = 0;
    while i < list.len()
        invariant
            0 <= i <= list.len(),
            forall|j: int| 0 <= j < i ==> list.deep_view()[j] != s@,
        decreases list.len() - i,
    {
        if list[i] == *s {
            assert(list.deep_view()[i as int] == s@);
            return true;
        }
        i = i + 1;
    }
    proof {
        if list.deep_view().contains(s@) {
            let j = choose|j: int| 0 <= j < list.deep_view().len() && list.deep_view()[j] == s@;
            assert(j < i);
        }
    }
    false
}

/// Reads gazetteer rows: adds their pairs and records.
pub fn parse_geonames_rows(
    rows: &Vec<Vec<String>>,
    query_pairs: &mut Vec<(String, MatchType)>,
    geonames: &mut HashMap<u64, GeoNamesEntry>,
) -> (r: Result<(), BuildError>)
    ensures
        match primary_outcome(rows.deep_view()) {
            Err(e) => r == Err::<(), BuildError>(e),
            Ok(ps) => {
                &&& r is Ok
                &&& pairs_view(final(query_pairs)@) == pairs_view(old(query_pairs)@) + ps
                &&& store_view(final(geonames)@) == store_after(
                    store_view(old(geonames)@),
                    rows.deep_view(),
                )
            },
        },
{
    let ghost rv = rows.deep_view();
    let ghost pairs0 = pairs_view(query_pairs@);
    let ghost store0 = store_view(geonames@);
    let mut i: usize = 0;
    while i < rows.len()
        invariant
            0 <= i <= rows.len(),
            rv == rows.deep_view(),
            primary_outcome(rv.subrange(0, i as int)) is Ok,
            pairs_view(query_pairs@) == pairs0 + primary_outcome(
                rv.subrange(0, i as int),
            )->Ok_0,
            store_view(geonames@) == store_after(store0, rv.subrange(0, i as int)),
        decreases rows.len() - i,
    {
        let row = &rows[i];
        let ghost rw = rv[i as int];
        assert(rw == row.deep_view());
        assert(forall|k: int| 0 <= k < row.len() ==> rw[k] == (#[trigger] row@[k])@);
        assert(rv.subrange(0, i + 1).drop_last() =~= rv.subrange(0, i as int));
        assert(rv.subrange(0, i + 1).last() == rw);
        if row.len() < 1 {
            proof { lemma_primary_error_persists(rv, i + 1); }
            return Err(BuildError::MissingColumn(0));
        }
        let id = match parse_u64(row[0].as_str()) {
            Some(id) => id,
            None => {
                proof { lemma_primary_error_persists(rv, i + 1); }
                return Err(BuildError::InvalidIdentifier);
            },
        };
        if row.len() < 2 {
            proof { lemma_primary_error_persists(rv, i + 1); }
            return Err(BuildError::MissingColumn(1));
        }
        if row.len() < 3 {
            proof { lemma_primary_error_persists(rv, i + 1); }
            return Err(BuildError::MissingColumn(2));
        }
        let name = row[1].clone();
        let name_ascii = row[2].clone();
        let latitude = column_or(row, 4, "");
        let longitude = column_or(row, 5, "");
        let feature_class = column_or(row, 6, "<missing>");
        let feature_code = column_or(row, 7, "<missing>");
        let country_code = column_or(row, 8, "<missing>");
        let adm1 = column_or(row, 10, "");
        let adm2 = column_or(row, 11, "");
        let adm3 = column_or(row, 12, "");
        let adm4 = column_or(row, 13, "");
        let elevation = if row.len() > 15 {
            parse_i16(row[15].as_str())
        } else {
            None
        };
        let ghost before = query_pairs@;
        if name_ascii != name {
            query_pairs.push((name_ascii, MatchType::AsciiName { id }));
        }
        query_pairs.push((name.clone(), MatchType::Name { id }));
        proof {
            assert(pairs_view(query_pairs@) =~= pairs_view(before) + primary_row_pairs(rw));
        }
        let entry = GeoNamesEntry {
            id,
            name,
            latitude,
            longitude,
            feature_class,
            feature_code,
            country_code,
            administrative_divisions: (adm1, adm2, adm3, adm4),
            elevation,
        };
        assert(entry@ == primary_record(rw));
        let ghost store_before = geonames@;
        geonames.insert(id, entry);
        proof {
            assert(store_view(geonames@) =~= store_view(store_before).insert(id, primary_record(rw)));
        }
        i = i + 1;
    }
    assert(rv.subrange(0, i as int) =~= rv);
    Ok(())
}

/// Reads alternate-name rows: adds the pairs of those whose language is wanted
/// and whose record is in the store.
pub fn parse_alternate_names_rows(
    rows: &Vec<Vec<String>>,
    query_pairs: &mut Vec<(String, MatchType)>,
    geonames: &HashMap<u64, GeoNamesEntry>,
    include_languages: Option<&Vec<String>>,
) -> (r: Result<(), BuildError>)
    ensures
        match alternate_outcome(
            rows.deep_view(),
            geonames@.dom(),
            match include_languages {
                Some(l) => Some(l.deep_view()),
                None => None,
            },
        ) {
            Err(e) => r == Err::<(), BuildError>(e),
            Ok(ps) => {
                &&& r is Ok
                &&& pairs_view(final(query_pairs)@) == pairs_view(old(query_pairs)@) + ps
            },
        },
{
    let ghost rv = rows.deep_view();
    let ghost langs = match include_languages {
        Some(l) => Some(l.deep_view()),
        None => None,
    };
    let ghost known = geonames@.dom();
    let ghost pairs0 = pairs_view(query_pairs@);
    let one = "1".to_owned();
    let mut i: usize = 0;
    while i < rows.len()
        invariant
            0 <= i <= rows.len(),
            rv == rows.deep_view(),
            known == geonames@.dom(),
            one@ == "1"@,
            langs == match include_languages {
                Some(l) => Some(l.deep_view()),
                None => None,
            },
            alternate_outcome(rv.subrange(0, i as int), known, langs) is Ok,
            pairs_view(query_pairs@) == pairs0 + alternate_outcome(
                rv.subrange(0, i as int),
                known,
                langs,
            )->Ok_0,
        decreases rows.len() - i,
    {
        let row = &rows[i];
        let ghost rw = rv[i as int];
        assert(rw == row.deep_view());
        assert(forall|k: int| 0 <= k < row.len() ==> rw[k] == (#[trigger] row@[k])@);
        assert(rv.subrange(0, i + 1).drop_last() =~= rv.subrange(0, i as int));
        assert(rv.subrange(0, i + 1).last() == rw);
        if row.len() < 3 {
            proof { lemma_alternate_error_persists(rv, known, langs, i + 1); }
            return Err(BuildError::MissingColumn(2));
        }
        let skip = match include_languages {
            Some(list) => !contains_text(list, &row[2]),
            None => false,
        };
        if !skip {
            let id = match parse_u64(row[1].as_str()) {
                Some(id) => id,
                None => {
                    proof { lemma_alternate_error_persists(rv, known, langs, i + 1); }
                    return Err(BuildError::InvalidIdentifier);
                },
            };
            if geonames.contains_key(&id) {
                if row.len() < 8 {
                    proof { lemma_alternate_error_persists(rv, known, langs, i + 1); }
                    return Err(BuildError::MissingColumn(row.len()));
                }
                let typ = match_type_of_flags(
                    row[4] == one,
                    row[5] == one,
                    row[6] == one,
                    row[7] == one,
                    id,
                    row[2].clone(),
                    column_or(row, 8, ""),
                    column_or(row, 9, ""),
                );
                let ghost before = query_pairs@;
                let ghost expected = alternate_row_outcome(rw, known, langs);
                assert(expected is Ok);
                assert(expected->Ok_0 is Some);
                assert(expected->Ok_0->Some_0.0 == row@[3]@);
                assert(expected->Ok_0->Some_0.1 == typ@);
                query_pairs.push((row[3].clone(), typ));
                proof {
                    assert(pairs_view(query_pairs@) =~= pairs_view(before).push(
                        alternate_row_outcome(rw, known, langs)->Ok_0->Some_0,
                    ));
                }
            }
        }
        i = i + 1;
    }
    assert(rv.subrange(0, i as int) =~= rv);
    Ok(())
}

/// Reads a gazetteer file: identifier in column 0, name in 1, ASCII name in
/// 2, coordinates in 4 and 5, feature class, feature code and country code
/// in 6 to 8, administrative divisions in 10 to 13, elevation in 15.
pub fn parse_geonames_file(
    bytes: &[u8],
    query_pairs: &mut Vec<(String, MatchType)>,
    geonames: &mut HashMap<u64, GeoNamesEntry>,
) -> (r: Result<(), BuildError>)
    ensures
        match tsv_records(bytes@) {
            None => r == Err::<(), BuildError>(BuildError::UnreadableRows),
            Some(rows) => match primary_outcome(rows) {
                Err(e) => r == Err::<(), BuildError>(e),
                Ok(ps) => {
                    &&& r is Ok
                    &&& pairs_view(final(query_pairs)@) == pairs_view(old(query_pairs)@) + ps
                    &&& store_view(final(geonames)@) == store_after(
                        store_view(old(geonames)@),
                        rows,
                    )
                },
            },
        },
{
    match read_tsv(bytes) {
        Ok(rows) => parse_geonames_rows(&rows, query_pairs, geonames),
        Err(_) => Err(BuildError::UnreadableRows),
    }
}

/// Reads an alternate-name file: identifier in column 1, language in 2, name
/// in 3, the preferred, short, colloquial and historic flags in 4 to 7
/// (`"1"` is true), the historic range in 8 and 9.
pub fn parse_alternate_names_file(
    bytes: &[u8],
    query_pairs: &mut Vec<(String, MatchType)>,
    geonames: &HashMap<u64, GeoNamesEntry>,
    include_languages: Option<&Vec<String>>,
) -> (r: Result<(), BuildError>)
    ensures
        match tsv_records(bytes@) {
            None => r == Err::<(), BuildError>(BuildError::UnreadableRows),
            Some(rows) => match alternate_outcome(
                rows,
                geonames@.dom(),
                match include_languages {
                    Some(l) => Some(l.deep_view()),
                    None => None,
                },
            ) {
                Err(e) => r == Err::<(), BuildError>(e),
                Ok(ps) => {
                    &&& r is Ok
                    &&& pairs_view(final(query_pairs)@) == pairs_view(old(query_pairs)@) + ps
                },
            },
        },
{
    match read_tsv(bytes) {
        Ok(rows) => parse_alternate_names_rows(&rows, query_pairs, geonames, include_languages),
        Err(_) => Err(BuildError::UnreadableRows),
    }
}

} // verus!
