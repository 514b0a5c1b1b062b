//! Gazetteer records, the provenance of a name, and search results, each with
//! a view over plain sequences.
use vstd::prelude::*;
use crate::order::{order_of, Ranked};

verus! {

/// A gazetteer record. Coordinates are kept as the text of their source
/// columns; the text is empty when the column is absent.
#[derive(Debug, PartialEq)]
pub struct GeoNamesEntry {
    /// Unique identifier of the record
    pub id: u64,
    /// Canonical name of the entry, usually English.
    pub name: String,
    pub latitude: String,
    pub longitude: String,
    pub feature_class: String,
    pub feature_code: String,
    pub country_code: String,
    /// Administrative divisions, some of which may be empty.
    pub administrative_divisions: (String, String, String, String),
    /// Elevation, if given.
    pub elevation: Option<i16>,
}

pub struct EntryView {
    pub id: u64,
    pub name: Seq<char>,
    pub latitude: Seq<char>,
    pub longitude: Seq<char>,
    pub feature_class: Seq<char>,
    pub feature_code: Seq<char>,
    pub country_code: Seq<char>,
    pub administrative_divisions: (Seq<char>, Seq<char>, Seq<char>, Seq<char>),
    pub elevation: Option<i16>,
}

impl View for GeoNamesEntry {
    type V = EntryView;

    open spec fn view(&self) -> EntryView {
        EntryView {
            id: self.id,
            name: self.name@,
            latitude: self.latitude@,
            longitude: self.longitude@,
            feature_class: self.feature_class@,
            feature_code: self.feature_code@,
            country_code: self.country_code@,
            administrative_divisions: (
                self.administrative_divisions.0@,
                self.administrative_divisions.1@,
                self.administrative_divisions.2@,
                self.administrative_divisions.3@,
            ),
            elevation: self.elevation,
        }
    }
}

impl GeoNamesEntry {
    /// A copy of the record.
    pub fn snapshot(&self) -> (r: GeoNamesEntry)
        ensures
            r == *self,
    {
        GeoNamesEntry {
            id: self.id,
            name: self.name.clone(),
            latitude: self.latitude.clone(),
            longitude: self.longitude.clone(),
            feature_class: self.feature_class.clone(),
            feature_code: self.feature_code.clone(),
            country_code: self.country_code.clone(),
            administrative_divisions: (
                self.administrative_divisions.0.clone(),
                self.administrative_divisions.1.clone(),
                self.administrative_divisions.2.clone(),
                self.administrative_divisions.3.clone(),
            ),
            elevation: self.elevation,
        }
    }
}

/// Why a term names a record.
#[derive(Debug, Clone, PartialEq, Eq)]
pub enum MatchType {
    /// GeoNames main name (usually English)
    Name { id: u64 },
    /// ASCII version of the main name
    AsciiName { id: u64 },
    /// Alternate: preferred name in a specific language
    PreferredName { id: u64, lang: String },
    /// Alternate: short name in a specific language
    ShortName { id: u64, lang: String },
    /// Alternate: colloquial name or slang in a specific language
    Colloquial { id: u64, lang: String },
    /// Alternate: historic name in a specific language
    Historic { id: u64, lang: String, from: String, to: String },
    /// Alternate: other name in a specific language
    Alternate { id: u64, lang: String },
}

pub enum MatchTypeView {
    Name { id: u64 },
    AsciiName { id: u64 },
    PreferredName { id: u64, lang: Seq<char> },
    ShortName { id: u64, lang: Seq<char> },
    Colloquial { id: u64, lang: Seq<char> },
    Historic { id: u64, lang: Seq<char>, from: Seq<char>, to: Seq<char> },
    Alternate { id: u64, lang: Seq<char> },
}

impl MatchTypeView {
    pub open spec fn id(self) -> u64 {
        match self {
            MatchTypeView::Name { id } => id,
            MatchTypeView::AsciiName { id } => id,
            MatchTypeView::PreferredName { id, .. } => id,
            MatchTypeView::ShortName { id, .. } => id,
            MatchTypeView::Colloquial { id, .. } => id,
            MatchTypeView::Historic { id, .. } => id,
            MatchTypeView::Alternate { id, .. } => id,
        }
    }

    /// The priority of the kind of name: the main name first.
    pub open spec fn rank(self) -> u8 {
        match self {
            MatchTypeView::Name { .. } => 0,
            MatchTypeView::AsciiName { .. } => 1,
            MatchTypeView::PreferredName { .. } => 2,
            MatchTypeView::ShortName { .. } => 3,
            MatchTypeView::Colloquial { .. } => 4,
            MatchTypeView::Historic { .. } => 5,
            MatchTypeView::Alternate { .. } => 6,
        }
    }

    /// Match-key order: by rank, then by record identifier.
    pub open spec fn key(self) -> Seq<int> {
        seq![self.rank() as int, self.id() as int]
    }
}

impl View for MatchType {
    type V = MatchTypeView;

    open spec fn view(&self) -> MatchTypeView {
        match self {
            MatchType::Name { id } => MatchTypeView::Name { id: *id },
            MatchType::AsciiName { id } => MatchTypeView::AsciiName { id: *id },
            MatchType::PreferredName { id, lang } => MatchTypeView::PreferredName {
                id: *id,
                lang: lang@,
            },
            MatchType::ShortName { id, lang } => MatchTypeView::ShortName { id: *id, lang: lang@ },
            MatchType::Colloquial { id, lang } => MatchTypeView::Colloquial {
                id: *id,
                lang: lang@,
            },
            MatchType::Historic { id, lang, from, to } => MatchTypeView::Historic {
                id: *id,
                lang: lang@,
                from: from@,
                to: to@,
            },
            MatchType::Alternate { id, lang } => MatchTypeView::Alternate { id: *id, lang: lang@ },
        }
    }
}

impl MatchType {
    pub fn id(&self) -> (r: u64)
        ensures
            r == self@.id(),
    {
        match self {
            MatchType::Name { id } => *id,
            MatchType::AsciiName { id } => *id,
            MatchType::PreferredName { id, .. } => *id,
            MatchType::ShortName { id, .. } => *id,
            MatchType::Colloquial { id, .. } => *id,
            MatchType::Historic { id, .. } => *id,
            MatchType::Alternate { id, .. } => *id,
        }
    }

    pub fn ord(&self) -> (r: u8)
        ensures
            r == self@.rank(),
    {
        match self {
            MatchType::Name { .. } => 0,
            MatchType::AsciiName { .. } => 1,
            MatchType::PreferredName { .. } => 2,
            MatchType::ShortName { .. } => 3,
            MatchType::Colloquial { .. } => 4,
            MatchType::Historic { .. } => 5,
            MatchType::Alternate { .. } => 6,
        }
    }

    /// A copy of the provenance.
    pub fn snapshot(&self) -> (r: MatchType)
        ensures
            r == *self,
    {
        match self {
            MatchType::Name { id } => MatchType::Name { id: *id },
            MatchType::AsciiName { id } => MatchType::AsciiName { id: *id },
            MatchType::PreferredName { id, lang } => MatchType::PreferredName {
                id: *id,
                lang: lang.clone(),
            },
            MatchType::ShortName { id, lang } => MatchType::ShortName { id: *id, lang: lang.clone() },
            MatchType::Colloquial { id, lang } => MatchType::Colloquial {
                id: *id,
                lang: lang.clone(),
            },
            MatchType::Historic { id, lang, from, to } => MatchType::Historic {
                id: *id,
                lang: lang.clone(),
                from: from.clone(),
                to: to.clone(),
            },
            MatchType::Alternate { id, lang } => MatchType::Alternate { id: *id, lang: lang.clone() },
        }
    }
}

/// Compares two provenances in match-key order.
fn compare_match_types(a: &MatchType, b: &MatchType) -> (r: std::cmp::Ordering)
    ensures
        r == order_of(a@.key(), b@.key()),
{
    let (ra, rb) = (a.ord(), b.ord());
    let (ia, ib) = (a.id(), b.id());
    let ghost (ka, kb) = (a@.key(), b@.key());
    assert(ka.drop_first() =~= seq![ia as int]);
    assert(kb.drop_first() =~= seq![ib as int]);
    assert(ka.drop_first().drop_first() =~= Seq::<int>::empty());
    assert(kb.drop_first().drop_first() =~= Seq::<int>::empty());
    reveal_with_fuel(crate::order::seq_lt, 3);
    if ra < rb {
        std::cmp::Ordering::Less
    } else if ra > rb {
        std::cmp::Ordering::Greater
    } else if ia < ib {
        std::cmp::Ordering::Less
    } else if ia > ib {
        std::cmp::Ordering::Greater
    } else {
        assert(ka =~= kb);
        std::cmp::Ordering::Equal
    }
}

/// A term together with one reason for its match.
#[derive(Debug, Clone, PartialEq)]
pub struct MatchKey {
    pub name: String,
    pub typ: MatchType,
}

/// One match: the key and a snapshot of the record.
#[derive(Debug, PartialEq)]
pub struct GeoNamesSearchResult {
    pub key: MatchKey,
    pub entry: GeoNamesEntry,
}

/// One match with the edit distance from the query to the matched term.
#[derive(Debug, PartialEq)]
pub struct GeoNamesSearchResultWithDist {
    pub key: MatchKey,
    pub entry: GeoNamesEntry,
    pub distance: usize,
}

pub struct ResultView {
    pub name: Seq<char>,
    pub typ: MatchTypeView,
    pub entry: EntryView,
}

pub struct ResultWithDistView {
    pub name: Seq<char>,
    pub typ: MatchTypeView,
    pub entry: EntryView,
    pub distance: nat,
}

impl ResultView {
    pub open spec fn key(self) -> Seq<int> {
        self.typ.key()
    }
}

impl ResultWithDistView {
    /// Distance first, then match-key order.
    pub open spec fn key(self) -> Seq<int> {
        seq![self.distance as int].add(self.typ.key())
    }
}

impl View for GeoNamesSearchResult {
    type V = ResultView;

    open spec fn view(&self) -> ResultView {
        ResultView { name: self.key.name@, typ: self.key.typ@, entry: self.entry@ }
    }
}

impl View for GeoNamesSearchResultWithDist {
    type V = ResultWithDistView;

    open spec fn view(&self) -> ResultWithDistView {
        ResultWithDistView {
            name: self.key.name@,
            typ: self.key.typ@,
            entry: self.entry@,
            distance: self.distance as nat,
        }
    }
}

impl GeoNamesSearchResult {
    pub fn new(key: &str, typ: &MatchType, gn: &GeoNamesEntry) -> (r: GeoNamesSearchResult)
        ensures
            r@ == (ResultView { name: key@, typ: typ@, entry: gn@ }),
    {
        GeoNamesSearchResult {
            key: MatchKey { name: key.to_owned(), typ: typ.snapshot() },
            entry: gn.snapshot(),
        }
    }
}

impl GeoNamesSearchResultWithDist {
    pub fn new(key: &str, typ: &MatchType, gn: &GeoNamesEntry, dist: usize) -> (r:
        GeoNamesSearchResultWithDist)
        ensures
            r@ == (ResultWithDistView { name: key@, typ: typ@, entry: gn@, distance: dist as nat }),
    {
        GeoNamesSearchResultWithDist {
            key: MatchKey { name: key.to_owned(), typ: typ.snapshot() },
            entry: gn.snapshot(),
            distance: dist,
        }
    }

    /// A copy of the result.
    pub fn snapshot(&self) -> (r: GeoNamesSearchResultWithDist)
        ensures
            r == *self,
    {
        GeoNamesSearchResultWithDist {
            key: MatchKey { name: self.key.name.clone(), typ: self.key.typ.snapshot() },
            entry: self.entry.snapshot(),
            distance: self.distance,
        }
    }
}

/// The same match at distance zero.
impl From<GeoNamesSearchResult> for GeoNamesSearchResultWithDist {
    fn from(val: GeoNamesSearchResult) -> (r: GeoNamesSearchResultWithDist) {
        GeoNamesSearchResultWithDist { key: val.key, entry: val.entry, distance: 0 }
    }
}

impl vstd::std_specs::convert::FromSpecImpl<GeoNamesSearchResult> for GeoNamesSearchResultWithDist {
    open spec fn obeys_from_spec() -> bool {
        true
    }

    open spec fn from_spec(val: GeoNamesSearchResult) -> GeoNamesSearchResultWithDist {
        GeoNamesSearchResultWithDist { key: val.key, entry: val.entry, distance: 0 }
    }
}

impl Ranked for GeoNamesSearchResult {
    open spec fn rank_key(&self) -> Seq<int> {
        self@.key()
    }

    fn compare(&self, other: &Self) -> (r: std::cmp::Ordering) {
        compare_match_types(&self.key.typ, &other.key.typ)
    }
}

impl Ranked for GeoNamesSearchResultWithDist {
    open spec fn rank_key(&self) -> Seq<int> {
        self@.key()
    }

    fn compare(&self, other: &Self) -> (r: std::cmp::Ordering) {
        let ghost (ka, kb) = (self@.key(), other@.key());
        assert(ka.drop_first() =~= self.key.typ@.key());
        assert(kb.drop_first() =~= other.key.typ@.key());
        if self.distance < other.distance {
            std::cmp::Ordering::Less
        } else if self.distance > other.distance {
            std::cmp::Ordering::Greater
        } else {
            let r = compare_match_types(&self.key.typ, &other.key.typ);
            proof {
                if ka == kb {
                    assert(ka.drop_first() == kb.drop_first());
                }
                if self.key.typ@.key() == other.key.typ@.key() {
                    assert(ka =~= kb);
                }
            }
            r
        }
    }
}

/// Access to the record inside a result.
pub trait Entry {
    spec fn entry_view(&self) -> EntryView;

    fn entry(&self) -> (r: &GeoNamesEntry)
        ensures
            r@ == self.entry_view(),
    ;
}

impl Entry for GeoNamesSearchResult {
    open spec fn entry_view(&self) -> EntryView {
        self.entry@
    }

    fn entry(&self) -> (r: &GeoNamesEntry) {
        &self.entry
    }
}

impl Entry for GeoNamesSearchResultWithDist {
    open spec fn entry_view(&self) -> EntryView {
        self.entry@
    }

    fn entry(&self) -> (r: &GeoNamesEntry) {
        &self.entry
    }
}

} // verus!
