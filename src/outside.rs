//! What this library takes on trust from the crates it calls: the finite-state
//! transducer and its automata (fst), regular expressions compiled to a DFA
//! (regex-automata), tab-separated reading (csv), edit distance (levenshtein),
//! and a few functions of std.
use vstd::prelude::*;
use vstd::utf8::{decode_utf8, encode_utf8, valid_utf8};
use crate::order::{is_ranking_of, seq_lt, term_key, Ranked};
use regex_automata::dfa::Automaton as DfaAutomaton;

verus! {

#[verifier::external_type_specification]
#[verifier::external_body]
#[verifier::reject_recursive_types(D)]
pub struct ExFstMap<D>(fst::Map<D>);

#[verifier::external_type_specification]
#[verifier::external_body]
pub struct ExFstError(fst::Error);

#[verifier::external_type_specification]
#[verifier::external_body]
pub struct ExLevenshteinError(fst::automaton::LevenshteinError);

#[verifier::external_type_specification]
#[verifier::external_body]
#[verifier::reject_recursive_types(T)]
pub struct ExDfa<T>(regex_automata::dfa::dense::DFA<T>);

#[verifier::external_type_specification]
#[verifier::external_body]
pub struct ExStateId(regex_automata::util::primitives::StateID);

#[verifier::external_type_specification]
#[verifier::external_body]
pub struct ExCsvError(csv::Error);

/// The key-value pairs of a transducer map, in increasing bytewise key order.
pub uninterp spec fn fst_entries(m: fst::Map<Vec<u8>>) -> Seq<(Seq<u8>, u64)>;

/// The number of states that fst's Levenshtein automaton for this query and
/// distance is built with.
pub uninterp spec fn levenshtein_dfa_states(query: Seq<char>, distance: u32) -> nat;

/// Whether regex-automata compiles the pattern into a dense DFA with a start state.
pub uninterp spec fn regex_compiles(pattern: Seq<char>) -> bool;

/// Whether the compiled pattern, run over the whole key, ends in a match.
pub uninterp spec fn regex_matches(pattern: Seq<char>, key: Seq<u8>) -> bool;

/// The fields of the rows that csv reads from tab-separated bytes, if it reads them.
pub uninterp spec fn tsv_records(bytes: Seq<u8>) -> Option<Seq<Seq<Seq<char>>>>;

/// The values of the entries whose keys satisfy `accepts`, in key order.
pub open spec fn hits(entries: Seq<(Seq<u8>, u64)>, accepts: spec_fn(Seq<u8>) -> bool) -> Seq<u64> {
    entries.filter(|e: (Seq<u8>, u64)| accepts(e.0)).map_values(|e: (Seq<u8>, u64)| e.1)
}

/// Hits under predicates that agree are the same.
pub proof fn lemma_hits_ext(
    entries: Seq<(Seq<u8>, u64)>,
    p: spec_fn(Seq<u8>) -> bool,
    q: spec_fn(Seq<u8>) -> bool,
)
    requires
        forall|k: Seq<u8>| #[trigger] p(k) == q(k),
    ensures
        hits(entries, p) == hits(entries, q),
{
    let fp = |e: (Seq<u8>, u64)| p(e.0);
    let fq = |e: (Seq<u8>, u64)| q(e.0);
    assert forall|e: (Seq<u8>, u64)| #[trigger] fp(e) == fq(e) by {
        assert(p(e.0) == q(e.0));
    }
    crate::routes::lemma_filter_ext(entries, fp, fq);
}

/// `q` is a prefix of `key`.
pub open spec fn is_prefix(q: Seq<u8>, key: Seq<u8>) -> bool {
    q.len() <= key.len() && key.subrange(0, q.len() as int) == q
}

/// `q` occurs in `key` as a subsequence, not necessarily contiguous.
pub open spec fn is_subsequence(q: Seq<u8>, key: Seq<u8>) -> bool
    decreases key.len(),
{
    if q.len() == 0 {
        true
    } else if key.len() == 0 {
        false
    } else if key[0] == q[0] {
        is_subsequence(q.drop_first(), key.drop_first())
    } else {
        is_subsequence(q, key.drop_first())
    }
}

pub open spec fn min_nat(a: nat, b: nat) -> nat {
    if a <= b {
        a
    } else {
        b
    }
}

/// The least number of single-character insertions, deletions and
/// substitutions that turn `a` into `b`.
pub open spec fn edit_distance(a: Seq<char>, b: Seq<char>) -> nat
    decreases a.len() + b.len(),
{
    if a.len() == 0 {
        b.len()
    } else if b.len() == 0 {
        a.len()
    } else {
        let substitute = edit_distance(a.drop_last(), b.drop_last()) + if a.last() == b.last() {
            0nat
        } else {
            1nat
        };
        let delete = edit_distance(a.drop_last(), b) + 1;
        let insert = edit_distance(a, b.drop_last()) + 1;
        min_nat(substitute, min_nat(delete, insert))
    }
}

/// Whether fst's Levenshtein automaton, built for this query and distance,
/// accepts the key.
pub uninterp spec fn levenshtein_dfa_accepts(query: Seq<char>, distance: u32, key: Seq<u8>) -> bool;

/// Every character is ASCII.
pub open spec fn is_ascii_text(q: Seq<char>) -> bool {
    forall|i: int| 0 <= i < q.len() ==> (#[trigger] q[i] as u32) < 128
}

/// A key within the distance of the query: valid UTF-8 whose characters are
/// at most `distance` edits from the query's.
pub open spec fn within_distance(q: Seq<char>, distance: nat, key: Seq<u8>) -> bool {
    valid_utf8(key) && edit_distance(q, decode_utf8(key)) <= distance
}

pub open spec fn all_digits(s: Seq<char>) -> bool {
    forall|i: int| 0 <= i < s.len() ==> '0' <= #[trigger] s[i] <= '9'
}

pub open spec fn digits_value(s: Seq<char>) -> int
    decreases s.len(),
{
    if s.len() == 0 {
        0
    } else {
        digits_value(s.drop_last()) * 10 + (s.last() as int - '0' as int)
    }
}

/// The value of decimal digits after an optional sign, if that is what `s` is.
pub open spec fn signed_decimal(s: Seq<char>, allow_minus: bool) -> Option<int> {
    let negative = allow_minus && s.len() > 0 && s[0] == '-';
    let digits = if s.len() > 0 && (s[0] == '+' || negative) {
        s.drop_first()
    } else {
        s
    };
    if digits.len() > 0 && all_digits(digits) {
        Some(
            if negative {
                -digits_value(digits)
            } else {
                digits_value(digits)
            },
        )
    } else {
        None
    }
}

/// What `u64::from_str` reads from `s`.
pub open spec fn parsed_u64(s: Seq<char>) -> Option<u64> {
    match signed_decimal(s, false) {
        Some(v) => if v <= u64::MAX {
            Some(v as u64)
        } else {
            None
        },
        None => None,
    }
}

/// What `i16::from_str` reads from `s`.
pub open spec fn parsed_i16(s: Seq<char>) -> Option<i16> {
    match signed_decimal(s, true) {
        Some(v) => if i16::MIN <= v <= i16::MAX {
            Some(v as i16)
        } else {
            None
        },
        None => None,
    }
}

/// Relies on `u64::from_str`: an optional `+` followed by decimal digits, in range.
#[verifier::external_body]
pub(crate) fn parse_u64(s: &str) -> (r: Option<u64>)
    ensures
        r == parsed_u64(s@),
{
    s.parse::<u64>().ok()
}

/// Relies on `i16::from_str`: an optional sign followed by decimal digits, in range.
#[verifier::external_body]
pub(crate) fn parse_i16(s: &str) -> (r: Option<i16>)
    ensures
        r == parsed_i16(s@),
{
    s.parse::<i16>().ok()
}

/// Relies on `slice::sort_by`, a stable sort, with a comparator that is a total order.
#[verifier::external_body]
pub(crate) fn sort_ranked<T: Ranked>(v: &mut Vec<T>)
    ensures
        is_ranking_of(final(v)@, old(v)@, |x: T| x.rank_key()),
{
    v.sort_by(|a, b| a.compare(b));
}

/// Relies on `levenshtein::levenshtein`: the edit distance between the
/// characters of the two strings.
#[verifier::external_body]
pub(crate) fn levenshtein_distance(a: &str, b: &str) -> (r: usize)
    ensures
        r == edit_distance(a@, b@),
{
    levenshtein::levenshtein(a, b)
}

/// Relies on csv's reader with a tab delimiter, no header row, no quoting,
/// and rows of any length: the fields of each row, as text.
#[verifier::external_body]
pub(crate) fn read_tsv(bytes: &[u8]) -> (r: Result<Vec<Vec<String>>, csv::Error>)
    ensures
        match r {
            Ok(rows) => tsv_records(bytes@) == Some(rows.deep_view()),
            Err(_) => tsv_records(bytes@).is_none(),
        },
{
    let mut rdr = csv::ReaderBuilder::new()
        .delimiter(b'\t')
        .has_headers(false)
        .quoting(false)
        .flexible(true)
        .from_reader(bytes);
    rdr.records().map(|row| row.map(|rec| rec.iter().map(|f| f.to_string()).collect())).collect()
}

/// Relies on `fst::Map::from_iter`: keys in strictly increasing bytewise order
/// give a map of exactly these pairs; a key out of order gives an error.
#[verifier::external_body]
pub(crate) fn fst_from_pairs(pairs: Vec<(String, u64)>) -> (r: Result<fst::Map<Vec<u8>>, fst::Error>)
    ensures
        (forall|i: int|
            0 < i < pairs@.len() ==> seq_lt(
                term_key(#[trigger] pairs@[i - 1].0@),
                term_key(pairs@[i].0@),
            )) ==> r is Ok,
        r matches Ok(m) ==> fst_entries(m) == pairs@.map_values(
            |p: (String, u64)| (encode_utf8(p.0@), p.1),
        ),
{
    fst::Map::from_iter(pairs)
}

/// Relies on `fst::Map::get`: the value stored under the key's bytes, if any.
#[verifier::external_body]
pub(crate) fn fst_get(m: &fst::Map<Vec<u8>>, key: &str) -> (r: Option<u64>)
    ensures
        r matches Some(v) ==> exists|i: int|
            0 <= i < fst_entries(*m).len() && #[trigger] fst_entries(*m)[i] == (
                encode_utf8(key@),
                v,
            ),
        r is None ==> forall|i: int|
            0 <= i < fst_entries(*m).len() ==> #[trigger] fst_entries(*m)[i].0 != encode_utf8(key@),
{
    m.get(key)
}

/// Relies on `fst::Map::search` with `Str::starts_with`: the values of the keys
/// that begin with the query's bytes, in key order.
#[verifier::external_body]
pub(crate) fn fst_search_prefix(m: &fst::Map<Vec<u8>>, query: &str) -> (r: Vec<u64>)
    ensures
        r@ == hits(fst_entries(*m), |k: Seq<u8>| is_prefix(encode_utf8(query@), k)),
{
    let aut = fst::Automaton::starts_with(fst::automaton::Str::new(query));
    fst::IntoStreamer::into_stream(m.search(aut)).into_values()
}

/// Relies on `fst::Map::search` with `Subsequence`: the values of the keys that
/// hold the query's bytes as a subsequence, in key order.
#[verifier::external_body]
pub(crate) fn fst_search_subsequence(m: &fst::Map<Vec<u8>>, query: &str) -> (r: Vec<u64>)
    ensures
        r@ == hits(fst_entries(*m), |k: Seq<u8>| is_subsequence(encode_utf8(query@), k)),
{
    let aut = fst::automaton::Subsequence::new(query);
    fst::IntoStreamer::into_stream(m.search(aut)).into_values()
}

/// Relies on `Levenshtein::new_with_limit` and `fst::Map::search`: the
/// automaton is refused when it needs more states than the limit; otherwise
/// the values of the keys it accepts, in key order. Every key it accepts is
/// within the distance; for an ASCII query it accepts exactly those keys.
#[verifier::external_body]
pub(crate) fn fst_search_levenshtein(
    m: &fst::Map<Vec<u8>>,
    query: &str,
    distance: u32,
    state_limit: usize,
) -> (r: Result<Vec<u64>, fst::automaton::LevenshteinError>)
    ensures
        r is Err <==> levenshtein_dfa_states(query@, distance) > state_limit,
        r matches Ok(v) ==> {
            &&& v@ == hits(
                fst_entries(*m),
                |k: Seq<u8>| levenshtein_dfa_accepts(query@, distance, k),
            )
            &&& forall|k: Seq<u8>| #[trigger]
                levenshtein_dfa_accepts(query@, distance, k) ==> within_distance(
                    query@,
                    distance as nat,
                    k,
                )
            &&& is_ascii_text(query@) ==> forall|k: Seq<u8>| #[trigger]
                levenshtein_dfa_accepts(query@, distance, k) == within_distance(
                    query@,
                    distance as nat,
                    k,
                )
        },
{
    let lev = fst::automaton::Levenshtein::new_with_limit(query, distance, state_limit)?;
    Ok(fst::IntoStreamer::into_stream(m.search(lev)).into_values())
}

/// Relies on `fst::Map::search` with the compiled pattern: the values of the
/// keys it matches, in key order.
#[verifier::external_body]
pub(crate) fn fst_search_regex(m: &fst::Map<Vec<u8>>, aut: &RegexSearchAutomaton) -> (r: Vec<u64>)
    ensures
        r@ == hits(fst_entries(*m), |k: Seq<u8>| regex_matches(aut.pattern(), k)),
{
    fst::IntoStreamer::into_stream(m.search(aut)).into_values()
}

/// A regular expression compiled to a dense DFA, with its start state.
pub struct RegexSearchAutomaton {
    dfa: regex_automata::dfa::dense::DFA<Vec<u32>>,
    start_state: regex_automata::util::primitives::StateID,
    pattern: String,
}

impl RegexSearchAutomaton {
    /// The pattern this automaton was compiled from.
    pub closed spec fn pattern(&self) -> Seq<char> {
        self.pattern@
    }

    /// Relies on `dense::DFA::new` and `start_state_forward`: the pattern
    /// compiles or the error is described.
    #[verifier::external_body]
    pub fn from_pattern(query: &str) -> (r: Result<RegexSearchAutomaton, String>)
        ensures
            r is Ok <==> regex_compiles(query@),
            r matches Ok(a) ==> a.pattern() == query@,
    {
        let dfa = regex_automata::dfa::dense::DFA::new(query).map_err(|e| format!("{:?}", e))?;
        let input = regex_automata::Input::new(query);
        let start_state = dfa.start_state_forward(&input).map_err(|e| format!("{:?}", e))?;
        Ok(RegexSearchAutomaton { dfa, start_state, pattern: query.to_string() })
    }
}

impl fst::Automaton for RegexSearchAutomaton {
    type State = Option<regex_automata::util::primitives::StateID>;

    /// Relies on nothing: the start state computed when the pattern was compiled.
    #[verifier::external_body]
    fn start(&self) -> Option<regex_automata::util::primitives::StateID> {
        Some(self.start_state)
    }

    /// Relies on the DFA's `next_eoi_state` and `is_match_state`.
    #[verifier::external_body]
    fn is_match(&self, state: &Self::State) -> bool {
        state.map(|s| self.dfa.is_match_state(self.dfa.next_eoi_state(s))).unwrap_or(false)
    }

    /// Relies on the DFA's `next_state`.
    #[verifier::external_body]
    fn accept(&self, state: &Self::State, byte: u8) -> Self::State {
        state.map(|s| self.dfa.next_state(s, byte))
    }
}

} // verus!
