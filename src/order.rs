//! Lexicographic order on integer sequences, and what it means for a list to
//! be ranked by such a key: sorted, with items of equal key in the relative
//! order they had before.
use vstd::prelude::*;
use vstd::utf8::encode_utf8;

verus! {

/// Strict lexicographic order: a proper prefix comes first.
pub open spec fn seq_lt(a: Seq<int>, b: Seq<int>) -> bool
    decreases a.len(),
{
    if a.len() == 0 {
        b.len() > 0
    } else if b.len() == 0 {
        false
    } else if a[0] != b[0] {
        a[0] < b[0]
    } else {
        seq_lt(a.drop_first(), b.drop_first())
    }
}

/// The three-way comparison that `seq_lt` induces.
pub open spec fn order_of(a: Seq<int>, b: Seq<int>) -> std::cmp::Ordering {
    if seq_lt(a, b) {
        std::cmp::Ordering::Less
    } else if a == b {
        std::cmp::Ordering::Equal
    } else {
        std::cmp::Ordering::Greater
    }
}

/// The sort key of a term: its UTF-8 bytes, so that the order is bytewise.
pub open spec fn term_key(t: Seq<char>) -> Seq<int> {
    encode_utf8(t).map_values(|b: u8| b as int)
}

/// `s` is sorted by `key`: no later item has a smaller key.
pub open spec fn sorted_by<A>(s: Seq<A>, key: spec_fn(A) -> Seq<int>) -> bool {
    forall|i: int, j: int| 0 <= i < j < s.len() ==> !seq_lt(key(s[j]), key(s[i]))
}

/// The items of `s` whose key is `k`, in their order in `s`.
pub open spec fn class_of<A>(s: Seq<A>, key: spec_fn(A) -> Seq<int>, k: Seq<int>) -> Seq<A> {
    s.filter(|x: A| key(x) == k)
}

/// For every key, `a` and `b` hold the same items of that key, in the same order.
pub open spec fn same_classes<A>(a: Seq<A>, b: Seq<A>, key: spec_fn(A) -> Seq<int>) -> bool {
    forall|k: Seq<int>| #[trigger] class_of(a, key, k) == class_of(b, key, k)
}

/// `out` is `inp` ranked by `key`: a stable sort of it.
pub open spec fn is_ranking_of<A>(out: Seq<A>, inp: Seq<A>, key: spec_fn(A) -> Seq<int>) -> bool {
    sorted_by(out, key) && same_classes(out, inp, key)
}

/// Items that a stable sort orders by a key of integer sequences.
pub trait Ranked: Sized {
    spec fn rank_key(&self) -> Seq<int>;

    fn compare(&self, other: &Self) -> (r: std::cmp::Ordering)
        ensures
            r == order_of(self.rank_key(), other.rank_key()),
    ;
}

pub proof fn lemma_seq_lt_irreflexive(a: Seq<int>)
    ensures
        !seq_lt(a, a),
    decreases a.len(),
{
    if a.len() > 0 {
        lemma_seq_lt_irreflexive(a.drop_first());
    }
}

pub proof fn lemma_seq_lt_total(a: Seq<int>, b: Seq<int>)
    ensures
        a == b || seq_lt(a, b) || seq_lt(b, a),
    decreases a.len(),
{
    if a.len() > 0 && b.len() > 0 && a[0] == b[0] {
        lemma_seq_lt_total(a.drop_first(), b.drop_first());
        if a.drop_first() == b.drop_first() {
            assert(a =~= seq![a[0]] + a.drop_first());
            assert(b =~= seq![b[0]] + b.drop_first());
        }
    } else if a.len() == 0 && b.len() == 0 {
        assert(a =~= b);
    }
}

pub proof fn lemma_seq_lt_asymmetric(a: Seq<int>, b: Seq<int>)
    ensures
        !(seq_lt(a, b) && seq_lt(b, a)),
    decreases a.len(),
{
    if a.len() > 0 && b.len() > 0 && a[0] == b[0] {
        lemma_seq_lt_asymmetric(a.drop_first(), b.drop_first());
    }
}

/// Two sequences that agree on their first `i` items compare as their rests do.
pub proof fn lemma_seq_lt_common_prefix(a: Seq<int>, b: Seq<int>, i: int)
    requires
        0 <= i <= a.len(),
        i <= b.len(),
        forall|j: int| 0 <= j < i ==> a[j] == b[j],
    ensures
        seq_lt(a, b) == seq_lt(a.skip(i), b.skip(i)),
    decreases i,
{
    if i == 0 {
        assert(a.skip(0) =~= a);
        assert(b.skip(0) =~= b);
    } else {
        lemma_seq_lt_common_prefix(a.drop_first(), b.drop_first(), i - 1);
        assert(a.drop_first().skip(i - 1) =~= a.skip(i));
        assert(b.drop_first().skip(i - 1) =~= b.skip(i));
    }
}

/// Filtering commutes with a map, when the two predicates agree through it.
pub proof fn lemma_filter_map<A, B>(
    s: Seq<A>,
    f: spec_fn(A) -> B,
    p: spec_fn(A) -> bool,
    q: spec_fn(B) -> bool,
)
    requires
        forall|x: A| #[trigger] p(x) == q(f(x)),
    ensures
        s.filter(p).map_values(f) == s.map_values(f).filter(q),
    decreases s.len(),
{
    reveal(Seq::filter);
    if s.len() > 0 {
        lemma_filter_map(s.drop_last(), f, p, q);
        assert(s.map_values(f).drop_last() =~= s.drop_last().map_values(f));
        if p(s.last()) {
            assert(s.drop_last().filter(p).push(s.last()).map_values(f)
                =~= s.drop_last().filter(p).map_values(f).push(f(s.last())));
        }
    } else {
        assert(s.filter(p).map_values(f) =~= s.map_values(f).filter(q));
    }
}

/// Ranking carries over to views, when the key of an item is the key of its view.
pub proof fn lemma_ranking_map<A, B>(
    out: Seq<A>,
    inp: Seq<A>,
    f: spec_fn(A) -> B,
    ka: spec_fn(A) -> Seq<int>,
    kb: spec_fn(B) -> Seq<int>,
)
    requires
        is_ranking_of(out, inp, ka),
        forall|x: A| #[trigger] ka(x) == kb(f(x)),
    ensures
        is_ranking_of(out.map_values(f), inp.map_values(f), kb),
{
    assert forall|k: Seq<int>| #[trigger]
        class_of(out.map_values(f), kb, k) == class_of(inp.map_values(f), kb, k) by {
        let p = |x: A| ka(x) == k;
        let q = |y: B| kb(y) == k;
        assert forall|x: A| #[trigger] p(x) == q(f(x)) by {}
        lemma_filter_map(out, f, p, q);
        lemma_filter_map(inp, f, p, q);
        assert(class_of(out, ka, k) == class_of(inp, ka, k));
        assert(class_of(out, ka, k) =~= out.filter(p));
        assert(class_of(inp, ka, k) =~= inp.filter(p));
    }
    let om = out.map_values(f);
    assert forall|i: int, j: int| 0 <= i < j < om.len() implies !seq_lt(kb(om[j]), kb(om[i])) by {
        assert(ka(out[j]) == kb(f(out[j])));
        assert(ka(out[i]) == kb(f(out[i])));
    }
}

/// A sorted list holds each of its items in its class under the item's key.
proof fn lemma_filter_last<A>(s: Seq<A>, key: spec_fn(A) -> Seq<int>, k: Seq<int>)
    requires
        s.len() > 0,
    ensures
        class_of(s, key, k) == if key(s.last()) == k {
            class_of(s.drop_last(), key, k).push(s.last())
        } else {
            class_of(s.drop_last(), key, k)
        },
{
    reveal(Seq::filter);
}

/// Ranking a list that is already ranked by the same key leaves it as it is.
pub proof fn lemma_ranking_of_sorted_is_identity<A>(
    out: Seq<A>,
    inp: Seq<A>,
    key: spec_fn(A) -> Seq<int>,
)
    requires
        sorted_by(inp, key),
        is_ranking_of(out, inp, key),
    ensures
        out == inp,
    decreases out.len() + inp.len(),
{
    reveal(Seq::filter);
    if inp.len() == 0 && out.len() == 0 {
        assert(out =~= inp);
        return;
    }
    // the list that is not empty has a last item; its class is not empty in the other
    if out.len() == 0 || inp.len() == 0 {
        let s = if out.len() == 0 { inp } else { out };
        let t = if out.len() == 0 { out } else { inp };
        let k = key(s.last());
        lemma_filter_last(s, key, k);
        assert(same_classes(out, inp, key));
        assert(class_of(out, key, k) == class_of(inp, key, k));
        assert(class_of(t, key, k).len() == 0);
        assert(class_of(s, key, k).len() > 0);
        return;
    }
    let ko = key(out.last());
    let ki = key(inp.last());
    lemma_same_last_key(out, inp, key);
    lemma_same_last_key(inp, out, key);
    lemma_seq_lt_total(ko, ki);
    assert(ko == ki) by {
        if seq_lt(ko, ki) {
            lemma_seq_lt_asymmetric(ko, ki);
        }
    }
    lemma_filter_last(out, key, ko);
    lemma_filter_last(inp, key, ko);
    assert(class_of(out, key, ko) == class_of(inp, key, ko));
    assert(out.last() == inp.last()) by {
        let fo = class_of(out, key, ko);
        assert(fo.last() == out.last());
    }
    let od = out.drop_last();
    let id = inp.drop_last();
    assert forall|k: Seq<int>| #[trigger]
        class_of(od, key, k) == class_of(id, key, k) by {
        lemma_filter_last(out, key, k);
        lemma_filter_last(inp, key, k);
        assert(class_of(out, key, k) == class_of(inp, key, k));
        if ko == k {
            let a = class_of(od, key, k);
            let b = class_of(id, key, k);
            assert(a =~= a.push(out.last()).drop_last());
            assert(b =~= b.push(inp.last()).drop_last());
        }
    }
    assert(sorted_by(od, key));
    assert(sorted_by(id, key));
    lemma_ranking_of_sorted_is_identity(od, id, key);
    assert(out =~= od.push(out.last()));
    assert(inp =~= id.push(inp.last()));
}

/// A class that is not empty has a member in the list.
pub proof fn lemma_class_nonempty<A>(t: Seq<A>, key: spec_fn(A) -> Seq<int>, k: Seq<int>)
    requires
        class_of(t, key, k).len() > 0,
    ensures
        exists|i: int| 0 <= i < t.len() && key(t[i]) == k,
    decreases t.len(),
{
    reveal(Seq::filter);
    if t.len() > 0 {
        lemma_filter_last(t, key, k);
        if key(t.last()) != k {
            lemma_class_nonempty(t.drop_last(), key, k);
            let i = choose|i: int| 0 <= i < t.drop_last().len() && key(t.drop_last()[i]) == k;
            assert(t[i] == t.drop_last()[i]);
        }
    }
}

/// Ranking a list that was already ranked by the same key gives it back
/// unchanged.
pub proof fn lemma_rerank_is_identity<A>(
    ranked: Seq<A>,
    unranked: Seq<A>,
    reranked: Seq<A>,
    key: spec_fn(A) -> Seq<int>,
)
    requires
        is_ranking_of(ranked, unranked, key),
        is_ranking_of(reranked, ranked, key),
    ensures
        reranked == ranked,
{
    lemma_ranking_of_sorted_is_identity(reranked, ranked, key);
}

/// A ranking holds the same items as the list it ranks.
pub proof fn lemma_ranking_members<A>(out: Seq<A>, inp: Seq<A>, key: spec_fn(A) -> Seq<int>, x: A)
    requires
        is_ranking_of(out, inp, key),
    ensures
        out.contains(x) <==> inp.contains(x),
{
    if out.contains(x) {
        let j = choose|j: int| 0 <= j < out.len() && out[j] == x;
        lemma_member_in_class(out, key, j);
        assert(class_of(out, key, key(x)) == class_of(inp, key, key(x)));
        let c = class_of(inp, key, key(x));
        let m = choose|m: int| 0 <= m < c.len() && c[m] == x;
        let prop = |y: A| inp.contains(y);
        assert forall|i: int| 0 <= i < inp.len() implies #[trigger] prop(inp[i]) by {
            assert(inp.contains(inp[i]));
        }
        lemma_class_holds(inp, key, key(x), prop);
        assert(prop(c[m]));
    }
    if inp.contains(x) {
        let j = choose|j: int| 0 <= j < inp.len() && inp[j] == x;
        lemma_member_in_class(inp, key, j);
        assert(class_of(out, key, key(x)) == class_of(inp, key, key(x)));
        let c = class_of(out, key, key(x));
        let m = choose|m: int| 0 <= m < c.len() && c[m] == x;
        let prop = |y: A| out.contains(y);
        assert forall|i: int| 0 <= i < out.len() implies #[trigger] prop(out[i]) by {
            assert(out.contains(out[i]));
        }
        lemma_class_holds(out, key, key(x), prop);
        assert(prop(c[m]));
    }
}

/// In a ranking, the last item of `s` cannot have a key below that of the last item of `t`.
proof fn lemma_same_last_key<A>(s: Seq<A>, t: Seq<A>, key: spec_fn(A) -> Seq<int>)
    requires
        s.len() > 0,
        t.len() > 0,
        sorted_by(t, key),
        same_classes(s, t, key),
    ensures
        !seq_lt(key(t.last()), key(s.last())),
{
    let k = key(s.last());
    lemma_filter_last(s, key, k);
    assert(class_of(s, key, k) == class_of(t, key, k));
    lemma_class_nonempty(t, key, k);
    let i = choose|i: int| 0 <= i < t.len() && key(t[i]) == k;
    assert(key(t[i]) == k);
    if i < t.len() - 1 {
        assert(!seq_lt(key(t[t.len() - 1]), key(t[i])));
    } else {
        lemma_seq_lt_irreflexive(k);
    }
}

/// A property of every item of a list holds of every item of each of its classes.
pub proof fn lemma_class_holds<A>(s: Seq<A>, key: spec_fn(A) -> Seq<int>, k: Seq<int>, p: spec_fn(A) -> bool)
    requires
        forall|i: int| 0 <= i < s.len() ==> #[trigger] p(s[i]),
    ensures
        forall|i: int| 0 <= i < class_of(s, key, k).len() ==> #[trigger] p(class_of(s, key, k)[i]),
    decreases s.len(),
{
    reveal(Seq::filter);
    if s.len() > 0 {
        lemma_filter_last(s, key, k);
        assert forall|i: int| 0 <= i < s.drop_last().len() implies #[trigger] p(s.drop_last()[i]) by {
            assert(p(s[i]));
        }
        lemma_class_holds(s.drop_last(), key, k, p);
        assert(p(s[s.len() - 1]));
    }
}

/// Each item of a list is in the class of its key.
pub proof fn lemma_member_in_class<A>(s: Seq<A>, key: spec_fn(A) -> Seq<int>, j: int)
    requires
        0 <= j < s.len(),
    ensures
        class_of(s, key, key(s[j])).contains(s[j]),
    decreases s.len(),
{
    reveal(Seq::filter);
    let k = key(s[j]);
    lemma_filter_last(s, key, k);
    if j == s.len() - 1 {
        assert(class_of(s, key, k).last() == s[j]);
    } else {
        lemma_member_in_class(s.drop_last(), key, j);
        assert(s.drop_last()[j] == s[j]);
        let c = class_of(s.drop_last(), key, k);
        let m = choose|m: int| 0 <= m < c.len() && c[m] == s[j];
        if key(s.last()) == k {
            assert(class_of(s, key, k)[m] == s[j]);
        }
    }
}

/// A class that holds an item of the list is not empty.
pub proof fn lemma_class_of_member<A>(s: Seq<A>, key: spec_fn(A) -> Seq<int>, j: int)
    requires
        0 <= j < s.len(),
    ensures
        class_of(s, key, key(s[j])).len() > 0,
{
    lemma_member_in_class(s, key, j);
}

pub proof fn lemma_seq_lt_transitive(a: Seq<int>, b: Seq<int>, c: Seq<int>)
    requires
        seq_lt(a, b),
        seq_lt(b, c),
    ensures
        seq_lt(a, c),
    decreases a.len(),
{
    if a.len() > 0 && b.len() > 0 && c.len() > 0 && a[0] == b[0] && b[0] == c[0] {
        lemma_seq_lt_transitive(a.drop_first(), b.drop_first(), c.drop_first());
    }
}

/// Keys of a total order: neither below the other means equal.
pub proof fn lemma_seq_lt_antisymmetric(a: Seq<int>, b: Seq<int>)
    requires
        !seq_lt(a, b),
        !seq_lt(b, a),
    ensures
        a == b,
{
    lemma_seq_lt_total(a, b);
}

/// Compares two byte strings lexicographically.
pub fn compare_bytes(a: &[u8], b: &[u8]) -> (r: std::cmp::Ordering)
    ensures
        r == order_of(a@.map_values(|x: u8| x as int), b@.map_values(|x: u8| x as int)),
{
    let ghost ai = a@.map_values(|x: u8| x as int);
    let ghost bi = b@.map_values(|x: u8| x as int);
    let mut i: usize = 0;
    while i < a.len() && i < b.len()
        invariant
            0 <= i <= a.len(),
            i <= b.len(),
            ai == a@.map_values(|x: u8| x as int),
            bi == b@.map_values(|x: u8| x as int),
            forall|j: int| 0 <= j < i ==> ai[j] == bi[j],
        decreases a.len() - i,
    {
        if a[i] != b[i] {
            proof {
                lemma_seq_lt_common_prefix(ai, bi, i as int);
                lemma_seq_lt_common_prefix(bi, ai, i as int);
                assert(ai.skip(i as int)[0] == a@[i as int] as int);
                assert(bi.skip(i as int)[0] == b@[i as int] as int);
                if ai == bi {
                    assert(ai[i as int] == bi[i as int]);
                }
            }
            if a[i] < b[i] {
                return std::cmp::Ordering::Less;
            } else {
                return std::cmp::Ordering::Greater;
            }
        }
        i = i + 1;
    }
    proof {
        lemma_seq_lt_common_prefix(ai, bi, i as int);
        lemma_seq_lt_common_prefix(bi, ai, i as int);
    }
    if a.len() < b.len() {
        std::cmp::Ordering::Less
    } else if a.len() > b.len() {
        std::cmp::Ordering::Greater
    } else {
        proof {
            assert(ai =~= bi);
            lemma_seq_lt_irreflexive(ai);
        }
        std::cmp::Ordering::Equal
    }
}

} // verus!
