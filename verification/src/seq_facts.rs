//! General facts about `Seq::filter` that the service proofs rely on:
//! how filtering interacts with `push`, containment of the filtered
//! elements, congruence of pointwise-equivalent predicates, and
//! preservation of key uniqueness.
use vstd::prelude::*;

verus! {

/// Filtering after a `push` filters the prefix and then keeps or drops the
/// pushed element.
pub proof fn lemma_filter_push<A>(s: Seq<A>, x: A, pred: spec_fn(A) -> bool)
    ensures
        s.push(x).filter(pred) == if pred(x) {
            s.filter(pred).push(x)
        } else {
            s.filter(pred)
        },
{
    reveal(Seq::filter);
    assert(s.push(x).drop_last() =~= s);
    assert(s.push(x).last() == x);
}

/// Every element of a filtered sequence is an element of the original.
pub proof fn lemma_filter_contains_only<A>(s: Seq<A>, pred: spec_fn(A) -> bool, x: A)
    requires
        s.filter(pred).contains(x),
    ensures
        s.contains(x),
    decreases s.len(),
{
    reveal(Seq::filter);
    if s.len() == 0 {
    } else {
        let prefix = s.drop_last();
        if pred(s.last()) && x == s.last() {
            assert(s[s.len() - 1] == x);
        } else {
            if pred(s.last()) {
                // the filtered sequence is prefix.filter(pred).push(s.last())
                // and x is not the pushed element, so it sits in the prefix part
                let f = s.filter(pred);
                let k = choose|k: int| 0 <= k < f.len() && f[k] == x;
                assert(prefix.filter(pred)[k] == x);
            }
            lemma_filter_contains_only(prefix, pred, x);
            let j = choose|j: int| 0 <= j < prefix.len() && prefix[j] == x;
            assert(s[j] == x);
        }
    }
}

/// Every position of a filtered sequence holds an element of the original.
pub proof fn lemma_filter_elems<A>(s: Seq<A>, pred: spec_fn(A) -> bool)
    ensures
        forall|i: int| 0 <= i < s.filter(pred).len() ==> s.contains(#[trigger] s.filter(pred)[i]),
{
    assert forall|i: int| 0 <= i < s.filter(pred).len() implies s.contains(s.filter(pred)[i]) by {
        assert(s.filter(pred).contains(s.filter(pred)[i]));
        lemma_filter_contains_only(s, pred, s.filter(pred)[i]);
    }
}

/// Two predicates that agree on every element of a sequence filter it to the
/// same result.
pub proof fn lemma_filter_congruence<A>(s: Seq<A>, p: spec_fn(A) -> bool, q: spec_fn(A) -> bool)
    requires
        forall|i: int| 0 <= i < s.len() ==> (p(#[trigger] s[i]) <==> q(s[i])),
    ensures
        s.filter(p) == s.filter(q),
    decreases s.len(),
{
    reveal(Seq::filter);
    if s.len() == 0 {
        assert(s.filter(p) =~= s.filter(q));
    } else {
        lemma_filter_congruence(s.drop_last(), p, q);
        assert(p(s[s.len() - 1]) <==> q(s[s.len() - 1]));
    }
}

/// Filtering preserves a strictly ascending key drawn from each element
/// (e.g. a primary key field assigned by a monotone counter).
pub proof fn lemma_filter_ascending_by<A>(
    s: Seq<A>,
    pred: spec_fn(A) -> bool,
    key: spec_fn(A) -> i32,
)
    requires
        forall|i: int, j: int| 0 <= i < j < s.len() ==> key(#[trigger] s[i]) < key(#[trigger] s[j]),
    ensures
        forall|i: int, j: int|
            0 <= i < j < s.filter(pred).len() ==> key(#[trigger] s.filter(pred)[i]) < key(
                #[trigger] s.filter(pred)[j],
            ),
    decreases s.len(),
{
    reveal(Seq::filter);
    if s.len() == 0 {
    } else {
        let prefix = s.drop_last();
        lemma_filter_ascending_by(prefix, pred, key);
        let f = s.filter(pred);
        let fp = prefix.filter(pred);
        if pred(s.last()) {
            assert(f == fp.push(s.last()));
            assert forall|i: int, j: int| 0 <= i < j < f.len() implies key(f[i]) < key(f[j]) by {
                if j < f.len() - 1 {
                    assert(f[i] == fp[i] && f[j] == fp[j]);
                } else {
                    // f[j] is the last element of s; f[i] sits in the prefix,
                    // whose elements all carry a smaller key than s.last()
                    assert(f[i] == fp[i]);
                    assert(fp.contains(fp[i]));
                    lemma_filter_contains_only(prefix, pred, fp[i]);
                    let k = choose|k: int| 0 <= k < prefix.len() && prefix[k] == fp[i];
                    assert(s[k] == fp[i]);
                    assert(key(s[k]) < key(s[s.len() - 1]));
                }
            }
        } else {
            assert(f == fp);
        }
    }
}

/// Mapping after a `push` maps the prefix and then pushes the mapped element.
pub proof fn lemma_map_values_push<A, B>(s: Seq<A>, x: A, f: spec_fn(A) -> B)
    ensures
        s.push(x).map_values(f) == s.map_values(f).push(f(x)),
{
    assert(s.push(x).map_values(f) =~= s.map_values(f).push(f(x)));
}

} // verus!
