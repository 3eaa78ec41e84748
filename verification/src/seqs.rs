//! Facts about filtering a sequence.

use vstd::prelude::*;

verus! {

/// Filtering by a predicate that holds of every element changes nothing.
pub proof fn lemma_filter_all<A>(s: Seq<A>, pred: spec_fn(A) -> bool)
    requires
        forall|i: int| 0 <= i < s.len() ==> pred(#[trigger] s[i]),
    ensures
        s.filter(pred) == s,
    decreases s.len(),
{
    reveal(Seq::filter);
    if s.len() > 0 {
        let front = s.drop_last();
        assert forall|i: int| 0 <= i < front.len() implies pred(#[trigger] front[i]) by {
            assert(front[i] == s[i]);
        }
        lemma_filter_all(front, pred);
        assert(front.push(s.last()) =~= s);
    }
}

/// Filtering by a predicate that holds of no element leaves nothing.
pub proof fn lemma_filter_none<A>(s: Seq<A>, pred: spec_fn(A) -> bool)
    requires
        forall|i: int| 0 <= i < s.len() ==> !pred(#[trigger] s[i]),
    ensures
        s.filter(pred).len() == 0,
    decreases s.len(),
{
    reveal(Seq::filter);
    if s.len() > 0 {
        let front = s.drop_last();
        assert forall|i: int| 0 <= i < front.len() implies !pred(#[trigger] front[i]) by {
            assert(front[i] == s[i]);
        }
        lemma_filter_none(front, pred);
    }
}

/// Widening a predicate by one value `x` keeps one element more, where `x`
/// occurs once, and as many as before, where it does not occur.
pub proof fn lemma_filter_one_more<A>(
    s: Seq<A>,
    narrow: spec_fn(A) -> bool,
    wide: spec_fn(A) -> bool,
    x: A,
)
    requires
        forall|i: int, j: int| 0 <= i < j < s.len() ==> !(s[i] == x && s[j] == x),
        forall|i: int| 0 <= i < s.len() ==> wide(#[trigger] s[i]) == (narrow(s[i]) || s[i] == x),
        !narrow(x),
    ensures
        s.filter(wide).len() == s.filter(narrow).len() + if s.contains(x) {
            1nat
        } else {
            0nat
        },
    decreases s.len(),
{
    if s.len() == 0 {
        reveal(Seq::filter);
    } else {
        let front = s.drop_last();
        let last = s.last();
        assert(front.push(last) =~= s);
        assert forall|i: int| 0 <= i < front.len() implies wide(#[trigger] front[i]) == (narrow(
            front[i],
        ) || front[i] == x) by {
            assert(front[i] == s[i]);
        }
        assert forall|i: int, j: int| 0 <= i < j < front.len() implies !(front[i] == x && front[j]
            == x) by {
            assert(front[i] == s[i] && front[j] == s[j]);
        }
        lemma_filter_one_more(front, narrow, wide, x);
        front.lemma_filter_push(last, narrow);
        front.lemma_filter_push(last, wide);
        assert(wide(s[s.len() - 1]) == (narrow(last) || last == x));
        if last == x {
            if front.contains(x) {
                let k = choose|k: int| 0 <= k < front.len() && front[k] == x;
                assert(s[k] == x && s[s.len() - 1] == x);
            }
            assert(s[s.len() - 1] == x);
        } else {
            if s.contains(x) {
                let k = choose|k: int| 0 <= k < s.len() && s[k] == x;
                assert(front[k] == x);
            }
            if front.contains(x) {
                let k = choose|k: int| 0 <= k < front.len() && front[k] == x;
                assert(s[k] == x);
            }
        }
    }
}

/// Two predicates that agree on every element keep the same elements.
pub proof fn lemma_filter_same<A>(s: Seq<A>, one: spec_fn(A) -> bool, other: spec_fn(A) -> bool)
    requires
        forall|i: int| 0 <= i < s.len() ==> one(#[trigger] s[i]) == other(s[i]),
    ensures
        s.filter(one) == s.filter(other),
    decreases s.len(),
{
    reveal(Seq::filter);
    if s.len() > 0 {
        let front = s.drop_last();
        assert forall|i: int| 0 <= i < front.len() implies one(#[trigger] front[i]) == other(
            front[i],
        ) by {
            assert(front[i] == s[i]);
        }
        lemma_filter_same(front, one, other);
        assert(one(s[s.len() - 1]) == other(s.last()));
    }
}

/// Filtering twice is filtering once by both predicates.
pub proof fn lemma_filter_twice<A>(
    s: Seq<A>,
    first: spec_fn(A) -> bool,
    second: spec_fn(A) -> bool,
    both: spec_fn(A) -> bool,
)
    requires
        forall|i: int|
            0 <= i < s.len() ==> both(#[trigger] s[i]) == (first(s[i]) && second(s[i])),
    ensures
        s.filter(first).filter(second) == s.filter(both),
    decreases s.len(),
{
    if s.len() == 0 {
        reveal(Seq::filter);
        assert(s.filter(first) =~= s);
    } else {
        let front = s.drop_last();
        let last = s.last();
        assert(front.push(last) =~= s);
        assert forall|i: int| 0 <= i < front.len() implies both(#[trigger] front[i]) == (first(
            front[i],
        ) && second(front[i])) by {
            assert(front[i] == s[i]);
        }
        lemma_filter_twice(front, first, second, both);
        assert(both(s[s.len() - 1]) == (first(last) && second(last)));
        front.lemma_filter_push(last, first);
        front.lemma_filter_push(last, both);
        if first(last) {
            front.filter(first).lemma_filter_push(last, second);
        }
    }
}

/// What a filtered sequence holds: the elements of the sequence of which the
/// predicate holds.
pub proof fn lemma_filter_membership<A>(s: Seq<A>, pred: spec_fn(A) -> bool, x: A)
    ensures
        s.filter(pred).contains(x) <==> (s.contains(x) && pred(x)),
{
    if s.filter(pred).contains(x) {
        s.lemma_filter_contains_rev(pred, x);
        let k = choose|k: int| 0 <= k < s.filter(pred).len() && s.filter(pred)[k] == x;
        s.lemma_filter_pred(pred, k);
    }
    if s.contains(x) && pred(x) {
        let k = choose|k: int| 0 <= k < s.len() && s[k] == x;
        s.lemma_filter_contains(pred, k);
    }
}

} // verus!
