//! Sequence notions shared by the subscriber lists: the first entry that
//! matches, and removal by swapping the last entry into its place.

use vstd::prelude::*;

verus! {

/// The test that accepts `target` and nothing else.
pub open spec fn is_value<A>(target: A) -> spec_fn(A) -> bool {
    |x: A| x == target
}

/// The index of the first entry of `s` that `wanted` accepts, or `s.len()`
/// when it accepts none.
pub open spec fn first_match<A>(s: Seq<A>, wanted: spec_fn(A) -> bool) -> int
    decreases s.len(),
{
    if s.len() == 0 {
        0
    } else if wanted(s[0]) {
        0
    } else {
        1 + first_match(s.drop_first(), wanted)
    }
}

/// `s` without its entry at `i`: the last entry takes the vacated place.
pub open spec fn swap_remove<A>(s: Seq<A>, i: int) -> Seq<A>
    recommends
        0 <= i < s.len(),
{
    s.update(i, s.last()).drop_last()
}

/// `s` without the first entry that `wanted` accepts; `s` itself when it
/// accepts none.
pub open spec fn remove_first_match<A>(s: Seq<A>, wanted: spec_fn(A) -> bool) -> Seq<A> {
    let i = first_match(s, wanted);
    if i < s.len() {
        swap_remove(s, i)
    } else {
        s
    }
}

/// How many entries of `s` are accepted by `wanted`.
pub open spec fn count_matches<A>(s: Seq<A>, wanted: spec_fn(A) -> bool) -> nat
    decreases s.len(),
{
    if s.len() == 0 {
        0
    } else {
        count_matches(s.drop_last(), wanted) + if wanted(s.last()) {
            1nat
        } else {
            0nat
        }
    }
}

/// `first_match` lies within `0..=s.len()`, nothing before it matches, and
/// the entry at it, if any, does.
pub proof fn lemma_first_match_is_first<A>(s: Seq<A>, wanted: spec_fn(A) -> bool)
    ensures
        0 <= first_match(s, wanted) <= s.len(),
        forall|j: int| 0 <= j < first_match(s, wanted) ==> !wanted(#[trigger] s[j]),
        first_match(s, wanted) < s.len() ==> wanted(s[first_match(s, wanted)]),
    decreases s.len(),
{
    if s.len() > 0 && !wanted(s[0]) {
        let rest = s.drop_first();
        lemma_first_match_is_first(rest, wanted);
        assert forall|j: int| 0 <= j < first_match(s, wanted) implies !wanted(#[trigger] s[j]) by {
            if j > 0 {
                assert(s[j] == rest[j - 1]);
            }
        }
    }
}

/// An index with no match before it, and a match at it unless it is the
/// length, is `first_match`.
pub proof fn lemma_first_match_unique<A>(s: Seq<A>, wanted: spec_fn(A) -> bool, i: int)
    requires
        0 <= i <= s.len(),
        forall|j: int| 0 <= j < i ==> !wanted(#[trigger] s[j]),
        i < s.len() ==> wanted(s[i]),
    ensures
        first_match(s, wanted) == i,
{
    lemma_first_match_is_first(s, wanted);
    let f = first_match(s, wanted);
    if f < i {
        assert(!wanted(s[f]));
    } else if i < f {
        assert(wanted(s[i]));
    }
}

/// One if `wanted` accepts `x`, zero otherwise.
pub open spec fn one_if<A>(wanted: spec_fn(A) -> bool, x: A) -> nat {
    if wanted(x) {
        1
    } else {
        0
    }
}

/// Appending an entry adds its own count.
pub proof fn lemma_count_push<A>(s: Seq<A>, x: A, wanted: spec_fn(A) -> bool)
    ensures
        count_matches(s.push(x), wanted) == count_matches(s, wanted) + one_if(wanted, x),
{
    assert(s.push(x).drop_last() =~= s);
}

/// The count splits into the first entry's and that of the rest.
pub proof fn lemma_count_front<A>(s: Seq<A>, wanted: spec_fn(A) -> bool)
    requires
        s.len() > 0,
    ensures
        count_matches(s, wanted) == one_if(wanted, s[0]) + count_matches(s.drop_first(), wanted),
    decreases s.len(),
{
    if s.len() == 1 {
        assert(s.drop_last() =~= s.drop_first());
        assert(count_matches(s.drop_last(), wanted) == 0);
    } else {
        lemma_count_front(s.drop_last(), wanted);
        assert(s.drop_last().drop_first() =~= s.drop_first().drop_last());
    }
}

/// A sequence has a match exactly when its count is positive.
pub proof fn lemma_count_positive<A>(s: Seq<A>, wanted: spec_fn(A) -> bool)
    ensures
        count_matches(s, wanted) > 0 <==> first_match(s, wanted) < s.len(),
        count_matches(s, wanted) == 0 ==> forall|j: int| 0 <= j < s.len() ==> !wanted(#[trigger] s[j]),
    decreases s.len(),
{
    if s.len() > 0 {
        lemma_count_front(s, wanted);
        let rest = s.drop_first();
        lemma_count_positive(rest, wanted);
        assert forall|j: int| count_matches(s, wanted) == 0 && 0 <= j < s.len() implies !wanted(
            #[trigger] s[j],
        ) by {
            if j > 0 {
                assert(s[j] == rest[j - 1]);
            }
        }
    }
}

/// Replacing an entry trades its count for that of the new one.
pub proof fn lemma_count_update<A>(s: Seq<A>, i: int, x: A, wanted: spec_fn(A) -> bool)
    requires
        0 <= i < s.len(),
    ensures
        count_matches(s.update(i, x), wanted) + one_if(wanted, s[i]) == count_matches(s, wanted)
            + one_if(wanted, x),
    decreases s.len(),
{
    if i == s.len() - 1 {
        assert(s.update(i, x).drop_last() =~= s.drop_last());
    } else {
        lemma_count_update(s.drop_last(), i, x, wanted);
        assert(s.update(i, x).drop_last() =~= s.drop_last().update(i, x));
    }
}

/// Removing an entry takes its count away.
pub proof fn lemma_count_swap_remove<A>(s: Seq<A>, i: int, wanted: spec_fn(A) -> bool)
    requires
        0 <= i < s.len(),
    ensures
        count_matches(swap_remove(s, i), wanted) + one_if(wanted, s[i]) == count_matches(s, wanted),
{
    if i == s.len() - 1 {
        assert(s.update(i, s.last()) =~= s);
    } else {
        lemma_count_update(s, i, s.last(), wanted);
    }
}

/// Removing the first match lowers the count of matches by one, if there
/// was a match, and leaves the count of any test that rejects the removed
/// entry as it was.
pub proof fn lemma_remove_first_match_counts<A>(
    s: Seq<A>,
    wanted: spec_fn(A) -> bool,
    other: spec_fn(A) -> bool,
)
    ensures
        count_matches(s, wanted) > 0 ==> count_matches(remove_first_match(s, wanted), wanted) + 1
            == count_matches(s, wanted),
        count_matches(s, wanted) == 0 ==> remove_first_match(s, wanted) == s,
        first_match(s, wanted) < s.len() ==> wanted(s[first_match(s, wanted)]),
        (first_match(s, wanted) < s.len() ==> !other(s[first_match(s, wanted)])) ==> count_matches(
            remove_first_match(s, wanted),
            other,
        ) == count_matches(s, other),
{
    lemma_first_match_is_first(s, wanted);
    lemma_count_positive(s, wanted);
    let i = first_match(s, wanted);
    if i < s.len() {
        lemma_count_swap_remove(s, i, wanted);
        lemma_count_swap_remove(s, i, other);
    }
}

/// What an appended sequence contains.
pub proof fn lemma_push_contains<A>(s: Seq<A>, x: A, y: A)
    ensures
        s.push(x).contains(y) <==> s.contains(y) || x == y,
{
    if s.push(x).contains(y) {
        let i = choose|i: int| 0 <= i < s.push(x).len() && s.push(x)[i] == y;
        if i < s.len() {
            assert(s[i] == y);
        }
    }
    if s.contains(y) {
        let i = choose|i: int| 0 <= i < s.len() && s[i] == y;
        assert(s.push(x)[i] == y);
    }
    if x == y {
        assert(s.push(x)[s.len() as int] == y);
    }
}

/// What a filtered sequence contains: the entries that pass the test.
pub proof fn lemma_filter_contains<A>(s: Seq<A>, keep: spec_fn(A) -> bool, y: A)
    ensures
        s.filter(keep).contains(y) <==> s.contains(y) && keep(y),
    decreases s.len(),
{
    reveal(Seq::filter);
    if s.len() > 0 {
        let front = s.drop_last();
        lemma_filter_contains(front, keep, y);
        assert(s =~= front.push(s.last()));
        lemma_push_contains(front, s.last(), y);
        lemma_push_contains(front.filter(keep), s.last(), y);
    }
}

/// Filtering a sequence whose entries all pass the test changes nothing.
pub proof fn lemma_filter_keeps_all<A>(s: Seq<A>, keep: spec_fn(A) -> bool)
    requires
        forall|y: A| s.contains(y) ==> #[trigger] keep(y),
    ensures
        s.filter(keep) == s,
    decreases s.len(),
{
    reveal(Seq::filter);
    if s.len() > 0 {
        let front = s.drop_last();
        assert forall|y: A| front.contains(y) implies #[trigger] keep(y) by {
            let i = choose|i: int| 0 <= i < front.len() && front[i] == y;
            assert(s[i] == y);
        }
        lemma_filter_keeps_all(front, keep);
        assert(s.contains(s.last())) by {
            assert(s[s.len() - 1] == s.last());
        }
        assert(s =~= front.push(s.last()));
    }
}

} // verus!
