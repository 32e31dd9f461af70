//! Facts about sequences that several modules lean on.

use vstd::prelude::*;

verus! {

/// Filtering one element more keeps that element or drops it.
pub proof fn lemma_filter_take_next<A>(s: Seq<A>, pred: spec_fn(A) -> bool, i: int)
    requires
        0 <= i < s.len(),
    ensures
        s.take(i + 1).filter(pred) == if pred(s[i]) {
            s.take(i).filter(pred).push(s[i])
        } else {
            s.take(i).filter(pred)
        },
{
    assert(s.take(i + 1) =~= s.take(i).push(s[i]));
    s.take(i).lemma_filter_push(s[i], pred);
}

/// Nothing is left of the filter of nothing.
pub proof fn lemma_filter_nothing<A>(s: Seq<A>, pred: spec_fn(A) -> bool)
    requires
        s.len() == 0,
    ensures
        s.filter(pred) == Seq::<A>::empty(),
{
    reveal(Seq::filter);
    assert(s.filter(pred) =~= Seq::<A>::empty());
}

/// What is left of a sequence without repetition has none.
pub proof fn lemma_filter_no_duplicates<A>(s: Seq<A>, pred: spec_fn(A) -> bool)
    requires
        s.no_duplicates(),
    ensures
        s.filter(pred).no_duplicates(),
    decreases s.len(),
{
    reveal(Seq::filter);
    if s.len() > 0 {
        let rest = s.drop_last();
        lemma_filter_no_duplicates(rest, pred);
        if pred(s.last()) {
            let kept = rest.filter(pred);
            if kept.contains(s.last()) {
                rest.lemma_filter_contains_rev(pred, s.last());
                let j = choose|j: int| 0 <= j < rest.len() && rest[j] == s.last();
                assert(s[j] == s[s.len() - 1]);
            }
            assert forall|i: int, j: int|
                0 <= i < kept.push(s.last()).len() && 0 <= j < kept.push(s.last()).len() && i
                    != j implies kept.push(s.last())[i] != kept.push(s.last())[j] by {
                if i < kept.len() && j < kept.len() {
                } else if i < kept.len() {
                    assert(kept.contains(kept[i]));
                } else {
                    assert(kept.contains(kept[j]));
                }
            }
        }
    }
}

/// A filter keeps all of a sequence whose every element passes.
pub proof fn lemma_filter_all<A>(s: Seq<A>, pred: spec_fn(A) -> bool)
    requires
        forall|i: int| 0 <= i < s.len() ==> pred(#[trigger] s[i]),
    ensures
        s.filter(pred) == s,
    decreases s.len(),
{
    reveal(Seq::filter);
    if s.len() > 0 {
        let rest = s.drop_last();
        assert forall|i: int| 0 <= i < rest.len() implies pred(#[trigger] rest[i]) by {
            assert(rest[i] == s[i]);
        }
        lemma_filter_all(rest, pred);
        assert(rest.push(s.last()) =~= s);
    } else {
        assert(s.filter(pred) =~= s);
    }
}

/// A filter behind a wider one keeps what it keeps alone.
pub proof fn lemma_filter_twice<A>(s: Seq<A>, wide: spec_fn(A) -> bool, narrow: spec_fn(A) -> bool)
    requires
        forall|x: A| #[trigger] narrow(x) ==> wide(x),
    ensures
        s.filter(wide).filter(narrow) == s.filter(narrow),
    decreases s.len(),
{
    reveal(Seq::filter);
    if s.len() > 0 {
        let rest = s.drop_last();
        lemma_filter_twice(rest, wide, narrow);
        if wide(s.last()) {
            rest.filter(wide).lemma_filter_push(s.last(), narrow);
        }
    } else {
        assert(s.filter(wide) =~= s);
    }
}

/// Filtering commutes with mapping where the filter looks at the image only.
pub proof fn lemma_filter_then_map<A, B>(
    s: Seq<A>,
    f: spec_fn(A) -> B,
    before: spec_fn(A) -> bool,
    after: spec_fn(B) -> bool,
)
    requires
        forall|x: A| #[trigger] before(x) == after(f(x)),
    ensures
        s.filter(before).map_values(f) == s.map_values(f).filter(after),
    decreases s.len(),
{
    reveal(Seq::filter);
    if s.len() == 0 {
        assert(s.filter(before).map_values(f) =~= s.map_values(f).filter(after));
    } else {
        let rest = s.drop_last();
        lemma_filter_then_map(rest, f, before, after);
        assert(s.map_values(f).drop_last() =~= rest.map_values(f));
        assert(s.map_values(f).last() == f(s.last()));
        if before(s.last()) {
            assert(rest.filter(before).push(s.last()).map_values(f) =~= rest.filter(
                before,
            ).map_values(f).push(f(s.last())));
        }
    }
}

/// A sequence without repetition whose elements are all the same has at most one.
pub proof fn lemma_all_same_no_duplicates<A>(s: Seq<A>, x: A)
    requires
        s.no_duplicates(),
        forall|i: int| 0 <= i < s.len() ==> #[trigger] s[i] == x,
    ensures
        s.len() <= 1,
{
    if s.len() >= 2 {
        assert(s[0] == x && s[1] == x);
    }
}

} // verus!
