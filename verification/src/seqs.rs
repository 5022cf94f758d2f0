//! Filtered and mapped sequences.

use vstd::prelude::*;

verus! {

/// Filtering one more element adds it to the result or leaves it out.
pub(crate) proof fn lemma_filter_step<A>(s: Seq<A>, p: spec_fn(A) -> bool, i: int)
    requires
        0 <= i < s.len(),
    ensures
        s.take(i + 1).filter(p) == if p(s[i]) {
            s.take(i).filter(p).push(s[i])
        } else {
            s.take(i).filter(p)
        },
{
    reveal(Seq::filter);
    assert(s.take(i + 1).drop_last() =~= s.take(i));
    assert(s.take(i + 1).last() == s[i]);
}

/// A predicate that holds of every element keeps every element.
pub(crate) proof fn lemma_filter_all<A>(s: Seq<A>, p: spec_fn(A) -> bool)
    requires
        forall|i: int| 0 <= i < s.len() ==> p(#[trigger] s[i]),
    ensures
        s.filter(p) == s,
    decreases s.len(),
{
    reveal(Seq::filter);
    if s.len() > 0 {
        assert forall|i: int| 0 <= i < s.drop_last().len() implies p(#[trigger] s.drop_last()[i]) by {
            assert(p(s[i]));
        }
        lemma_filter_all(s.drop_last(), p);
        assert(p(s[s.len() - 1]));
        assert(s.drop_last().push(s.last()) =~= s);
    }
}

/// A predicate that holds of no element keeps none.
pub(crate) proof fn lemma_filter_none<A>(s: Seq<A>, p: spec_fn(A) -> bool)
    requires
        forall|i: int| 0 <= i < s.len() ==> !p(#[trigger] s[i]),
    ensures
        s.filter(p).len() == 0,
    decreases s.len(),
{
    reveal(Seq::filter);
    if s.len() > 0 {
        assert forall|i: int| 0 <= i < s.drop_last().len() implies !p(#[trigger] s.drop_last()[i]) by {
            assert(!p(s[i]));
        }
        lemma_filter_none(s.drop_last(), p);
        assert(!p(s[s.len() - 1]));
    }
}

/// What an element is mapped to is in the result.
pub(crate) proof fn lemma_filter_map_contains<A, B>(s: Seq<A>, f: spec_fn(A) -> Option<B>, i: int)
    requires
        0 <= i < s.len(),
        f(s[i]) is Some,
    ensures
        s.filter_map(f).contains(f(s[i])->0),
    decreases s.len(),
{
    let rest = s.drop_last();
    if i == s.len() - 1 {
        let r = s.filter_map(f);
        assert(r[r.len() - 1] == f(s[i])->0);
    } else {
        lemma_filter_map_contains(rest, f, i);
        assert(rest[i] == s[i]);
        let r = rest.filter_map(f);
        let k = choose|k: int| 0 <= k < r.len() && r[k] == f(s[i])->0;
        assert(s.filter_map(f)[k] == f(s[i])->0);
    }
}

/// A map that gives nothing for any element gives nothing.
pub(crate) proof fn lemma_filter_map_none<A, B>(s: Seq<A>, f: spec_fn(A) -> Option<B>)
    requires
        forall|i: int| 0 <= i < s.len() ==> f(#[trigger] s[i]) is None,
    ensures
        s.filter_map(f).len() == 0,
    decreases s.len(),
{
    if s.len() > 0 {
        assert forall|i: int| 0 <= i < s.drop_last().len() implies f(
            #[trigger] s.drop_last()[i],
        ) is None by {
            assert(f(s[i]) is None);
        }
        lemma_filter_map_none(s.drop_last(), f);
        assert(f(s[s.len() - 1]) is None);
    }
}

/// Filtering leaves no two equal elements where there were none.
pub(crate) proof fn lemma_filter_no_duplicates<A>(s: Seq<A>, p: spec_fn(A) -> bool)
    requires
        s.no_duplicates(),
    ensures
        s.filter(p).no_duplicates(),
    decreases s.len(),
{
    reveal(Seq::filter);
    if s.len() > 0 {
        let rest = s.drop_last();
        lemma_filter_no_duplicates(rest, p);
        if rest.filter(p).contains(s.last()) {
            rest.lemma_filter_contains_rev(p, s.last());
            let i = choose|i: int| 0 <= i < rest.len() && rest[i] == s.last();
            assert(s[i] == s[s.len() - 1]);
        }
    }
}

/// Two predicates of which exactly one holds of each element part the elements between them.
pub(crate) proof fn lemma_filter_parts<A>(s: Seq<A>, p: spec_fn(A) -> bool, q: spec_fn(A) -> bool)
    requires
        forall|i: int| 0 <= i < s.len() ==> p(#[trigger] s[i]) != q(s[i]),
    ensures
        s.filter(p).len() + s.filter(q).len() == s.len(),
    decreases s.len(),
{
    reveal(Seq::filter);
    if s.len() > 0 {
        assert forall|i: int| 0 <= i < s.drop_last().len() implies p(#[trigger] s.drop_last()[i])
            != q(s.drop_last()[i]) by {
            assert(p(s[i]) != q(s[i]));
        }
        lemma_filter_parts(s.drop_last(), p, q);
        assert(p(s[s.len() - 1]) != q(s[s.len() - 1]));
    }
}

/// Filtering before and after a map is filtering once before it.
pub(crate) proof fn lemma_filter_map_filter<A, B>(
    s: Seq<A>,
    p: spec_fn(A) -> bool,
    f: spec_fn(A) -> B,
    q: spec_fn(B) -> bool,
    r: spec_fn(A) -> bool,
)
    requires
        forall|i: int| 0 <= i < s.len() ==> r(#[trigger] s[i]) == (p(s[i]) && q(f(s[i]))),
    ensures
        s.filter(p).map_values(f).filter(q) == s.filter(r).map_values(f),
    decreases s.len(),
{
    reveal(Seq::filter);
    if s.len() == 0 {
        assert(s.filter(p).map_values(f).filter(q) =~= s.filter(r).map_values(f));
    } else {
        let rest = s.drop_last();
        let last = s.last();
        assert forall|i: int| 0 <= i < rest.len() implies r(#[trigger] rest[i]) == (p(rest[i]) && q(
            f(rest[i]),
        )) by {
            assert(r(s[i]) == (p(s[i]) && q(f(s[i]))));
        }
        lemma_filter_map_filter(rest, p, f, q, r);
        assert(r(s[s.len() - 1]) == (p(last) && q(f(last))));
        if p(last) {
            let mapped = rest.filter(p).map_values(f);
            assert(s.filter(p).map_values(f) =~= mapped.push(f(last)));
            assert(mapped.push(f(last)).drop_last() =~= mapped);
        }
        if r(last) {
            assert(s.filter(r).map_values(f) =~= rest.filter(r).map_values(f).push(f(last)));
        }
    }
}

/// A map that gives different results for different elements gives none twice.
pub(crate) proof fn lemma_filter_map_no_duplicates<A, B>(s: Seq<A>, f: spec_fn(A) -> Option<B>)
    requires
        forall|i: int, j: int|
            0 <= i < j < s.len() && f(#[trigger] s[i]) is Some ==> f(s[i]) != f(#[trigger] s[j]),
    ensures
        s.filter_map(f).no_duplicates(),
    decreases s.len(),
{
    if s.len() > 0 {
        let rest = s.drop_last();
        let n = s.len() - 1;
        assert forall|i: int, j: int| 0 <= i < j < rest.len() && f(#[trigger] rest[i]) is Some
            implies f(rest[i]) != f(#[trigger] rest[j]) by {
            assert(f(s[i]) != f(s[j]));
        }
        lemma_filter_map_no_duplicates(rest, f);
        if f(s[n]) is Some && rest.filter_map(f).contains(f(s[n])->0) {
            rest.lemma_filter_map_contains(f, f(s[n])->0);
            let t = choose|t: A| #[trigger] rest.contains(t) && f(t) == Some(f(s[n])->0);
            let i = choose|i: int| 0 <= i < rest.len() && rest[i] == t;
            assert(f(s[i]) != f(s[n]));
        }
    }
}

} // verus!
