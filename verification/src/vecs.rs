//! Vectors of values that have a mathematical value of their own.

use vstd::prelude::*;

verus! {

/// Appends `x`.
pub(crate) fn push<T: DeepView>(v: &mut Vec<T>, x: T)
    ensures
        final(v).deep_view() == old(v).deep_view().push(x.deep_view()),
{
    let ghost before = v.deep_view();
    v.push(x);
    assert(v.deep_view() =~= before.push(x.deep_view()));
}

/// Appends the contents of `more`.
pub(crate) fn extend<T: DeepView>(v: &mut Vec<T>, more: Vec<T>)
    ensures
        final(v).deep_view() == old(v).deep_view() + more.deep_view(),
{
    let ghost before = v.deep_view();
    let mut more = more;
    let ghost added = more.deep_view();
    v.append(&mut more);
    assert(v.deep_view() =~= before + added);
}

/// `n` empty vectors.
pub(crate) fn empty_vecs<T>(n: usize) -> (vs: Vec<Vec<T>>)
    ensures
        vs@.len() == n,
        forall|i: int| 0 <= i < n ==> (#[trigger] vs@[i])@.len() == 0,
{
    let mut vs: Vec<Vec<T>> = Vec::new();
    let mut i: usize = 0;
    while i < n
        invariant
            i <= n,
            vs@.len() == i,
            forall|k: int| 0 <= k < i ==> (#[trigger] vs@[k])@.len() == 0,
        decreases n - i,
    {
        vs.push(Vec::new());
        i += 1;
    }
    vs
}

/// Filtering one item more.
pub(crate) proof fn filter_step<T>(s: Seq<T>, keep: spec_fn(T) -> bool, i: int)
    requires
        0 <= i < s.len(),
    ensures
        s.take(i + 1).filter(keep) == if keep(s[i]) {
            s.take(i).filter(keep).push(s[i])
        } else {
            s.take(i).filter(keep)
        },
{
    reveal(Seq::filter);
    assert(s.take(i + 1).drop_last() =~= s.take(i));
    assert(s.take(i + 1).last() == s[i]);
}

/// Filtering by predicates that agree on every item.
pub(crate) proof fn filter_same<T>(s: Seq<T>, keep: spec_fn(T) -> bool, other: spec_fn(T) -> bool)
    requires
        forall|i: int| 0 <= i < s.len() ==> keep(#[trigger] s[i]) == other(s[i]),
    ensures
        s.filter(keep) == s.filter(other),
    decreases s.len(),
{
    reveal(Seq::filter);
    if s.len() > 0 {
        let front = s.drop_last();
        assert forall|i: int| 0 <= i < front.len() implies keep(#[trigger] front[i]) == other(
            front[i],
        ) by {
            assert(front[i] == s[i]);
        }
        filter_same(front, keep, other);
    }
}

/// Filtering no item.
pub(crate) proof fn filter_none<T>(s: Seq<T>, keep: spec_fn(T) -> bool)
    ensures
        s.take(0).filter(keep) == Seq::<T>::empty(),
{
    reveal(Seq::filter);
    assert(s.take(0).len() == 0);
}

} // verus!
