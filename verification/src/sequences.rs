//! Facts about sequences.

use vstd::prelude::*;

verus! {

/// Filtering one element more keeps it or not.
pub(crate) proof fn lemma_filter_next<T>(s: Seq<T>, n: int, keep: spec_fn(T) -> bool)
    requires
        0 <= n < s.len(),
    ensures
        s.take(n + 1).filter(keep) == if keep(s[n]) {
            s.take(n).filter(keep).push(s[n])
        } else {
            s.take(n).filter(keep)
        },
{
    reveal(Seq::filter);
    assert(s.take(n + 1).drop_last() =~= s.take(n));
}

/// One element more in a sequence is one more that it holds.
pub(crate) proof fn lemma_push_contains<T>(s: Seq<T>, e: T)
    ensures
        forall|x: T| #[trigger] s.push(e).contains(x) <==> s.contains(x) || x == e,
{
    assert(s.push(e) =~= s.insert(s.len() as int, e));
    lemma_insert_contains(s, s.len() as int, e);
}

/// Inserting an element adds that element and no other.
pub(crate) proof fn lemma_insert_contains<T>(s: Seq<T>, at: int, e: T)
    requires
        0 <= at <= s.len(),
    ensures
        forall|x: T| #[trigger] s.insert(at, e).contains(x) <==> s.contains(x) || x == e,
{
    let t = s.insert(at, e);
    assert forall|x: T| #[trigger] t.contains(x) <==> s.contains(x) || x == e by {
        if t.contains(x) {
            let i = choose|i: int| 0 <= i < t.len() && t[i] == x;
            if i < at {
                assert(s[i] == x);
            } else if i > at {
                assert(s[i - 1] == x);
            }
        }
        if s.contains(x) {
            let i = choose|i: int| 0 <= i < s.len() && s[i] == x;
            if i < at {
                assert(t[i] == x);
            } else {
                assert(t[i + 1] == x);
            }
        }
        if x == e {
            assert(t[at] == e);
        }
    }
}

/// A concatenation holds what its parts hold.
pub(crate) proof fn lemma_concat_contains<T>(a: Seq<T>, b: Seq<T>)
    ensures
        forall|x: T| #[trigger] (a + b).contains(x) <==> a.contains(x) || b.contains(x),
{
    let c = a + b;
    assert forall|x: T| #[trigger] c.contains(x) <==> a.contains(x) || b.contains(x) by {
        if c.contains(x) {
            let i = choose|i: int| 0 <= i < c.len() && c[i] == x;
            if i < a.len() {
                assert(a[i] == x);
            } else {
                assert(b[i - a.len()] == x);
            }
        }
        if a.contains(x) {
            let i = choose|i: int| 0 <= i < a.len() && a[i] == x;
            assert(c[i] == x);
        }
        if b.contains(x) {
            let i = choose|i: int| 0 <= i < b.len() && b[i] == x;
            assert(c[i + a.len()] == x);
        }
    }
}

/// A filtered sequence holds the elements that are kept, and repeats none that was not repeated.
pub(crate) proof fn lemma_filter<T>(s: Seq<T>, keep: spec_fn(T) -> bool)
    ensures
        forall|x: T| #[trigger] s.filter(keep).contains(x) <==> s.contains(x) && keep(x),
        s.no_duplicates() ==> s.filter(keep).no_duplicates(),
    decreases s.len(),
{
    reveal(Seq::filter);
    if s.len() > 0 {
        let rest = s.drop_last();
        lemma_filter(rest, keep);
        let kept = rest.filter(keep);
        assert(s =~= rest.push(s.last()));
        lemma_push_contains(rest, s.last());
        lemma_push_contains(kept, s.last());
        if keep(s.last()) && s.no_duplicates() {
            assert(rest.no_duplicates());
            assert(!rest.contains(s.last())) by {
                if rest.contains(s.last()) {
                    let i = choose|i: int| 0 <= i < rest.len() && rest[i] == s.last();
                    assert(s[i] == s[s.len() - 1]);
                }
            }
            assert(!kept.contains(s.last()));
        }
    }
}

/// A sequence of which all elements are kept is what it is filtered to.
pub(crate) proof fn lemma_filter_all<T>(s: Seq<T>, keep: spec_fn(T) -> bool)
    requires
        forall|x: T| #[trigger] s.contains(x) ==> keep(x),
    ensures
        s.filter(keep) == s,
    decreases s.len(),
{
    reveal(Seq::filter);
    if s.len() > 0 {
        let rest = s.drop_last();
        assert(s =~= rest.push(s.last()));
        lemma_push_contains(rest, s.last());
        assert(s.contains(s.last()));
        assert forall|x: T| #[trigger] rest.contains(x) implies keep(x) by {
            assert(s.contains(x));
        }
        lemma_filter_all(rest, keep);
    }
}

/// Nothing is left of a sequence of which no element is kept.
pub(crate) proof fn lemma_filter_none<T>(s: Seq<T>, keep: spec_fn(T) -> bool)
    requires
        forall|x: T| #[trigger] s.contains(x) ==> !keep(x),
    ensures
        s.filter(keep) == Seq::<T>::empty(),
    decreases s.len(),
{
    reveal(Seq::filter);
    if s.len() > 0 {
        let rest = s.drop_last();
        assert(s =~= rest.push(s.last()));
        lemma_push_contains(rest, s.last());
        assert(s.contains(s.last()));
        assert forall|x: T| #[trigger] rest.contains(x) implies !keep(x) by {
            assert(s.contains(x));
        }
        lemma_filter_none(rest, keep);
    }
}

}
