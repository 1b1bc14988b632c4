//! Comparing loads. A load is of any type whose values can be compared with `<=` and `<`.

use vstd::prelude::*;

verus! {

/// Whether `a <= b` can come to the answer.
pub open spec fn at_most<M: PartialOrd>(a: M, b: M, answer: bool) -> bool {
    call_ensures(<M as PartialOrd>::le, (&a, &b), answer)
}

/// Whether `a < b` can come to the answer.
pub open spec fn below<M: PartialOrd>(a: M, b: M, answer: bool) -> bool {
    call_ensures(<M as PartialOrd>::lt, (&a, &b), answer)
}

/// Whether the comparisons of the two always say that `a` is the lower.
pub open spec fn always_lower<M: PartialOrd>(a: M, b: M) -> bool {
    &&& forall|answer: bool| #[trigger] at_most(a, b, answer) ==> answer
    &&& forall|answer: bool| #[trigger] at_most(b, a, answer) ==> !answer
    &&& forall|answer: bool| #[trigger] below(a, b, answer) ==> answer
    &&& forall|answer: bool| #[trigger] below(b, a, answer) ==> !answer
}

/// Machine integers compare by their values.
pub proof fn integers_compare_by_value(a: u64, b: u64)
    ensures
        forall|answer: bool| #[trigger] at_most(a, b, answer) ==> answer == (a <= b),
        forall|answer: bool| #[trigger] below(a, b, answer) ==> answer == (a < b),
        a < b ==> always_lower(a, b),
{
}

}
