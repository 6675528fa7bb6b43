use vstd::prelude::*;
use std::cmp::Ordering;

verus! {

/// The ascending order of two numbers.
pub open spec fn order_of(a: i64, b: i64) -> Ordering {
    if a < b {
        Ordering::Less
    } else if a > b {
        Ordering::Greater
    } else {
        Ordering::Equal
    }
}

/// The order read the other way round.
pub open spec fn flipped(o: Ordering) -> Ordering {
    match o {
        Ordering::Less => Ordering::Greater,
        Ordering::Greater => Ordering::Less,
        Ordering::Equal => Ordering::Equal,
    }
}

/// Three-way comparison of two `i64` values, in ascending order.
pub fn cmp_i64(a: &i64, b: &i64) -> (r: Ordering)
    ensures
        r == order_of(*a, *b),
        (r == Ordering::Less) <==> *a < *b,
        (r == Ordering::Greater) <==> *a > *b,
        (r == Ordering::Equal) <==> *a == *b,
{
    if *a < *b {
        return Ordering::Less;
    } else if *a > *b {
        return Ordering::Greater;
    }
    Ordering::Equal
}

/// Law: comparing the other way round gives the flipped order, so comparing `b` with `a`
/// (as the rankings do) sorts in descending order.
pub proof fn lemma_order_flips(a: i64, b: i64)
    ensures
        order_of(b, a) == flipped(order_of(a, b)),
        (order_of(a, b) == Ordering::Equal) <==> (a == b),
{
}

/// Law: the order is transitive.
pub proof fn lemma_order_transitive(a: i64, b: i64, c: i64)
    requires
        order_of(a, b) != Ordering::Greater,
        order_of(b, c) != Ordering::Greater,
    ensures
        order_of(a, c) != Ordering::Greater,
{
}

} // verus!
