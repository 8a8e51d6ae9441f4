//! The order on partition keys.
//!
//! Keys are compared with the key type's own `Ord`. The predicates here name
//! the three outcomes of a comparison, and the lemmas derive the usual facts
//! of a total order for them.

use std::cmp::Ordering;
use vstd::prelude::*;
use vstd::std_specs::cmp::{OrdSpec, PartialEqSpec, PartialOrdSpec};

verus! {

/// The comparison of `K` is a total order, and the executable comparison
/// operators of `K` compute it.
pub open spec fn total_order<K: Ord>() -> bool {
    vstd::laws_cmp::obeys_cmp::<K>()
}

/// `a` sorts strictly before `b`.
pub open spec fn key_lt<K: Ord>(a: K, b: K) -> bool {
    a.cmp_spec(&b) == Ordering::Less
}

/// `a` and `b` compare as equal.
pub open spec fn key_eq<K: Ord>(a: K, b: K) -> bool {
    a.cmp_spec(&b) == Ordering::Equal
}

/// `a` sorts before `b` or compares as equal to it.
pub open spec fn key_le<K: Ord>(a: K, b: K) -> bool {
    key_lt(a, b) || key_eq(a, b)
}

/// Exactly one of "before", "equal" and "after" holds of two keys.
pub proof fn lemma_trichotomy<K: Ord>(a: K, b: K)
    requires
        total_order::<K>(),
    ensures
        key_lt(a, b) || key_eq(a, b) || key_lt(b, a),
        !(key_lt(a, b) && key_eq(a, b)),
        !(key_lt(a, b) && key_lt(b, a)),
        !(key_eq(a, b) && key_lt(b, a)),
{
    reveal(vstd::laws_cmp::obeys_partial_cmp_spec_properties);
    reveal(vstd::laws_cmp::obeys_cmp_ord);
    reveal(vstd::laws_cmp::obeys_cmp_partial_ord);
    reveal(vstd::laws_eq::obeys_eq_spec_properties);
    let ab = a.partial_cmp_spec(&b);
    let ba = b.partial_cmp_spec(&a);
    assert(ab == Some(a.cmp_spec(&b)));
    assert(ba == Some(b.cmp_spec(&a)));
    assert(a.eq_spec(&b) <==> b.eq_spec(&a));
}

/// Every key compares as equal to itself.
pub proof fn lemma_key_eq_reflexive<K: Ord>(a: K)
    requires
        total_order::<K>(),
    ensures
        key_eq(a, a),
{
    lemma_trichotomy(a, a);
}

/// Comparing as equal is symmetric.
pub proof fn lemma_key_eq_symmetric<K: Ord>(a: K, b: K)
    requires
        total_order::<K>(),
        key_eq(a, b),
    ensures
        key_eq(b, a),
{
    lemma_trichotomy(a, b);
    lemma_trichotomy(b, a);
}

/// Comparing as equal is transitive.
pub proof fn lemma_key_eq_transitive<K: Ord>(a: K, b: K, c: K)
    requires
        total_order::<K>(),
        key_eq(a, b),
        key_eq(b, c),
    ensures
        key_eq(a, c),
{
    reveal(vstd::laws_cmp::obeys_partial_cmp_spec_properties);
    reveal(vstd::laws_cmp::obeys_cmp_ord);
    reveal(vstd::laws_cmp::obeys_cmp_partial_ord);
    reveal(vstd::laws_eq::obeys_eq_spec_properties);
    assert(a.partial_cmp_spec(&b) == Some(a.cmp_spec(&b)));
    assert(b.partial_cmp_spec(&c) == Some(b.cmp_spec(&c)));
    assert(a.partial_cmp_spec(&c) == Some(a.cmp_spec(&c)));
    assert(a.eq_spec(&b));
    assert(b.eq_spec(&c));
    assert(a.eq_spec(&c));
}

/// Sorting strictly before is transitive.
pub proof fn lemma_key_lt_transitive<K: Ord>(a: K, b: K, c: K)
    requires
        total_order::<K>(),
        key_lt(a, b),
        key_lt(b, c),
    ensures
        key_lt(a, c),
{
    reveal(vstd::laws_cmp::obeys_partial_cmp_spec_properties);
    reveal(vstd::laws_cmp::obeys_cmp_ord);
    assert(a.partial_cmp_spec(&b) == Some(a.cmp_spec(&b)));
    assert(b.partial_cmp_spec(&c) == Some(b.cmp_spec(&c)));
    assert(a.partial_cmp_spec(&c) == Some(a.cmp_spec(&c)));
}

/// A key that sorts before `b` sorts before every key equal to `b`.
pub proof fn lemma_key_lt_then_eq<K: Ord>(a: K, b: K, c: K)
    requires
        total_order::<K>(),
        key_lt(a, b),
        key_eq(b, c),
    ensures
        key_lt(a, c),
{
    lemma_trichotomy(a, c);
    if key_eq(a, c) {
        lemma_key_eq_symmetric(b, c);
        lemma_key_eq_transitive(a, c, b);
        lemma_trichotomy(a, b);
    } else if key_lt(c, a) {
        lemma_key_lt_transitive(c, a, b);
        lemma_key_eq_symmetric(b, c);
        lemma_trichotomy(c, b);
    }
}

/// Where the equality of `K` tells whether two keys are the same value,
/// keys that compare as equal are the same.
pub proof fn lemma_key_eq_is_equality<K: Ord>(a: K, b: K)
    requires
        total_order::<K>(),
        vstd::laws_eq::obeys_concrete_eq::<K>(),
    ensures
        key_eq(a, b) <==> a == b,
{
    reveal(vstd::laws_cmp::obeys_partial_cmp_spec_properties);
    reveal(vstd::laws_cmp::obeys_cmp_ord);
    reveal(vstd::laws_cmp::obeys_cmp_partial_ord);
    reveal(vstd::laws_eq::obeys_concrete_eq);
    assert(a.partial_cmp_spec(&b) == Some(a.cmp_spec(&b)));
    assert(a.eq_spec(&b) <==> a == b);
}

/// Tells whether two keys compare as equal.
pub fn same_key<K: Ord>(a: &K, b: &K) -> (same: bool)
    requires
        total_order::<K>(),
    ensures
        same == key_eq(*a, *b),
{
    proof {
        reveal(vstd::laws_cmp::obeys_partial_cmp_spec_properties);
        reveal(vstd::laws_cmp::obeys_cmp_ord);
        reveal(vstd::laws_cmp::obeys_cmp_partial_ord);
        assert(a.partial_cmp_spec(b) == Some(a.cmp_spec(b)));
    }
    a == b
}

} // verus!
