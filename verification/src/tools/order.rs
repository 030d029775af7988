//! Comparison of items through their `Ord` implementation, and the facts
//! that hold of a lawful total order.

use std::cmp::Ordering;
use vstd::std_specs::cmp::{OrdSpec, PartialEqSpec, PartialOrdSpec};
use vstd::prelude::*;

verus! {

/// The type's `Ord` implementation is a lawful total order, consistent with
/// its `PartialOrd` and `PartialEq` implementations (true of the primitive
/// integer types and of tuples of lawful types).
pub open spec fn lawful_order<T: Ord>() -> bool {
    vstd::laws_cmp::obeys_cmp::<T>()
}

/// `a` sorts strictly before `b`.
pub open spec fn order_lt<T: Ord>(a: T, b: T) -> bool {
    a.cmp_spec(&b) == Ordering::Less
}

/// `a` sorts before `b` or with it.
pub open spec fn order_le<T: Ord>(a: T, b: T) -> bool {
    a.cmp_spec(&b) != Ordering::Greater
}

/// Whether `a` sorts strictly before `b`, as `Ord::cmp` says.
pub fn less_than<T: Ord>(a: &T, b: &T) -> (r: bool)
    ensures
        lawful_order::<T>() ==> r == order_lt(*a, *b),
{
    proof {
        if lawful_order::<T>() {
            reveal(vstd::laws_cmp::obeys_cmp_ord);
        }
    }
    match a.cmp(b) {
        Ordering::Less => true,
        Ordering::Equal => false,
        Ordering::Greater => false,
    }
}

/// The facts of a lawful total order that sorting relies on.
pub proof fn lemma_order<T: Ord>(a: T, b: T, c: T)
    requires
        lawful_order::<T>(),
    ensures
        order_lt(a, b) ==> order_le(a, b),
        !order_lt(a, b) ==> order_le(b, a),
        order_le(a, b) ==> !order_lt(b, a),
        order_le(a, a),
        order_le(a, b) && order_le(b, c) ==> order_le(a, c),
        order_le(a, b) && order_lt(b, c) ==> order_lt(a, c),
        order_lt(a, b) && order_le(b, c) ==> order_lt(a, c),
{
    reveal(vstd::laws_cmp::obeys_cmp_ord);
    reveal(vstd::laws_cmp::obeys_partial_cmp_spec_properties);
    reveal(vstd::laws_cmp::obeys_cmp_partial_ord);
    reveal(vstd::laws_eq::obeys_eq_spec_properties);
    let ab = a.partial_cmp_spec(&b);
    let ba = b.partial_cmp_spec(&a);
    let bc = b.partial_cmp_spec(&c);
    let ac = a.partial_cmp_spec(&c);
    let ca = c.partial_cmp_spec(&a);
    let cb = c.partial_cmp_spec(&b);
    let aa = a.partial_cmp_spec(&a);
    assert(a.partial_cmp_spec(&b) == Some(a.cmp_spec(&b)));
    assert(b.partial_cmp_spec(&a) == Some(b.cmp_spec(&a)));
    assert(b.partial_cmp_spec(&c) == Some(b.cmp_spec(&c)));
    assert(a.partial_cmp_spec(&c) == Some(a.cmp_spec(&c)));
    assert(c.partial_cmp_spec(&a) == Some(c.cmp_spec(&a)));
    assert(c.partial_cmp_spec(&b) == Some(c.cmp_spec(&b)));
    assert(a.partial_cmp_spec(&a) == Some(a.cmp_spec(&a)));
    let eab = a.eq_spec(&b);
    let eba = b.eq_spec(&a);
    let ebc = b.eq_spec(&c);
    let ecb = c.eq_spec(&b);
    let eac = a.eq_spec(&c);
    let eca = c.eq_spec(&a);
    assert(eab == (ab == Some(Ordering::Equal)));
    assert(eba == (ba == Some(Ordering::Equal)));
    assert(ebc == (bc == Some(Ordering::Equal)));
    assert(ecb == (cb == Some(Ordering::Equal)));
    assert(eac == (ac == Some(Ordering::Equal)));
    assert(eca == (ca == Some(Ordering::Equal)));
    assert((ab == Some(Ordering::Less)) == (ba == Some(Ordering::Greater)));
    assert((bc == Some(Ordering::Less)) == (cb == Some(Ordering::Greater)));
    assert((ac == Some(Ordering::Less)) == (ca == Some(Ordering::Greater)));
    assert((ba == Some(Ordering::Less)) == (ab == Some(Ordering::Greater)));
    assert((cb == Some(Ordering::Less)) == (bc == Some(Ordering::Greater)));
    assert((ca == Some(Ordering::Less)) == (ac == Some(Ordering::Greater)));
    if ab == Some(Ordering::Less) && bc == Some(Ordering::Less) {
        assert(ac == Some(Ordering::Less));
    }
    if ca == Some(Ordering::Less) && ab == Some(Ordering::Less) {
        assert(cb == Some(Ordering::Less));
    }
    if bc == Some(Ordering::Less) && ca == Some(Ordering::Less) {
        assert(ba == Some(Ordering::Less));
    }
    if eab && ebc {
        assert(eac);
    }
    // reflexivity: a Less or Greater result against itself contradicts the reversal law
    if a.cmp_spec(&a) == Ordering::Greater {
        assert(aa == Some(Ordering::Greater));
        assert(aa == Some(Ordering::Less));
    }
}

} // verus!
