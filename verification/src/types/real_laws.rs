//! What holds of the order of numbers.

use vstd::prelude::*;

use crate::types::Real;

verus! {

/// Of two numbers above nought the one with the greater bits is greater, and of two
/// below nought the one with the smaller. What is below nought is less than what is
/// above it, and the two noughts are neither less nor greater.
pub proof fn numbers_are_ordered_by_their_bits(a: Real, b: Real)
    requires
        !a.spec_is_nan(),
        !b.spec_is_nan(),
    ensures
        a.bits < 0x8000_0000_0000_0000 && b.bits < 0x8000_0000_0000_0000 ==> (a.less(b) <==> a.bits
            < b.bits),
        a.bits >= 0x8000_0000_0000_0000 && b.bits >= 0x8000_0000_0000_0000 ==> (a.less(b)
            <==> a.bits > b.bits),
        a.bits > 0x8000_0000_0000_0000 && b.bits < 0x8000_0000_0000_0000 ==> a.less(b),
        a.bits < 0x8000_0000_0000_0000 && b.bits >= 0x8000_0000_0000_0000 ==> !a.less(b),
        a.bits == 0x8000_0000_0000_0000 && b.bits == 0 ==> !a.less(b) && !b.less(a),
{
}

/// The order of numbers is one: nothing is less than itself, of two one way holds at
/// most, and what is less than a lesser one is less.
pub proof fn numbers_are_in_order(a: Real, b: Real, c: Real)
    ensures
        !a.less(a),
        a.less(b) ==> !b.less(a),
        a.less(b) && b.less(c) ==> a.less(c),
        a.less(b) ==> !a.spec_is_nan() && !b.spec_is_nan(),
{
}

/// A number is finite, infinite, or none at all, by its bits without the sign.
pub proof fn numbers_are_finite_below_infinity(a: Real)
    ensures
        a.bits < 0x7ff0_0000_0000_0000 ==> a.finite() && !a.spec_is_nan(),
        a.bits == 0x7ff0_0000_0000_0000 || a.bits == 0xfff0_0000_0000_0000 ==> !a.finite()
            && !a.spec_is_nan(),
        0x7ff0_0000_0000_0000 < a.bits < 0x8000_0000_0000_0000 ==> !a.finite() && a.spec_is_nan(),
        0x8000_0000_0000_0000 <= a.bits < 0xfff0_0000_0000_0000 ==> a.finite() && !a.spec_is_nan(),
        a.bits > 0xfff0_0000_0000_0000 ==> !a.finite() && a.spec_is_nan(),
{
}

} // verus!
