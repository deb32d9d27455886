//! Signed distance on the circle of 16-bit sequence numbers.

use vstd::prelude::*;

verus! {

/// Number of points on the circle of sequence numbers.
pub const CIRCLE: i32 = 65536;

/// Largest distance that counts as forward.
pub const HALF_MAX: i32 = 32767;

/// Largest distance backward; also the result for the diametrically opposite pair.
pub const HALF_MIN: i32 = -32768;

/// The signed distance from `a` to `b` on the circle: the one value in
/// `[-32768, 32767]` that is congruent to `b - a` modulo 65536.
pub open spec fn cyclic_diff(a: u16, b: u16) -> int {
    let d = b as int - a as int;
    if d > 32767 {
        d - 65536
    } else if d < -32768 {
        d + 65536
    } else {
        d
    }
}

/// The point reached from `a` by `steps` steps round the circle.
pub open spec fn cyclic_add(a: u16, steps: int) -> int {
    (a as int + steps) % 65536
}

/// Retrieves the wrapping difference `b - a`: positive when `b` follows `a`.
/// The pair of opposite points gives `-32768`.
pub fn wrapping_diff(a: u16, b: u16) -> (result: i16)
    ensures
        result as int == cyclic_diff(a, b),
{
    let a: i32 = a as i32;
    let b: i32 = b as i32;
    let result: i32 = b - a;
    if HALF_MIN <= result && result <= HALF_MAX {
        result as i16
    } else if b > a {
        (b - (a + CIRCLE)) as i16
    } else {
        ((b + CIRCLE) - a) as i16
    }
}

/// The distance always lies in the range of a signed 16-bit integer.
pub proof fn lemma_cyclic_diff_range(a: u16, b: u16)
    ensures
        -32768 <= cyclic_diff(a, b) <= 32767,
{
}

/// Walking the distance from `a` to `b`, starting at `a`, arrives at `b`.
pub proof fn lemma_cyclic_diff_reaches(a: u16, b: u16)
    ensures
        cyclic_add(a, cyclic_diff(a, b)) == b as int,
{
}

/// The distance is zero exactly between a point and itself.
pub proof fn lemma_cyclic_diff_zero(a: u16, b: u16)
    ensures
        cyclic_diff(a, b) == 0 <==> a == b,
{
}

/// Swapping the two points negates the distance, except for the pair of
/// opposite points, whose distance is `-32768` both ways.
pub proof fn lemma_cyclic_diff_antisymmetric(a: u16, b: u16)
    ensures
        cyclic_diff(a, b) != -32768 ==> cyclic_diff(a, b) == -cyclic_diff(b, a),
        cyclic_diff(a, b) == -32768 ==> cyclic_diff(b, a) == -32768,
{
}

/// Moving both points by the same number of steps keeps their distance.
pub proof fn lemma_cyclic_diff_shift(a: u16, b: u16, a2: u16, b2: u16, steps: int)
    requires
        a2 as int == cyclic_add(a, steps),
        b2 as int == cyclic_add(b, steps),
    ensures
        cyclic_diff(a2, b2) == cyclic_diff(a, b),
{
    let k = (a as int + steps) / 65536;
    let l = (b as int + steps) / 65536;
    assert(a as int + steps == 65536 * k + a2 as int) by {
        vstd::arithmetic::div_mod::lemma_fundamental_div_mod(a as int + steps, 65536);
    }
    assert(b as int + steps == 65536 * l + b2 as int) by {
        vstd::arithmetic::div_mod::lemma_fundamental_div_mod(b as int + steps, 65536);
    }
}

} // verus!
