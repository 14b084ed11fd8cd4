//! The arithmetic of the stack machine on `i64`: sums, differences and
//! products that wrap round, and floored division and modulus, computed by
//! the `num` crate.

use vstd::prelude::*;

verus! {

/// The floored quotient of `a` by a non-zero `b`: the greatest integer `q`
/// with `q * b <= a` for positive `b`, and with `q * b >= a` for negative `b`.
pub open spec fn floor_div(a: int, b: int) -> int {
    if b > 0 {
        a / b
    } else {
        (-a) / (-b)
    }
}

/// The floored remainder of `a` by a non-zero `b`. It is zero or has the sign
/// of `b`, and `floor_div(a, b) * b + floor_mod(a, b) == a`.
pub open spec fn floor_mod(a: int, b: int) -> int {
    if b > 0 {
        a % b
    } else {
        -((-a) % (-b))
    }
}

/// Whether `a / b` is defined on `i64` without overflow.
pub open spec fn divisible(a: i64, b: i64) -> bool {
    b != 0 && !(a == i64::MIN && b == -1)
}

/// Calls `num::Integer::mod_floor` on `i64`. The crate computes `a % b` and
/// adds `b` where the remainder and `b` differ in sign, which is the floored
/// remainder; it panics where `a % b` does, which `requires` leaves out.
#[verifier::external_body]
pub(crate) fn mod_floor(a: i64, b: i64) -> (r: i64)
    requires
        divisible(a, b),
    ensures
        r == floor_mod(a as int, b as int),
{
    num::Integer::mod_floor(&a, &b)
}

/// Calls `num::Integer::div_floor` on `i64`. The crate computes the truncated
/// quotient and subtracts one where the remainder and `b` differ in sign,
/// which is the floored quotient; it panics where `a / b` does, which
/// `requires` leaves out.
#[verifier::external_body]
pub(crate) fn div_floor(a: i64, b: i64) -> (r: i64)
    requires
        divisible(a, b),
    ensures
        r == floor_div(a as int, b as int),
{
    num::Integer::div_floor(&a, &b)
}

/// The floored quotient of `a` by a non-zero `b`, wrapped round where it
/// does not fit.
pub open spec fn spec_quotient(a: i64, b: i64) -> i64 {
    if a == i64::MIN && b == -1 {
        i64::MIN
    } else {
        floor_div(a as int, b as int) as i64
    }
}

/// The floored remainder of `a` by a non-zero `b`, which is zero or has the
/// sign of `b`.
pub open spec fn spec_remainder(a: i64, b: i64) -> i64 {
    if a == i64::MIN && b == -1 {
        0i64
    } else {
        floor_mod(a as int, b as int) as i64
    }
}

/// The sum of two values, wrapped round.
pub fn sum(a: i64, b: i64) -> (r: i64)
    ensures
        r == a.wrapping_add(b),
{
    a.wrapping_add(b)
}

/// The difference of two values, wrapped round.
pub fn difference(a: i64, b: i64) -> (r: i64)
    ensures
        r == a.wrapping_sub(b),
{
    a.wrapping_sub(b)
}

/// The product of two values, wrapped round.
pub fn product(a: i64, b: i64) -> (r: i64)
    ensures
        r == a.wrapping_mul(b),
{
    a.wrapping_mul(b)
}

/// One where `a` is greater than `b`, zero where it is not.
pub fn greater(a: i64, b: i64) -> (r: i64)
    ensures
        r == (if a > b {
            1i64
        } else {
            0i64
        }),
{
    if a > b {
        1
    } else {
        0
    }
}

/// Divide `a` by a non-zero `b` and round down.
pub fn quotient(a: i64, b: i64) -> (r: i64)
    requires
        b != 0,
    ensures
        r == spec_quotient(a, b),
{
    if a == i64::MIN && b == -1 {
        i64::MIN
    } else {
        div_floor(a, b)
    }
}

/// The remainder that division of `a` by a non-zero `b` leaves when it
/// rounds down.
pub fn remainder(a: i64, b: i64) -> (r: i64)
    requires
        b != 0,
    ensures
        r == spec_remainder(a, b),
{
    if a == i64::MIN && b == -1 {
        0
    } else {
        mod_floor(a, b)
    }
}

/// The two floored operations split `a` into a multiple of `b` and a
/// remainder that is zero or has the sign of `b` and is smaller than it.
pub proof fn lemma_floor_div_mod(a: int, b: int)
    requires
        b != 0,
    ensures
        floor_div(a, b) * b + floor_mod(a, b) == a,
        b > 0 ==> 0 <= floor_mod(a, b) < b,
        b < 0 ==> b < floor_mod(a, b) <= 0,
{
    if b > 0 {
        let q = a / b;
        vstd::arithmetic::div_mod::lemma_fundamental_div_mod(a, b);
        vstd::arithmetic::div_mod::lemma_mod_bound(a, b);
        assert(q * b == b * q) by (nonlinear_arith);
    } else {
        let q = (-a) / (-b);
        vstd::arithmetic::div_mod::lemma_fundamental_div_mod(-a, -b);
        vstd::arithmetic::div_mod::lemma_mod_bound(-a, -b);
        assert(q * b == -((-b) * q)) by (nonlinear_arith);
    }
}

} // verus!
