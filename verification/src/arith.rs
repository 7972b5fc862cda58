//! Integer arithmetic as `i32` does it: powers, and division that rounds
//! toward zero.

use vstd::prelude::*;

verus! {

/// `b` to the power `e`.
pub open spec fn int_pow(b: int, e: nat) -> int
    decreases e,
{
    if e == 0 { 1 } else { b * int_pow(b, (e - 1) as nat) }
}

/// Division that rounds toward zero, as `i32` division does.
pub open spec fn div_trunc(a: int, b: int) -> int {
    let q = (if a < 0 { -a } else { a }) / (if b < 0 { -b } else { b });
    if (a < 0) == (b < 0) { q } else { -q }
}

/// The remainder of [`div_trunc`]; it has the sign of `a`.
pub open spec fn rem_trunc(a: int, b: int) -> int {
    a - b * div_trunc(a, b)
}

/// The exponent that `n as u32` gives.
pub open spec fn as_u32(n: i32) -> nat {
    if n >= 0 { n as nat } else { (n + 4294967296) as nat }
}

proof fn lemma_pow_unit(b: int, e: nat)
    ensures
        b == 0 && e > 0 ==> int_pow(b, e) == 0,
        b == 1 ==> int_pow(b, e) == 1,
        b == -1 ==> int_pow(b, e) == (if e % 2 == 0 { 1int } else { -1int }),
    decreases e,
{
    if e > 0 {
        lemma_pow_unit(b, (e - 1) as nat);
    }
}

/// The magnitude of an integer.
pub open spec fn magnitude(x: int) -> int {
    if x < 0 { -x } else { x }
}

proof fn lemma_pow_grows(b: int, i: nat, e: nat)
    requires
        b >= 2 || b <= -2,
        i < e,
    ensures
        magnitude(int_pow(b, e)) >= 2 * magnitude(int_pow(b, i)),
    decreases e,
{
    let x = int_pow(b, (e - 1) as nat);
    let y = b * x;
    assert(magnitude(y) >= 2 * magnitude(x)) by (nonlinear_arith)
        requires
            b >= 2 || b <= -2,
            y == b * x,
    ;
    if i < e - 1 {
        lemma_pow_grows(b, i, (e - 1) as nat);
    }
}

/// `b` to the power `e`, as `i32::pow` computes it; `None` where that
/// overflows.
pub fn pow_i32(b: i32, e: u32) -> (r: Option<i32>)
    ensures
        r == (if i32::MIN <= int_pow(b as int, e as nat) <= i32::MAX {
            Some(int_pow(b as int, e as nat) as i32)
        } else {
            None::<i32>
        }),
{
    proof {
        lemma_pow_unit(b as int, e as nat);
    }
    if e == 0 {
        return Some(1);
    }
    if b == 0 || b == 1 {
        return Some(b);
    }
    if b == -1 {
        return if e % 2 == 0 { Some(1) } else { Some(-1) };
    }
    let mut acc: i64 = 1;
    let mut i: u32 = 0;
    while i < e
        invariant
            b >= 2 || b <= -2,
            i <= e,
            acc == int_pow(b as int, i as nat),
            i32::MIN <= acc <= i32::MAX,
        decreases e - i,
    {
        assert(-4611686018427387904 <= (b as int) * (acc as int) <= 4611686018427387904) by (nonlinear_arith)
            requires
                -2147483648 <= acc <= 2147483647,
                -2147483648 <= b <= 2147483647,
        ;
        let next: i64 = (b as i64) * acc;
        assert(next == int_pow(b as int, (i + 1) as nat));
        if next < i32::MIN as i64 || next > i32::MAX as i64 {
            proof {
                if i + 1 < e {
                    lemma_pow_grows(b as int, (i + 1) as nat, e as nat);
                }
            }
            return None;
        }
        acc = next;
        i = i + 1;
    }
    Some(acc as i32)
}

/// `a / b` for `i32`, rounding toward zero.
pub fn div_i32(a: i32, b: i32) -> (q: i32)
    requires
        b != 0,
        !(a == i32::MIN && b == -1),
    ensures
        q == div_trunc(a as int, b as int),
{
    let ua: u64 = if a < 0 { (-(a as i64)) as u64 } else { a as u64 };
    let ub: u64 = if b < 0 { (-(b as i64)) as u64 } else { b as u64 };
    let uq: u64 = ua / ub;
    assert(uq <= ua) by (nonlinear_arith)
        requires
            ub >= 1,
            uq == ua / ub,
    ;
    assert(uq < ua || ua == 0 || ub == 1) by (nonlinear_arith)
        requires
            ub >= 1,
            uq == ua / ub,
    ;
    let q: i64 = if (a < 0) == (b < 0) { uq as i64 } else { -(uq as i64) };
    q as i32
}

/// The remainder of `a / b` for `i32`; it has the sign of `a`.
pub fn rem_i32(a: i32, b: i32) -> (r: i32)
    requires
        b != 0,
        !(a == i32::MIN && b == -1),
    ensures
        r == rem_trunc(a as int, b as int),
{
    let q = div_i32(a, b);
    let ghost ua: int = if a < 0 { -a } else { a as int };
    let ghost ub: int = if b < 0 { -b } else { b as int };
    let ghost uq: int = ua / ub;
    assert(0 <= ua - ub * uq < ub) by (nonlinear_arith)
        requires
            ub >= 1,
            ua >= 0,
            uq == ua / ub,
    ;
    assert(ub * uq <= ua) by (nonlinear_arith)
        requires
            ub >= 1,
            ua >= 0,
            uq == ua / ub,
    ;
    assert(q == (if (a < 0) == (b < 0) { uq } else { -uq }));
    assert(-2147483648 <= (b as int) * (q as int) <= 2147483648) by (nonlinear_arith)
        requires
            ub * uq <= ua,
            ua <= 2147483648,
            uq >= 0,
            ub == (if b < 0 { -b } else { b as int }),
            q == (if (a < 0) == (b < 0) { uq } else { -uq }),
    ;
    let m: i64 = (b as i64) * (q as i64);
    assert(m == b * div_trunc(a as int, b as int));
    assert(-2147483648 <= a - m <= 2147483647) by (nonlinear_arith)
        requires
            0 <= ua - ub * uq < ub,
            ub <= 2147483648,
            ua == (if a < 0 { -a } else { a as int }),
            ub == (if b < 0 { -b } else { b as int }),
            m == b * (if (a < 0) == (b < 0) { uq } else { -uq }),
    ;
    ((a as i64) - m) as i32
}


/// Division that rounds toward zero, characterised without its formula:
/// for `b != 0`, `q = div_trunc(a, b)` and `r = rem_trunc(a, b)` satisfy
/// `a == b * q + r`, with `|r| < |b|` and `r` zero or of the sign of `a`.
/// These conditions fix `q`: it is the quotient rounded toward zero.
pub proof fn law_div_trunc(a: int, b: int)
    requires
        b != 0,
    ensures
        a == b * div_trunc(a, b) + rem_trunc(a, b),
        magnitude(rem_trunc(a, b)) < magnitude(b),
        rem_trunc(a, b) == 0 || (rem_trunc(a, b) < 0) == (a < 0),
        magnitude(b) * magnitude(div_trunc(a, b)) <= magnitude(a),
{
    let ua = magnitude(a);
    let ub = magnitude(b);
    let uq = ua / ub;
    assert(0 <= ua - ub * uq < ub) by (nonlinear_arith)
        requires
            ub >= 1,
            ua >= 0,
            uq == ua / ub,
    ;
    assert(uq >= 0) by (nonlinear_arith)
        requires
            ub >= 1,
            ua >= 0,
            uq == ua / ub,
    ;
    let q = div_trunc(a, b);
    assert(q == (if (a < 0) == (b < 0) { uq } else { -uq }));
    assert(b * q == (if a < 0 { -(ub * uq) } else { ub * uq })) by (nonlinear_arith)
        requires
            ub == (if b < 0 { -b } else { b }),
            q == (if (a < 0) == (b < 0) { uq } else { -uq }),
    ;
    assert(magnitude(q) == uq);
}

/// For `i32` operands where `/` does not overflow, the quotient and the
/// remainder that round toward zero fit in an `i32`.
pub proof fn lemma_i32_division_fits(a: i32, b: i32)
    requires
        b != 0,
        !(a == i32::MIN && b == -1),
    ensures
        i32::MIN <= div_trunc(a as int, b as int) <= i32::MAX,
        i32::MIN <= rem_trunc(a as int, b as int) <= i32::MAX,
{
    law_div_trunc(a as int, b as int);
    let q = div_trunc(a as int, b as int);
    let ua = magnitude(a as int);
    let ub = magnitude(b as int);
    let uq = magnitude(q);
    if ub >= 2 {
        assert(uq <= 1073741824) by (nonlinear_arith)
            requires
                ub * uq <= ua,
                ub >= 2,
                ua <= 2147483648,
                uq >= 0,
        ;
    } else {
        assert(ub == 1);
        assert(rem_trunc(a as int, b as int) == 0);
        if b == 1 {
            assert(q == a);
        } else {
            assert(b == -1);
            assert(q == -a);
        }
    }
}

} // verus!
