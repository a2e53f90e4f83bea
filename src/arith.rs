//! Addition, subtraction and division on machine integers.
use vstd::math::abs;
use vstd::prelude::*;

verus! {

/// The error of a division whose divisor is zero.
#[derive(Debug, Clone, Copy, PartialEq, Eq, Structural)]
pub enum DivError {
    DivideByZero,
}

/// Integer division that rounds toward zero, as Rust's `/` does.
pub open spec fn trunc_div(a: int, b: int) -> int {
    let q: int = (abs(a) / abs(b)) as int;
    if (a < 0) == (b < 0) {
        q
    } else {
        -q
    }
}

/// The remainder that goes with `trunc_div`, as Rust's `%` gives it.
pub open spec fn trunc_rem(a: int, b: int) -> int {
    a - trunc_div(a, b) * b
}

/// Divides `a` by `b`, rounding toward zero.
///
/// A zero divisor is refused with `DivideByZero`. The one quotient that does
/// not fit in an `i32`, `i32::MIN / -1`, is ruled out by the precondition.
pub fn div(a: i32, b: i32) -> (r: Result<i32, DivError>)
    requires
        !(a == i32::MIN && b == -1),
    ensures
        match r {
            Ok(q) => b != 0 && q == trunc_div(a as int, b as int),
            Err(e) => b == 0 && e == DivError::DivideByZero,
        },
{
    if b == 0 {
        return Err(DivError::DivideByZero);
    }
    let ma: u32 = if a < 0 { (-(a as i64)) as u32 } else { a as u32 };
    let mb: u32 = if b < 0 { (-(b as i64)) as u32 } else { b as u32 };
    let mq: u32 = ma / mb;
    if mb >= 2 {
        assert(mq <= ma / 2) by (nonlinear_arith)
            requires
                mq == ma / mb,
                mb >= 2,
        ;
    }
    if (a < 0) == (b < 0) {
        Ok(mq as i32)
    } else {
        Ok((-(mq as i64)) as i32)
    }
}

/// Subtracts `b` from `a`.
///
/// The difference must fit in an `i32`.
pub fn sub(a: i32, b: i32) -> (r: i32)
    requires
        i32::MIN <= a - b <= i32::MAX,
    ensures
        r == a - b,
{
    a - b
}

/// Adds `left` and `right`.
///
/// The sum must fit in a `usize`.
pub fn add(left: usize, right: usize) -> (r: usize)
    requires
        left + right <= usize::MAX,
    ensures
        r == left + right,
{
    left + right
}

/// Zero is neutral for addition, and the order of the operands does not
/// change a sum.
pub proof fn lemma_add_laws(n: usize, a: usize, b: usize)
    requires
        a + b <= usize::MAX,
    ensures
        n + 0 == n,
        a + b == b + a,
        b + a <= usize::MAX,
{
}

/// For a nonzero divisor, the quotient times the divisor plus the remainder
/// gives back the dividend, and the remainder is smaller than the divisor in
/// magnitude and takes the sign of the dividend.
pub proof fn lemma_div_rem(a: int, b: int)
    requires
        b != 0,
    ensures
        trunc_div(a, b) * b + trunc_rem(a, b) == a,
        abs(trunc_rem(a, b)) < abs(b),
        a >= 0 ==> trunc_rem(a, b) >= 0,
        a <= 0 ==> trunc_rem(a, b) <= 0,
{
    let ma = abs(a) as int;
    let mb = abs(b) as int;
    let q = ma / mb;
    assert(ma == q * mb + ma % mb && 0 <= ma % mb < mb) by (nonlinear_arith)
        requires
            mb > 0,
            q == ma / mb,
    ;
    assert(trunc_div(a, b) * b == if a < 0 { -(q * mb) } else { q * mb }) by (nonlinear_arith)
        requires
            trunc_div(a, b) == (if (a < 0) == (b < 0) { q } else { -q }),
            mb == (if b < 0 { -b } else { b }),
    ;
}

} // verus!
