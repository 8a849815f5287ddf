//! Rounding to 24 significant binary digits, the precision of the
//! single-precision arithmetic in which the blend transform is defined.
//! Quantities are counted in whole numbers of a unit small enough that
//! no value that occurs has digits behind the point.

use vstd::prelude::*;

verus! {

/// The first number with 25 binary digits.
pub const DIGITS_25: u128 = 0x100_0000;

/// The weight of the last of the 24 leading binary digits of `n`: one
/// where `n` has no more than 24 digits, and doubled for each digit more.
pub open spec fn unit_of(n: nat) -> nat
    decreases n,
{
    if n < 0x100_0000 {
        1
    } else {
        2 * unit_of(n / 2)
    }
}

/// The quotient `num / den` rounded to 24 significant binary digits: the
/// nearest multiple of the weight of its 24th digit, and of two that are
/// equally near the even one.
pub open spec fn rounded24(num: nat, den: nat) -> nat
    recommends
        den > 0,
{
    let unit = unit_of(num / den);
    let step = den * unit;
    let low = num / step;
    let rest = num % step;
    if 2 * rest > step || (2 * rest == step && low % 2 == 1) {
        (low + 1) * unit
    } else {
        low * unit
    }
}

/// The weight of the 24th digit of a number is at least one and, but for
/// zero, no more than the number.
pub proof fn lemma_unit_of(n: nat)
    ensures
        1 <= unit_of(n),
        n >= 1 ==> unit_of(n) <= n,
    decreases n,
{
    if n >= 0x100_0000 {
        lemma_unit_of(n / 2);
    }
}

/// The weight of the last of the 24 leading binary digits of `n`.
pub fn unit_weight(n: u128) -> (unit: u128)
    ensures
        unit == unit_of(n as nat),
{
    let mut left: u128 = n;
    let mut unit: u128 = 1;
    while left >= DIGITS_25
        invariant
            unit_of(n as nat) == unit * unit_of(left as nat),
            unit * left <= n,
            unit >= 1,
        decreases left,
    {
        proof {
            let half = (left / 2) as nat;
            assert(unit_of(left as nat) == 2 * unit_of(half));
            assert(unit * (2 * unit_of(half)) == (2 * unit) * unit_of(half)) by (nonlinear_arith);
            assert((2 * unit) * (left / 2) <= unit * left) by (nonlinear_arith)
                requires
                    unit >= 1,
                    left >= 2,
            ;
            assert(2 * unit <= (2 * unit) * (left / 2)) by (nonlinear_arith)
                requires
                    unit >= 1,
                    left / 2 >= 1,
            ;
        }
        left = left / 2;
        unit = unit * 2;
    }
    assert(unit * 1 == unit) by (nonlinear_arith);
    unit
}

/// The quotient `num / den` rounded to 24 significant binary digits.
pub fn round24(num: u128, den: u128) -> (out: u128)
    requires
        0 < den <= 0xffff_ffff_ffff_ffff,
        num <= 0xffff_ffff_ffff_ffff,
    ensures
        out == rounded24(num as nat, den as nat),
        out <= 2 * (num / den) + 1,
{
    let whole = num / den;
    let unit = unit_weight(whole);
    proof {
        lemma_unit_of(whole as nat);
        assert(den * whole <= num) by (nonlinear_arith)
            requires
                whole == num / den,
                den > 0,
        ;
        if whole >= 1 {
            assert(den * unit <= den * whole) by (nonlinear_arith)
                requires
                    unit <= whole,
                    den > 0,
            ;
        } else {
            assert(den * unit == den) by (nonlinear_arith)
                requires
                    unit == 1,
            ;
        }
        assert(den * unit >= 1) by (nonlinear_arith)
            requires
                den >= 1,
                unit >= 1,
        ;
    }
    let step = den * unit;
    let low = num / step;
    let rest = num % step;
    proof {
        assert(low * step <= num) by (nonlinear_arith)
            requires
                low == num / step,
                step > 0,
        ;
        assert(low * unit <= whole) by (nonlinear_arith)
            requires
                low * step <= num,
                step == den * unit,
                whole == num / den,
                den > 0,
                unit >= 1,
                low >= 0,
        ;
        assert((low + 1) * unit == low * unit + unit) by (nonlinear_arith);
    }
    if 2 * rest > step || (2 * rest == step && low % 2 == 1) {
        (low + 1) * unit
    } else {
        low * unit
    }
}

} // verus!
