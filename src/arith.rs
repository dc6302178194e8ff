use vstd::arithmetic::div_mod::{
    lemma_fundamental_div_mod, lemma_hoist_over_denominator, lemma_mod_multiples_vanish,
};
use vstd::arithmetic::mul::lemma_mul_inequality;
use vstd::prelude::*;

verus! {

/// `x * num / den` rounded down, for a fraction `num / den` of at most one
/// whose denominator is at most a hundred.
pub fn mul_div_floor(x: u128, num: u128, den: u128) -> (r: u128)
    requires
        0 < den <= 100,
        num <= den,
    ensures
        r as int == x as int * num as int / den as int,
        r <= x,
{
    let q = x / den;
    let m = x % den;
    proof {
        lemma_fundamental_div_mod(x as int, den as int);
        lemma_mul_inequality(q as int, q as int, num as int);
        lemma_mul_inequality(num as int, den as int, q as int);
        lemma_mul_inequality(m as int, den as int - 1, num as int);
        lemma_mul_inequality(num as int, den as int, den as int - 1);
        assert(q as int * num as int <= q as int * den as int) by (nonlinear_arith)
            requires
                num <= den,
                q >= 0,
        ;
        assert(den as int * q as int == q as int * den as int) by (nonlinear_arith);
        assert(m as int * num as int <= (den as int - 1) * den as int) by (nonlinear_arith)
            requires
                m < den,
                num <= den,
                m >= 0,
        ;
        assert((den as int - 1) * den as int <= 9900) by (nonlinear_arith)
            requires
                den <= 100,
                den > 0,
        ;
    }
    let a = q * num;
    let b = m * num / den;
    proof {
        lemma_hoist_over_denominator(m as int * num as int, q as int * num as int, den as nat);
        assert(x as int * num as int == m as int * num as int + (q as int * num as int) * den as int)
            by (nonlinear_arith)
            requires
                x as int == den as int * q as int + m as int,
        ;
        assert(m as int * num as int / den as int <= m as int) by (nonlinear_arith)
            requires
                num <= den,
                0 < den,
                m >= 0,
        ;
    }
    a + b
}

/// `x * num / den` rounded to the nearest integer, an exact half rounded
/// down, for a fraction `num / den` of at most one whose denominator is at
/// most a hundred.
pub fn mul_div_nearest(x: u128, num: u128, den: u128) -> (r: u128)
    requires
        0 < den <= 100,
        num <= den,
    ensures
        r as int == x as int * num as int / den as int + (if (x as int * num as int) % den as int
            > den as int / 2 {
            1int
        } else {
            0int
        }),
        r <= x,
{
    let base = mul_div_floor(x, num, den);
    let m = x % den;
    proof {
        assert(m as int * num as int <= 9900) by (nonlinear_arith)
            requires
                m < den,
                den <= 100,
                num <= den,
        ;
    }
    let frac = (m * num) % den;
    proof {
        let q = x as int / den as int;
        lemma_fundamental_div_mod(x as int, den as int);
        assert(x as int * num as int == den as int * (q * num as int) + m as int * num as int)
            by (nonlinear_arith)
            requires
                x as int == den as int * q + m as int,
        ;
        lemma_mod_multiples_vanish(q * num as int, m as int * num as int, den as int);
        assert(m as int * num as int <= 9900) by (nonlinear_arith)
            requires
                m < den,
                den <= 100,
                num <= den,
        ;
    }
    if frac > den / 2 {
        proof {
            lemma_nearest_within(x as nat, num as nat, den as nat);
        }
        base + 1
    } else {
        base
    }
}

/// `x * num / den` rounded to the nearest integer, an exact half rounded
/// down, is at most `x` where the fraction is at most one.
pub proof fn lemma_nearest_within(x: nat, num: nat, den: nat)
    requires
        0 < den,
        num <= den,
    ensures
        x * num / den + (if (x * num) % den > den / 2 {
            1int
        } else {
            0int
        }) <= x,
{
    assert(x * num <= x * den) by (nonlinear_arith)
        requires
            num <= den,
    ;
    vstd::arithmetic::div_mod::lemma_div_is_ordered((x * num) as int, (x * den) as int, den as int);
    vstd::arithmetic::div_mod::lemma_div_multiples_vanish(x as int, den as int);
    assert(den * x == x * den) by (nonlinear_arith);
    if (x * num) % den > den / 2 {
        if num == den {
            assert(x * num == den * x) by (nonlinear_arith)
                requires
                    num == den,
            ;
            lemma_mod_multiples_vanish(x as int, 0, den as int);
        }
        if x == 0 {
            assert(x * num == 0) by (nonlinear_arith)
                requires
                    x == 0,
            ;
        }
        assert(x * num <= x * den - x) by (nonlinear_arith)
            requires
                num < den,
                x > 0,
        ;
        assert((x * num / den) < x) by (nonlinear_arith)
            requires
                x * num <= x * den - x,
                x > 0,
                den > 0,
        ;
    }
}

/// `a * b`, held at the largest `u128`.
pub fn saturating_mul(a: u128, b: u128) -> (r: u128)
    ensures
        r as int == if a as int * b as int > u128::MAX {
            u128::MAX as int
        } else {
            a as int * b as int
        },
{
    if b == 0 {
        return 0;
    }
    proof {
        lemma_product_bound(a, b);
    }
    if a > u128::MAX / b {
        u128::MAX
    } else {
        a * b
    }
}

/// `a` exceeds `u128::MAX / b` exactly when `a * b` exceeds `u128::MAX`.
pub proof fn lemma_product_bound(a: u128, b: u128)
    requires
        b > 0,
    ensures
        (a > u128::MAX / b) <==> (a as int * b as int > u128::MAX),
{
    let q = u128::MAX as int / b as int;
    lemma_fundamental_div_mod(u128::MAX as int, b as int);
    assert((u128::MAX as int % b as int) < b as int);
    if a > u128::MAX / b {
        lemma_mul_inequality(q + 1, a as int, b as int);
        assert((q + 1) * b as int == q * b as int + b as int) by (nonlinear_arith);
        assert(b as int * q == q * b as int) by (nonlinear_arith);
    } else {
        lemma_mul_inequality(a as int, q, b as int);
        assert(b as int * q == q * b as int) by (nonlinear_arith);
    }
}

} // verus!
