//! Exact integer forms of roundings that double precision makes.

use vstd::prelude::*;

verus! {

/// Two to the power 53: the integers below it are exact in double precision.
pub const EXACT: u128 = 9_007_199_254_740_992;

/// `n / d` rounded to the nearest integer, ties to the even one.
pub open spec fn nearest(n: nat, d: nat) -> nat {
    let q = n / d;
    let r = n % d;
    if 2 * r > d || (2 * r == d && q % 2 == 1) {
        q + 1
    } else {
        q
    }
}

/// The weight of the last of 53 binary digits of `n`.
pub open spec fn last_place(n: nat) -> nat
    decreases n,
{
    if n < EXACT {
        1
    } else {
        2 * last_place(n / 2)
    }
}

/// The double precision number nearest to `n`.
pub open spec fn as_double(n: nat) -> nat {
    nearest(n, last_place(n)) * last_place(n)
}

pub fn round_nearest(n: u128, d: u128) -> (r: u128)
    requires
        d > 0,
        d < 0x4000_0000_0000_0000_0000_0000_0000_0000,
        n < 0x4000_0000_0000_0000_0000_0000_0000_0000,
    ensures
        r == nearest(n as nat, d as nat),
        r <= n / d + 1,
{
    let q: u128 = n / d;
    let rest: u128 = n % d;
    assert(q <= n) by (nonlinear_arith)
        requires
            q == n / d,
            d > 0,
    ;
    if 2 * rest > d || (2 * rest == d && q % 2 == 1) {
        q + 1
    } else {
        q
    }
}

proof fn lemma_last_place(n: nat)
    ensures
        last_place(n) >= 1,
        n >= EXACT ==> last_place(n) * EXACT <= 2 * n,
        last_place(n) <= n + 1,
    decreases n,
{
    if n >= EXACT {
        lemma_last_place(n / 2);
        if n / 2 < EXACT {
            assert(last_place(n / 2) == 1);
        }
    }
}

/// The double precision number nearest to `n`.
pub fn to_double(n: u128) -> (r: u128)
    requires
        n < 0x1_0000_0000_0000_0000_0000_0000_0000,
    ensures
        r == as_double(n as nat),
        r <= 2 * n,
        n < EXACT ==> r == n,
{
    let mut unit: u128 = 1;
    let mut m: u128 = n;
    proof {
        lemma_last_place(n as nat);
    }
    while m >= EXACT
        invariant
            1 <= unit,
            unit * m <= n,
            n < 0x1_0000_0000_0000_0000_0000_0000_0000,
            last_place(n as nat) == unit * last_place(m as nat),
        decreases m,
    {
        assert(2 * unit <= n && (2 * unit) * (m / 2) <= n && unit * (2 * last_place(
            (m / 2) as nat,
        )) == (2 * unit) * last_place((m / 2) as nat)) by (nonlinear_arith)
            requires
                unit * m <= n,
                m >= 2,
                unit >= 1,
        ;
        unit = 2 * unit;
        m = m / 2;
    }
    assert(last_place(m as nat) == 1);
    assert(unit * 1 == unit);
    let q = round_nearest(n, unit);
    proof {
        lemma_nearest_bound(n as nat, unit as nat);
    }
    q * unit
}

proof fn lemma_nearest_bound(n: nat, d: nat)
    requires
        0 < d <= n || d == 1,
    ensures
        nearest(n, d) * d <= 2 * n,
        d == 1 ==> nearest(n, d) == n,
{
    let q = n / d;
    if d > 1 {
        assert(q * d <= n && q >= 1 && (q + 1) * d <= 2 * n) by (nonlinear_arith)
            requires
                q == n / d,
                1 < d <= n,
        ;
    } else {
        assert(n / 1 == n && n % 1 == 0);
    }
}

/// Rounding to double precision changes a number by less than one part in two
/// to the power 53.
pub proof fn lemma_double_is_close(n: nat)
    ensures
        as_double(n) * EXACT <= n * EXACT + n,
        as_double(n) * EXACT >= n * EXACT - n,
{
    let d = last_place(n);
    lemma_last_place(n);
    if n < EXACT {
        assert(n / 1 == n && n % 1 == 0);
        assert(nearest(n, 1) == n);
        assert(n * 1 == n);
    } else {
        let v = nearest(n, d) * d;
        lemma_nearest_is_close(n, d);
        assert(v * EXACT <= n * EXACT + n && v * EXACT >= n * EXACT - n) by (nonlinear_arith)
            requires
                2 * v <= 2 * n + d,
                2 * v >= 2 * n - d,
                d * EXACT <= 2 * n,
        ;
    }
}

/// A rounded quotient is off by at most half.
pub proof fn lemma_nearest_is_close(n: nat, d: nat)
    requires
        d > 0,
    ensures
        2 * (nearest(n, d) * d) <= 2 * n + d,
        2 * (nearest(n, d) * d) >= 2 * n - d,
{
    let q = n / d;
    let r = n % d;
    assert(q * d + r == n && 0 <= r < d) by (nonlinear_arith)
        requires
            q == n / d,
            r == n % d,
            d > 0,
    ;
    assert((q + 1) * d == q * d + d) by (nonlinear_arith);
}

/// Rounding a quotient never goes past the next integer that bounds it.
pub proof fn lemma_nearest_at_most(n: nat, d: nat, bound: nat)
    requires
        d > 0,
        n <= d * bound,
    ensures
        nearest(n, d) <= bound,
{
    let q = n / d;
    let r = n % d;
    assert(q * d + r == n && 0 <= r < d) by (nonlinear_arith)
        requires
            q == n / d,
            r == n % d,
            d > 0,
    ;
    assert(q < bound || (q == bound && r == 0)) by (nonlinear_arith)
        requires
            q * d + r == n,
            0 <= r < d,
            n <= d * bound,
    ;
}

} // verus!
