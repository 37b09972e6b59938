//! Token counts in compact form.
//!
//! A count is divided by a thousand or a million as a double-precision number and
//! shown to one decimal.

use vstd::prelude::*;

use crate::rounding::{
    decimal_text, law_nearest_is_near, law_rounding_is_off_by_half_at_most, nearest, nearest_of,
    one_decimal, round_even, rounded,
};
use crate::text::{decimal, decimal_of};

verus! {

/// What the integer in a double stays below: it has 53 bits.
pub const DOUBLE: u64 = 0x20_0000_0000_0000;

/// The denominator of the double nearest to `n / unit`: the largest that leaves the
/// numerator within 53 bits, of `m`, `m / 2`, and so on.
pub open spec fn denominator(n: nat, unit: nat, m: nat) -> nat
    decreases m,
{
    if m <= 1 || n * m < unit * DOUBLE as nat {
        m
    } else {
        denominator(n, unit, m / 2)
    }
}

/// The tenths that are shown of `n / unit`.
pub open spec fn tenths(n: nat, unit: nat) -> nat {
    let double = nearest(n, DOUBLE as nat);
    let m = denominator(double, unit, 0x10_0000_0000_0000);
    round_even(10 * round_even(double * m, unit), m)
}

/// A token count in compact form.
pub open spec fn compact(n: nat) -> Seq<char> {
    if n >= 1_000_000 {
        one_decimal(tenths(n, 1_000_000)).push('M')
    } else if n >= 1_000 {
        one_decimal(tenths(n, 1_000)).push('k')
    } else {
        decimal(n)
    }
}

proof fn lemma_scaled(n: nat, m: nat)
    requires
        n <= 0x4_0000_0000_0000_0000,
        m <= 0x10_0000_0000_0000,
    ensures
        n * m <= 0x4000_0000_0000_0000_0000_0000_0000_00,
{
    assert(n * m <= 0x4_0000_0000_0000_0000 * 0x10_0000_0000_0000) by (nonlinear_arith)
        requires
            n <= 0x4_0000_0000_0000_0000,
            m <= 0x10_0000_0000_0000,
    ;
}

fn denominator_of(n: u128, unit: u128, m: u128) -> (r: u128)
    requires
        n <= 0x4_0000_0000_0000_0000,
        unit <= 1_000_000,
        1 <= m <= 0x10_0000_0000_0000,
    ensures
        r == denominator(n as nat, unit as nat, m as nat),
        1 <= r <= m,
    decreases m,
{
    proof {
        lemma_scaled(n as nat, m as nat);
        assert(unit * DOUBLE <= 1_000_000 * 0x20_0000_0000_0000) by (nonlinear_arith)
            requires
                unit <= 1_000_000,
                DOUBLE == 0x20_0000_0000_0000,
        ;
    }
    if m <= 1 || n * m < unit * (DOUBLE as u128) {
        m
    } else {
        denominator_of(n, unit, m / 2)
    }
}

proof fn lemma_tenths_bound(n: nat, unit: nat, m: nat, s: nat)
    requires
        n >= 500,
        unit >= 1000,
        m >= 1,
        s <= (n * m) / unit + 1,
    ensures
        (10 * s) / m <= n,
{
    let p = n * m;
    assert(p >= 500) by (nonlinear_arith)
        requires
            p == n * m,
            n >= 500,
            m >= 1,
    ;
    assert(p / unit <= p / 1000) by (nonlinear_arith)
        requires
            unit >= 1000,
    ;
    assert(10 * s <= p);
    assert((10 * s) / m <= n) by (nonlinear_arith)
        requires
            10 * s <= n * m,
            m >= 1,
    ;
}

fn tenths_of(n: u64, unit: u128) -> (t: u128)
    requires
        1000 <= unit <= 1_000_000,
        n >= unit,
    ensures
        t == tenths(n as nat, unit as nat),
        t / 10 <= u64::MAX,
{
    let double = nearest_of(n, DOUBLE);
    let m = denominator_of(double, unit, 0x10_0000_0000_0000);
    proof {
        lemma_scaled(double as nat, m as nat);
    }
    let s = rounded(double * m, unit);
    proof {
        lemma_tenths_bound(double as nat, unit as nat, m as nat, s as nat);
        assert((double * m) / unit as int <= double * m) by (nonlinear_arith)
            requires
                unit >= 1,
        ;
    }
    rounded(10 * s, m)
}

/// Format a token count in compact form: 1234 → "1.2k", 1234567 → "1.2M".
pub fn fmt_tokens(n: u64) -> (text: String)
    ensures
        text@ == compact(n as nat),
{
    if n >= 1_000_000 {
        let mut text = decimal_text(tenths_of(n, 1_000_000));
        text.push('M');
        text
    } else if n >= 1_000 {
        let mut text = decimal_text(tenths_of(n, 1_000));
        text.push('k');
        text
    } else {
        decimal_of(n)
    }
}

proof fn lemma_denominator_is_large(n: nat, unit: nat, m: nat)
    ensures
        ({
            let d = denominator(n, unit, m);
            &&& d <= m
            &&& d == m || n * (2 * d + 1) >= unit * DOUBLE as nat
        }),
    decreases m,
{
    if m > 1 && n * m >= unit * DOUBLE as nat {
        let half = m / 2;
        lemma_denominator_is_large(n, unit, half);
        assert(n * (2 * half + 1) >= n * m) by (nonlinear_arith)
            requires
                2 * half + 1 >= m,
        ;
    }
}

proof fn lemma_tenths_are_near(n: nat, unit: nat)
    requires
        n < 0x100_0000_0000,
        unit == 1_000 || unit == 1_000_000,
    ensures
        2 * (10 * n - tenths(n, unit) * unit) <= unit,
        2 * (tenths(n, unit) * unit - 10 * n) <= unit,
{
    law_nearest_is_near(n, DOUBLE as nat);
    let full: nat = 0x10_0000_0000_0000;
    let m = denominator(n, unit, full);
    lemma_denominator_is_large(n, unit, full);
    if m != full {
        assert(2 * m + 1 >= unit * 8192) by (nonlinear_arith)
            requires
                n * (2 * m + 1) >= unit * 0x20_0000_0000_0000,
                n < 0x100_0000_0000,
        ;
    }
    assert(m > 10 * unit);
    let q = round_even(n * m, unit);
    law_rounding_is_off_by_half_at_most(n * m, unit);
    let t = round_even(10 * q, m);
    law_rounding_is_off_by_half_at_most(10 * q, m);
    let d = 10 * n - t * unit;
    // Both roundings together are off by half a unit and less than one.
    assert(2 * (d * m) <= unit * m + 10 * unit) by (nonlinear_arith)
        requires
            d == 10 * n - t * unit,
            2 * (n * m - q * unit) <= unit,
            2 * (10 * q - t * m) <= m,
            unit > 0,
            m > 0,
    ;
    assert(2 * (-d * m) <= unit * m + 10 * unit) by (nonlinear_arith)
        requires
            d == 10 * n - t * unit,
            2 * (q * unit - n * m) <= unit,
            2 * (t * m - 10 * q) <= m,
            unit > 0,
            m > 0,
    ;
    assert(2 * d <= unit) by (nonlinear_arith)
        requires
            2 * (d * m) <= unit * m + 10 * unit,
            m > 10 * unit,
    ;
    assert(-2 * d <= unit) by (nonlinear_arith)
        requires
            2 * (-d * m) <= unit * m + 10 * unit,
            m > 10 * unit,
    ;
}

/// A count below a thousand is shown as it is, and a larger one to the nearest tenth of a
/// thousand or of a million.
pub proof fn law_count_is_shown_to_the_nearest_tenth(n: nat)
    requires
        n < 0x100_0000_0000,
    ensures
        n < 1_000 ==> compact(n) == decimal(n),
        1_000 <= n < 1_000_000 ==> exists|t: nat|
            compact(n) == #[trigger] one_decimal(t) + seq!['k'] && 2 * (10 * n - t * 1_000) <= 1_000
                && 2 * (t * 1_000 - 10 * n) <= 1_000,
        n >= 1_000_000 ==> exists|t: nat|
            compact(n) == #[trigger] one_decimal(t) + seq!['M'] && 2 * (10 * n - t * 1_000_000)
                <= 1_000_000 && 2 * (t * 1_000_000 - 10 * n) <= 1_000_000,
{
    if 1_000 <= n < 1_000_000 {
        lemma_tenths_are_near(n, 1_000);
        assert(compact(n) =~= one_decimal(tenths(n, 1_000)) + seq!['k']);
    } else if n >= 1_000_000 {
        lemma_tenths_are_near(n, 1_000_000);
        assert(compact(n) =~= one_decimal(tenths(n, 1_000_000)) + seq!['M']);
    }
}

} // verus!
