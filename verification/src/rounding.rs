//! Rounding to the nearest, as floating-point numbers do it, in whole numbers.
//!
//! A floating-point number is an integer of so many bits over a power of two. What a
//! number is rounded to, and what is shown of it in decimals, is the nearest that
//! there is, and of two that are as near the even one.

use vstd::prelude::*;

use crate::text::{decimal, decimal_of, digit, law_digits_stand_for_their_number, number_of};

verus! {

/// `p / q` rounded to the nearest integer, ties to the even one.
pub open spec fn round_even(p: nat, q: nat) -> nat {
    let down = p / q;
    let rest = p % q;
    if 2 * rest < q || (2 * rest == q && down % 2 == 0) {
        down
    } else {
        down + 1
    }
}

/// The distance between two numbers next to `n` that are integers below `limit`, a
/// power of two, times a power of two.
pub open spec fn spacing(n: nat, limit: nat) -> nat
    decreases n,
{
    if n < limit || n == 0 {
        1
    } else {
        2 * spacing(n / 2, limit)
    }
}

/// The nearest to `n` of the integers below `limit` times powers of two.
pub open spec fn nearest(n: nat, limit: nat) -> nat {
    round_even(n, spacing(n, limit)) * spacing(n, limit)
}

pub open spec fn one_decimal(tenths: nat) -> Seq<char> {
    decimal(tenths / 10) + seq!['.', digit(tenths % 10)]
}

pub fn rounded(p: u128, q: u128) -> (r: u128)
    requires
        0 < q,
        p < 0x1000_0000_0000_0000_0000_0000_0000_0000,
        q < 0x1000_0000_0000_0000_0000_0000_0000_0000,
    ensures
        r == round_even(p as nat, q as nat),
        r <= p / q + 1,
{
    let down = p / q;
    let rest = p % q;
    assert(down <= p) by (nonlinear_arith)
        requires
            down == p / q,
            q >= 1,
    ;
    if 2 * rest < q || (2 * rest == q && down % 2 == 0) {
        down
    } else {
        down + 1
    }
}

proof fn lemma_spacing(n: nat, limit: nat)
    requires
        limit >= 2,
    ensures
        1 <= spacing(n, limit) <= n + 1,
        n >= limit ==> spacing(n, limit) <= n,
    decreases n,
{
    if n >= limit {
        lemma_spacing(n / 2, limit);
    }
}

fn spacing_of(n: u64, limit: u64) -> (u: u128)
    requires
        limit >= 2,
    ensures
        u == spacing(n as nat, limit as nat),
        1 <= u <= n + 1,
    decreases n,
{
    proof {
        lemma_spacing(n as nat, limit as nat);
    }
    if n < limit {
        1
    } else {
        2 * spacing_of(n / 2, limit)
    }
}

proof fn lemma_nearest_bound(n: nat, u: nat, q: nat)
    requires
        1 <= u <= n + 1,
        q <= n / u + 1,
    ensures
        q * u <= 2 * n + 1,
{
    assert(q * u <= (n / u + 1) * u) by (nonlinear_arith)
        requires
            q <= n / u + 1,
            u >= 0,
    ;
    assert((n / u + 1) * u <= n + u) by (nonlinear_arith)
        requires
            u >= 1,
    ;
}

/// The nearest to `n` of the integers below `limit` times powers of two.
pub fn nearest_of(n: u64, limit: u64) -> (r: u128)
    requires
        limit >= 2,
    ensures
        r == nearest(n as nat, limit as nat),
        r <= 2 * n + 1,
        n <= 2 * r,
        n < limit ==> r == n,
{
    let u = spacing_of(n, limit);
    let q = rounded(n as u128, u);
    proof {
        lemma_nearest_bound(n as nat, u as nat, q as nat);
        lemma_nearest_at_least(n as nat, limit as nat);
    }
    q * u
}

proof fn lemma_nearest_at_least(n: nat, limit: nat)
    requires
        limit >= 2,
    ensures
        n <= 2 * nearest(n, limit),
        n < limit ==> nearest(n, limit) == n,
{
    let u = spacing(n, limit);
    lemma_spacing(n, limit);
    if n < limit {
        assert(n / 1 == n && n % 1 == 0);
        assert(round_even(n, u) == n);
        assert(n * u == n) by (nonlinear_arith)
            requires
                u == 1,
        ;
    } else {
        let down = n / u;
        assert(down * u + n % u == n && n % u < u) by (nonlinear_arith)
            requires
                u >= 1,
                down == n / u,
        ;
        assert(down >= 1) by (nonlinear_arith)
            requires
                down == n / u,
                1 <= u <= n,
        ;
        let q = round_even(n, u);
        assert(q * u >= down * u) by (nonlinear_arith)
            requires
                q >= down,
                u >= 0,
        ;
        assert(2 * (down * u) >= down * u + u) by (nonlinear_arith)
            requires
                down >= 1,
        ;
    }
}

/// A number of tenths with one decimal.
pub fn decimal_text(t: u128) -> (text: String)
    requires
        t / 10 <= u64::MAX,
    ensures
        text@ == one_decimal(t as nat),
{
    let mut text = decimal_of((t / 10) as u64);
    let last = decimal_of((t % 10) as u64);
    proof {
        reveal_strlit(".");
        assert(decimal((t % 10) as nat) =~= seq![digit((t % 10) as nat)]);
    }
    text.append(".");
    text.append(last.as_str());
    assert(text@ =~= one_decimal(t as nat));
    text
}

/// A quotient that is rounded is off by half at most, and exact where it can be.
pub proof fn law_rounding_is_off_by_half_at_most(p: nat, q: nat)
    requires
        q > 0,
    ensures
        2 * (round_even(p, q) * q - p) <= q,
        2 * (p - round_even(p, q) * q) <= q,
        2 * (p - (p / q) * q) == q ==> round_even(p, q) % 2 == 0,
{
    let down = p / q;
    let rest = p % q;
    assert(p == down * q + rest && 0 <= rest < q) by (nonlinear_arith)
        requires
            down == p / q,
            rest == p % q,
            q > 0,
    ;
    assert((down + 1) * q == down * q + q) by (nonlinear_arith);
}

/// Tenths are shown with one digit behind the point.
pub proof fn law_one_decimal_shows_its_tenths(tenths: nat)
    ensures
        ({
            let text = one_decimal(tenths);
            let n = text.len() as int;
            &&& n >= 3
            &&& text[n - 2] == '.'
            &&& number_of(text.take(n - 2) + seq![text[n - 1]]) == tenths
        }),
{
    let text = one_decimal(tenths);
    let n = text.len() as int;
    law_digits_stand_for_their_number(tenths / 10);
    law_digits_stand_for_their_number(tenths % 10);
    let whole = decimal(tenths / 10);
    assert(text.take(n - 2) =~= whole);
    let all = whole + seq![text[n - 1]];
    assert(all.drop_last() =~= whole);
    assert(text[n - 1] == digit(tenths % 10));
    assert(decimal(tenths % 10) =~= seq![digit(tenths % 10)]);
    reveal_with_fuel(number_of, 2);
    assert(decimal(tenths % 10).drop_last() =~= Seq::empty());
    assert(tenths == 10 * (tenths / 10) + tenths % 10);
}

/// A number below the limit is its own nearest one; a larger one is off from it by no
/// more than one part in as many as the limit.
pub proof fn law_nearest_is_near(n: nat, limit: nat)
    requires
        limit >= 2,
    ensures
        n < limit ==> nearest(n, limit) == n,
        n >= limit ==> (nearest(n, limit) - n) * limit <= n && (n - nearest(n, limit)) * limit <= n,
{
    lemma_nearest_at_least(n, limit);
    if n >= limit {
        let u = spacing(n, limit);
        lemma_spacing(n, limit);
        lemma_spacing_is_small(n, limit);
        law_rounding_is_off_by_half_at_most(n, u);
        let r = nearest(n, limit);
        assert((r - n) * limit <= n) by (nonlinear_arith)
            requires
                2 * (r - n) <= u,
                u * limit <= 2 * n,
                limit >= 2,
        ;
        assert((n - r) * limit <= n) by (nonlinear_arith)
            requires
                2 * (n - r) <= u,
                u * limit <= 2 * n,
                limit >= 2,
        ;
    }
}

proof fn lemma_spacing_is_small(n: nat, limit: nat)
    requires
        limit >= 2,
        n >= limit,
    ensures
        spacing(n, limit) * limit <= 2 * n,
    decreases n,
{
    let half = spacing(n / 2, limit);
    if n / 2 >= limit {
        lemma_spacing_is_small(n / 2, limit);
        assert(spacing(n, limit) == 2 * half);
        assert((2 * half) * limit == 2 * (half * limit)) by (nonlinear_arith);
        assert(half * limit <= 2 * (n / 2) <= n);
    } else {
        assert(half == 1);
        assert(spacing(n, limit) == 2);
    }
}

} // verus!
