//! Laws of the numbers: rounding, whole numbers, and what is left of a stock.

use crate::double::{
    difference, distance, half_even, half_up, hundredth, is_finite, is_nan, lemma_bits,
    lemma_half_even_exact, lemma_nearest_at, lemma_nearest_exact, lemma_nearest_scale,
    lemma_nearest_scaled, lemma_parts, lemma_powers, less, magnitude, nearest, negative, of_integer,
    opposite, product, rounded, same, scale, signed, significand, sum, units, value, whole,
    INFINITY, TWO52, TWO53,
};
use crate::json::{amount, Json, Num};
use vstd::arithmetic::div_mod::{
    lemma_fundamental_div_mod, lemma_fundamental_div_mod_converse, lemma_mod_bound,
};
use vstd::arithmetic::power2::{
    lemma2_to64, lemma_pow2_adds, lemma_pow2_pos, lemma_pow2_strictly_increases, lemma_pow2_unfold,
    pow2,
};
use vstd::prelude::*;

verus! {

/// Addition does not depend on the order of its terms.
pub proof fn law_sum_commutes(a: u64, b: u64)
    ensures
        sum(a, b) == sum(b, a),
{
}

/// The value of a magnitude that is given by its scale and significand.
pub proof fn lemma_units_of(k: nat, q: int)
    requires
        k == 0 || q >= TWO52,
        0 <= q <= TWO53,
        k * TWO52 + q < INFINITY,
    ensures
        units(k * TWO52 + q) == q * pow2(k),
{
    lemma_powers();
    let m: int = k * TWO52 + q;
    if q == TWO53 {
        assert(m == (k + 2) * TWO52 + 0) by (nonlinear_arith)
            requires
                m == k * TWO52 + TWO53,
        ;
        lemma_fundamental_div_mod_converse(m, TWO52 as int, (k + 2) as int, 0);
        lemma_pow2_unfold(k + 1);
        assert(TWO52 * pow2(k + 1) == q * pow2(k)) by (nonlinear_arith)
            requires
                pow2(k + 1) == 2 * pow2(k),
                q == TWO53,
        ;
    } else if q >= TWO52 {
        assert(m == (k + 1) * TWO52 + (q - TWO52)) by (nonlinear_arith)
            requires
                m == k * TWO52 + q,
        ;
        lemma_fundamental_div_mod_converse(m, TWO52 as int, (k + 1) as int, q - TWO52);
    } else {
        assert(q * pow2(0) == q) by (nonlinear_arith)
            requires
                pow2(0) == 1,
        ;
    }
}

/// A larger magnitude has a larger value.
pub proof fn lemma_units_monotone(a: int, b: int)
    requires
        0 <= a <= b < INFINITY,
    ensures
        units(a) <= units(b),
{
    lemma_parts(a);
    lemma_parts(b);
    let ka: nat = scale(a) as nat;
    let kb: nat = scale(b) as nat;
    let qa: int = significand(a);
    let qb: int = significand(b);
    lemma_pow2_pos(ka);
    lemma_pow2_pos(kb);
    lemma_powers();
    if ka == kb {
        assert(qa * pow2(ka) <= qb * pow2(ka)) by (nonlinear_arith)
            requires
                qa <= qb,
                pow2(ka) > 0,
        ;
    } else if ka > kb {
        assert(a >= b + 1) by (nonlinear_arith)
            requires
                a == ka * TWO52 + qa,
                b == kb * TWO52 + qb,
                ka >= kb + 1,
                qa >= TWO52,
                qb < TWO53,
        ;
    } else {
        lemma_pow2_unfold((ka + 1) as nat);
        if ka + 1 < kb {
            lemma_pow2_strictly_increases((ka + 1) as nat, kb);
        }
        assert(qa * pow2(ka) <= qb * pow2(kb)) by (nonlinear_arith)
            requires
                qa < TWO53,
                qb >= TWO52,
                pow2(kb) >= 2 * pow2(ka),
                pow2(ka) > 0,
        ;
    }
}

/// The integer nearest to a quotient is no farther from it than any other.
pub proof fn lemma_half_even_closest(n: int, d: int, c: int)
    requires
        0 <= n,
        0 < d,
    ensures
        distance(n - d * half_even(n, d)) <= distance(n - d * c),
{
    lemma_fundamental_div_mod(n, d);
    lemma_mod_bound(n, d);
    let q: int = n / d;
    let r: int = n % d;
    assert(n - d * q == r);
    assert(d * (q + 1) == d * q + d) by (nonlinear_arith);
    if c <= q {
        assert(d * c <= d * q) by (nonlinear_arith)
            requires
                c <= q,
                d > 0,
        ;
    } else {
        assert(d * c >= d * (q + 1)) by (nonlinear_arith)
            requires
                c >= q + 1,
                d > 0,
        ;
    }
}

/// The magnitude that a value is rounded to is no farther from it than any other magnitude.
pub proof fn law_nearest(n: int, d: int, y: int)
    requires
        0 <= n,
        0 < d,
        nearest(n, d) < INFINITY,
        0 <= y < INFINITY,
    ensures
        distance(n - d * units(nearest(n, d))) <= distance(n - d * units(y)),
{
    lemma_powers();
    let k: nat = lemma_doublings(n, d);
    lemma_nearest_at(n, d, k);
    lemma_pow2_pos(k);
    let g: int = d * pow2(k);
    assert(g > 0) by (nonlinear_arith)
        requires
            g == d * pow2(k),
            d > 0,
            pow2(k) > 0,
    ;
    let q: int = half_even(n, g);
    lemma_fundamental_div_mod(n, g);
    lemma_mod_bound(n, g);
    // the significand is in its bounds
    assert(0 <= n / g) by {
        vstd::arithmetic::div_mod::lemma_div_pos_is_pos(n, g);
    }
    assert(n / g < TWO53) by (nonlinear_arith)
        requires
            n == g * (n / g) + n % g,
            0 <= n % g,
            n < TWO53 * d * pow2(k),
            g == d * pow2(k),
            g > 0,
    ;
    if k > 0 {
        assert(n / g >= TWO52) by (nonlinear_arith)
            requires
                n == g * (n / g) + n % g,
                n % g < g,
                n >= TWO52 * d * pow2(k),
                g == d * pow2(k),
                g > 0,
        ;
    }
    lemma_units_of(k, q);
    assert(d * (q * pow2(k)) == g * q) by (nonlinear_arith)
        requires
            g == d * pow2(k),
    ;
    lemma_parts(y);
    let ky: nat = scale(y) as nat;
    let qy: int = significand(y);
    if ky >= k {
        // the other value lies on the same grid
        let s: nat = (ky - k) as nat;
        lemma_pow2_adds(s, k);
        let c: int = qy * pow2(s);
        assert(d * units(y) == g * c) by (nonlinear_arith)
            requires
                units(y) == qy * pow2(ky),
                pow2(ky) == pow2(s) * pow2(k),
                c == qy * pow2(s),
                g == d * pow2(k),
        ;
        lemma_half_even_closest(n, g, c);
    } else {
        // the other value lies below the start of the grid, which is nearer
        lemma_pow2_unfold((ky + 1) as nat);
        lemma_pow2_pos(ky);
        if ky + 1 < k {
            lemma_pow2_strictly_increases((ky + 1) as nat, k);
        }
        assert(units(y) <= TWO52 * pow2(k)) by (nonlinear_arith)
            requires
                units(y) == qy * pow2(ky),
                qy < TWO53,
                2 * pow2(ky) <= pow2(k),
                pow2(ky) > 0,
        ;
        assert(d * units(y) <= g * TWO52) by (nonlinear_arith)
            requires
                units(y) <= TWO52 * pow2(k),
                g == d * pow2(k),
                d > 0,
        ;
        assert(n >= g * TWO52) by (nonlinear_arith)
            requires
                n >= TWO52 * d * pow2(k),
                g == d * pow2(k),
        ;
        lemma_half_even_closest(n, g, TWO52 as int);
    }
}

/// The number of doublings that bring a value below 2^53.
pub proof fn lemma_doublings(n: int, d: int) -> (k: nat)
    requires
        0 <= n,
        0 < d,
    ensures
        n < TWO53 * d * pow2(k),
        k == 0 || n >= TWO52 * d * pow2(k),
    decreases n - d,
{
    lemma_powers();
    if n < TWO53 * d {
        assert(TWO53 * d * pow2(0) == TWO53 * d) by (nonlinear_arith)
            requires
                pow2(0) == 1,
        ;
        0
    } else {
        let h: nat = lemma_doublings(n, 2 * d);
        lemma_pow2_unfold(h + 1);
        assert(TWO53 * d * pow2(h + 1) == TWO53 * (2 * d) * pow2(h) && TWO52 * d * pow2(h + 1)
            == TWO52 * (2 * d) * pow2(h)) by (nonlinear_arith)
            requires
                pow2(h + 1) == 2 * pow2(h),
        ;
        if h == 0 {
            assert(TWO52 * d * pow2(1) == TWO53 * d) by (nonlinear_arith)
                requires
                    pow2(1) == 2,
            ;
        }
        h + 1
    }
}

/// Whether a number is the whole number `n`.
pub open spec fn is_whole(x: u64, n: int) -> bool {
    is_finite(x) && value(x) == n * pow2(1074)
}

/// A whole number below 2^53 is held exactly.
pub proof fn law_whole_numbers_exact(n: int)
    requires
        -TWO53 < n < TWO53,
    ensures
        is_whole(of_integer(n), n),
        negative(of_integer(n)) == (n < 0),
{
    lemma_powers();
    let a: int = distance(n);
    lemma_pow2_pos(1074);
    if a == 0 {
        assert(0 * pow2(1074) == 0) by (nonlinear_arith);
        lemma_half_even_exact(0, 1);
        lemma_parts(0);
    } else {
        let l: nat = lemma_bits(a);
        assert(l <= 53) by {
            if l > 53 {
                if l - 1 > 53 {
                    lemma_pow2_strictly_increases(53, (l - 1) as nat);
                }
            }
        }
        let k: nat = (l + 1074 - 53) as nat;
        lemma_nearest_scaled(a, 1074, l, k);
        let s: nat = (1074 - k) as nat;
        let q: int = a * pow2(s);
        lemma_pow2_adds(s, k);
        lemma_pow2_adds((l - 1) as nat, s);
        lemma_pow2_pos(s);
        assert(q >= TWO52) by (nonlinear_arith)
            requires
                q == a * pow2(s),
                a >= pow2((l - 1) as nat),
                pow2((l - 1) as nat) * pow2(s) == pow2((l - 1 + s) as nat),
                l - 1 + s == 52,
                pow2(52) == TWO52,
                pow2(s) > 0,
        ;
        assert(k * TWO52 + q < INFINITY) by (nonlinear_arith)
            requires
                k <= 1074,
                q < TWO53,
        ;
        lemma_units_of(k, q);
        assert(q * pow2(k) == a * pow2(1074)) by (nonlinear_arith)
            requires
                q == a * pow2(s),
                pow2(s) * pow2(k) == pow2(1074),
        ;
        assert(n < 0 ==> -(a * pow2(1074)) == n * pow2(1074)) by (nonlinear_arith)
            requires
                a == distance(n),
        ;
    }
}

/// Whole numbers are added exactly, as long as the sum is below 2^53.
pub proof fn law_whole_sum(x: u64, a: int, y: u64, b: int)
    requires
        is_whole(x, a),
        is_whole(y, b),
        -TWO53 < a + b < TWO53,
    ensures
        is_whole(sum(x, y), a + b),
{
    law_whole_numbers_exact(a + b);
    lemma_whole_scaled(a, b);
    lemma_parts(0);
}

/// Whole numbers are subtracted exactly, as long as the difference is below 2^53.
pub proof fn law_whole_difference(x: u64, a: int, y: u64, b: int)
    requires
        is_whole(x, a),
        is_whole(y, b),
        -TWO53 < a - b < TWO53,
    ensures
        is_whole(difference(x, y), a - b),
{
    assert((-b) * pow2(1074) == -(b * pow2(1074))) by (nonlinear_arith);
    law_whole_sum(x, a, opposite(y), -b);
}

/// What a value is rounded to is not negative where the value is not.
pub proof fn lemma_nearest_not_negative(n: int, d: int)
    requires
        0 <= n,
        0 < d,
    ensures
        nearest(n, d) >= 0,
    decreases n - d,
{
    if n < TWO53 * d {
        vstd::arithmetic::div_mod::lemma_div_pos_is_pos(n, d);
    } else {
        lemma_nearest_not_negative(n, 2 * d);
    }
}

/// The magnitude nearest to a whole number of at most 64 bits is finite.
proof fn lemma_integer_finite(n: int)
    requires
        0 <= n <= u64::MAX,
    ensures
        0 <= nearest(n * pow2(1074), 1) < INFINITY,
{
    let top: int = 0x43f0_0000_0000_0000;
    lemma_pow2_pos(1074);
    lemma_powers();
    lemma_nearest_exact(top);
    assert(scale(top) == 1086 && significand(top) == TWO52);
    lemma_pow2_adds(12, 1074);
    lemma2_to64();
    let p: int = pow2(1074) as int;
    assert(units(top) == 0x1_0000_0000_0000_0000 * p) by (nonlinear_arith)
        requires
            units(top) == 0x10_0000_0000_0000 * pow2(1086),
            pow2(1086) == 4096 * p,
    ;
    assert(0 <= n * p <= 0x1_0000_0000_0000_0000 * p) by (nonlinear_arith)
        requires
            0 <= n <= 0x1_0000_0000_0000_0000,
            p > 0,
    ;
    lemma_nearest_monotone(n * p, units(top), 1);
    lemma_nearest_not_negative(n * p, 1);
}

/// A field read as a number is one, and finite.
pub proof fn law_amounts_are_numbers(v: Option<Json>)
    ensures
        is_finite(amount(v)),
        !is_nan(amount(v)),
{
    if let Some(Json::Number(n)) = v {
        match n {
            Num::PosInt(k) => {
                lemma_integer_finite(k as int);
            },
            Num::NegInt(k) => {
                lemma_integer_finite(distance(k as int));
            },
            Num::Float { bits, text } => {},
        }
    }
}

proof fn lemma_whole_scaled(a: int, b: int)
    ensures
        a * pow2(1074) + b * pow2(1074) == (a + b) * pow2(1074),
        distance((a + b) * pow2(1074)) == distance(a + b) * pow2(1074),
        (a + b) * pow2(1074) < 0 <==> a + b < 0,
        (a + b) * pow2(1074) == 0 <==> a + b == 0,
{
    lemma_pow2_pos(1074);
    let p: int = pow2(1074) as int;
    assert(a * p + b * p == (a + b) * p) by (nonlinear_arith);
    let c: int = a + b;
    assert((c * p < 0 <==> c < 0) && (c * p == 0 <==> c == 0)) by (nonlinear_arith)
        requires
            p > 0,
    ;
    assert((-c) * p == -(c * p)) by (nonlinear_arith);
}

/// A whole number is zero exactly where it compares as zero.
pub proof fn lemma_whole_zero(x: u64, n: int)
    requires
        is_whole(x, n),
    ensures
        same(x, 0) <==> n == 0,
{
    lemma_pow2_pos(1074);
    lemma_parts(magnitude(x));
    let p: int = pow2(1074) as int;
    assert(n * p == 0 <==> n == 0) by (nonlinear_arith)
        requires
            p > 0,
    ;
}

/// A larger value is not rounded to a smaller magnitude.
proof fn lemma_nearest_monotone(a: int, b: int, d: int)
    requires
        0 <= a <= b,
        0 < d,
    ensures
        nearest(a, d) <= nearest(b, d),
    decreases b - d,
{
    if b < TWO53 * d {
        lemma_half_even_monotone(a, b, d);
    } else if a < TWO53 * d {
        // one is rounded to at most 2^53 units, the other to no less
        lemma_half_even_bounds(a, d);
        lemma_nearest_large(b, d);
    } else {
        lemma_nearest_monotone(a, b, 2 * d);
    }
}

proof fn lemma_half_even_monotone(a: int, b: int, d: int)
    requires
        0 <= a <= b,
        0 < d,
    ensures
        half_even(a, d) <= half_even(b, d),
{
    lemma_fundamental_div_mod(a, d);
    lemma_fundamental_div_mod(b, d);
    lemma_mod_bound(a, d);
    lemma_mod_bound(b, d);
    let p: int = a / d;
    let q: int = b / d;
    assert(p <= q) by (nonlinear_arith)
        requires
            a <= b,
            a == d * p + a % d,
            b == d * q + b % d,
            0 <= a % d,
            b % d < d,
            d > 0,
    ;
}

proof fn lemma_half_even_bounds(a: int, d: int)
    requires
        0 <= a < TWO53 * d,
        0 < d,
    ensures
        half_even(a, d) <= TWO53,
{
    lemma_fundamental_div_mod(a, d);
    lemma_mod_bound(a, d);
    let q: int = a / d;
    assert(q < TWO53) by (nonlinear_arith)
        requires
            a == d * q + a % d,
            0 <= a % d,
            a < TWO53 * d,
            d > 0,
    ;
}

proof fn lemma_nearest_large(b: int, d: int)
    requires
        TWO52 * d <= b,
        0 < d,
    ensures
        nearest(b, d) >= TWO52,
        b >= TWO53 * d ==> nearest(b, d) >= TWO53,
    decreases b - d,
{
    if b < TWO53 * d {
        lemma_fundamental_div_mod(b, d);
        lemma_mod_bound(b, d);
        let q: int = b / d;
        assert(q >= TWO52) by (nonlinear_arith)
            requires
                b == d * q + b % d,
                b % d < d,
                b >= TWO52 * d,
                d > 0,
        ;
    } else {
        lemma_nearest_large(b, 2 * d);
    }
}

/// Taking away no more than there is leaves a number that is not below zero.
pub proof fn law_nothing_below_zero(a: u64, b: u64)
    requires
        is_finite(a),
        is_finite(b),
        !less(a, b),
    ensures
        !less(difference(a, b), 0),
        !less(b, 0) ==> is_finite(difference(a, b)),
{
    lemma_parts(magnitude(a));
    lemma_parts(magnitude(b));
    assert(value(a) >= value(b)) by {
        if negative(a) == negative(b) {
            if negative(a) {
                lemma_units_monotone(magnitude(a), magnitude(b));
            } else {
                lemma_units_monotone(magnitude(b), magnitude(a));
            }
        }
    }
    assert(value(opposite(b)) == -value(b));
    assert(is_finite(opposite(b)));
    lemma_nearest_not_negative(value(a) - value(b), 1);
    if !less(b, 0) && value(a) != value(b) {
        assert(value(b) >= 0);
        lemma_nearest_monotone(value(a) - value(b), units(magnitude(a)), 1);
        lemma_nearest_exact(magnitude(a));
    }
}

/// Whole numbers are multiplied exactly, as long as the product is below 2^53.
pub proof fn law_whole_product(x: u64, a: int, y: u64, b: int)
    requires
        is_whole(x, a),
        is_whole(y, b),
        -TWO53 < a * b < TWO53,
    ensures
        is_whole(product(x, y), a * b),
{
    let p: int = pow2(1074) as int;
    let n: int = distance(a * b);
    lemma_pow2_pos(1074);
    lemma_parts(magnitude(x));
    lemma_parts(magnitude(y));
    let ux: int = units(magnitude(x));
    let uy: int = units(magnitude(y));
    lemma_sides(x, a);
    lemma_sides(y, b);
    assert(distance(a) * distance(b) == n) by {
        assert(a * b == (-a) * (-b)) by (nonlinear_arith);
        assert(-(a * b) == (-a) * b && -(a * b) == a * (-b)) by (nonlinear_arith);
        assert((a >= 0 && b >= 0) || (a <= 0 && b <= 0) ==> a * b >= 0) by (nonlinear_arith);
        assert((a > 0 && b < 0) || (a < 0 && b > 0) ==> a * b < 0) by (nonlinear_arith);
    }
    assert(ux * uy == (n * p) * p) by (nonlinear_arith)
        requires
            ux == distance(a) * p,
            uy == distance(b) * p,
            distance(a) * distance(b) == n,
    ;
    assert(n * p >= 0) by (nonlinear_arith)
        requires
            n >= 0,
            p > 0,
    ;
    lemma_nearest_scale(n * p, 1, p);
    assert(1 * p == p);
    law_whole_numbers_exact(a * b);
    lemma_parts(0);
    if n == 0 {
        assert(0 * p == 0) by (nonlinear_arith);
        assert((a * b) * p == 0) by (nonlinear_arith)
            requires
                a * b == 0,
        ;
        lemma_half_even_exact(0, 1);
    } else {
        assert((a < 0) != (b < 0) <==> a * b < 0) by (nonlinear_arith)
            requires
                a * b != 0,
        ;
        assert(a != 0 && b != 0) by {
            assert(a == 0 || b == 0 ==> a * b == 0) by (nonlinear_arith);
        }
        assert(product(x, y) == of_integer(a * b));
    }
}

/// The size and the sign of a whole number.
pub proof fn lemma_sides(x: u64, a: int)
    requires
        is_whole(x, a),
    ensures
        units(magnitude(x)) == distance(a) * pow2(1074),
        a != 0 ==> negative(x) == (a < 0),
{
    lemma_pow2_pos(1074);
    lemma_parts(magnitude(x));
    let p: int = pow2(1074) as int;
    assert((a > 0 ==> a * p > 0) && (a < 0 ==> a * p < 0) && (a == 0 ==> a * p == 0)) by (nonlinear_arith)
        requires
            p > 0,
    ;
    assert((-a) * p == -(a * p)) by (nonlinear_arith);
}

// ----- results are the nearest numbers -----

proof fn lemma_signed(minus: bool, m: int)
    requires
        0 <= m,
    ensures
        is_finite(signed(minus, m)) <==> m < INFINITY,
        m < INFINITY ==> value(signed(minus, m)) == (if minus {
            -units(m)
        } else {
            units(m)
        }),
{
}

/// The number that `x / d` is rounded to is no farther from it than any other number.
proof fn lemma_rounded_nearest(minus: bool, x: int, d: int, y: u64)
    requires
        0 <= x,
        0 < d,
        is_finite(rounded(minus, x, d)),
        is_finite(y),
    ensures
        ({
            let exact = if minus {
                -x
            } else {
                x
            };
            distance(exact - d * value(rounded(minus, x, d))) <= distance(exact - d * value(y))
        }),
{
    let m = nearest(x, d);
    lemma_nearest_not_negative(x, d);
    lemma_signed(minus, m);
    law_nearest(x, d, magnitude(y));
    lemma_parts(magnitude(y));
    lemma_parts(m);
    let u: int = units(magnitude(y));
    let v: int = units(m);
    assert(d * (-v) == -(d * v) && d * (-u) == -(d * u)) by (nonlinear_arith);
    assert(d * u >= 0) by (nonlinear_arith)
        requires
            u >= 0,
            d > 0,
    ;
}

/// No number is nearer to the exact sum of two numbers than what they add up to.
pub proof fn law_sum_is_nearest(a: u64, b: u64, y: u64)
    requires
        is_finite(a),
        is_finite(b),
        is_finite(y),
        is_finite(sum(a, b)),
    ensures
        distance(value(a) + value(b) - value(sum(a, b))) <= distance(value(a) + value(b) - value(y)),
{
    let exact = value(a) + value(b);
    if exact != 0 {
        lemma_rounded_nearest(exact < 0, distance(exact), 1, y);
    } else {
        lemma_parts(0);
        lemma_signed(negative(a) && negative(b), 0);
    }
}

/// The opposite of a number has its value the other way round, so that to take a number off is to
/// add its opposite.
pub proof fn law_opposite(a: u64, b: u64)
    ensures
        is_finite(a) ==> is_finite(opposite(a)) && value(opposite(a)) == -value(a),
        negative(opposite(a)) == !negative(a),
        opposite(opposite(a)) == a,
        difference(a, b) == sum(a, opposite(b)),
{
}

/// No number is nearer to the exact product of two numbers than what they are multiplied to.
pub proof fn law_product_is_nearest(a: u64, b: u64, y: u64)
    requires
        is_finite(a),
        is_finite(b),
        is_finite(y),
        is_finite(product(a, b)),
    ensures
        distance(value(a) * value(b) - pow2(1074) * value(product(a, b))) <= distance(
            value(a) * value(b) - pow2(1074) * value(y),
        ),
{
    lemma_pow2_pos(1074);
    lemma_parts(magnitude(a));
    lemma_parts(magnitude(b));
    let u: int = units(magnitude(a));
    let v: int = units(magnitude(b));
    assert(u * v >= 0) by (nonlinear_arith)
        requires
            u >= 0,
            v >= 0,
    ;
    assert((-u) * v == -(u * v) && u * (-v) == -(u * v) && (-u) * (-v) == u * v) by (nonlinear_arith);
    lemma_rounded_nearest(negative(a) != negative(b), u * v, pow2(1074) as int, y);
}

/// No number is nearer to the exact hundredth of a number than what it is divided to.
pub proof fn law_hundredth_is_nearest(a: u64, y: u64)
    requires
        is_finite(a),
        is_finite(y),
        is_finite(hundredth(a)),
    ensures
        distance(value(a) - 100 * value(hundredth(a))) <= distance(value(a) - 100 * value(y)),
{
    lemma_parts(magnitude(a));
    lemma_rounded_nearest(negative(a), units(magnitude(a)), 100, y);
}

/// No number is nearer to an integer than the one that stands for it.
pub proof fn law_integer_is_nearest(n: int, y: u64)
    requires
        is_finite(of_integer(n)),
        is_finite(y),
    ensures
        distance(n * pow2(1074) - value(of_integer(n))) <= distance(n * pow2(1074) - value(y)),
{
    let p: int = pow2(1074) as int;
    lemma_pow2_pos(1074);
    let x: int = distance(n) * p;
    assert(x >= 0 && (n < 0 ==> n * p == -x)) by (nonlinear_arith)
        requires
            x == distance(n) * p,
            n < 0 ==> distance(n) == -n,
            distance(n) >= 0,
            p > 0,
    ;
    lemma_rounded_nearest(n < 0, x, 1, y);
}

/// A number is rounded to a whole number at most one half away, and a half goes away from zero.
pub proof fn law_whole_is_nearest(a: u64)
    requires
        is_finite(a),
        units(magnitude(a)) < (TWO53 - 1) * pow2(1074),
    ensures
        exists|n: int|
            {
                &&& #[trigger] is_whole(whole(a), n)
                &&& 2 * distance(n * pow2(1074) - value(a)) <= pow2(1074)
                &&& 2 * distance(n * pow2(1074) - value(a)) == pow2(1074) ==> distance(
                    n * pow2(1074),
                ) > distance(value(a))
            },
{
    let p: int = pow2(1074) as int;
    let u: int = units(magnitude(a));
    lemma_pow2_pos(1074);
    lemma_parts(magnitude(a));
    let k: int = half_up(u, p);
    lemma_fundamental_div_mod(2 * u + p, 2 * p);
    lemma_mod_bound(2 * u + p, 2 * p);
    let r: int = (2 * u + p) % (2 * p);
    assert(2 * (k * p) == 2 * u + p - r) by (nonlinear_arith)
        requires
            2 * u + p == (2 * p) * k + r,
    ;
    assert(k >= 0) by (nonlinear_arith)
        requires
            2 * (k * p) == 2 * u + p - r,
            r < 2 * p,
            u >= 0,
            p > 0,
    ;
    assert(k < TWO53) by (nonlinear_arith)
        requires
            2 * (k * p) == 2 * u + p - r,
            r >= 0,
            u < (TWO53 - 1) * p,
            p > 0,
    ;
    law_whole_numbers_exact(k);
    law_whole_numbers_exact(-k);
    assert((-k) * p == -(k * p)) by (nonlinear_arith);
    lemma_nearest_not_negative(k * p, 1);
    lemma_signed(false, nearest(k * p, 1));
    lemma_signed(true, nearest(k * p, 1));
    let n: int = if negative(a) {
        -k
    } else {
        k
    };
    assert(k * p >= 0) by (nonlinear_arith)
        requires
            k >= 0,
            p > 0,
    ;
    assert(whole(a) == signed(negative(a), nearest(k * p, 1)));
    assert(of_integer(k) == signed(false, nearest(k * p, 1)));
    assert(is_whole(whole(a), n));
}

/// Numbers are compared by their values.
pub proof fn law_order(a: u64, b: u64)
    requires
        is_finite(a),
        is_finite(b),
    ensures
        less(a, b) <==> value(a) < value(b),
        same(a, b) <==> value(a) == value(b),
{
    lemma_parts(magnitude(a));
    lemma_parts(magnitude(b));
    if magnitude(a) <= magnitude(b) {
        lemma_units_monotone(magnitude(a), magnitude(b));
    } else {
        lemma_units_monotone(magnitude(b), magnitude(a));
    }
    if units(magnitude(a)) == units(magnitude(b)) {
        lemma_units_apart(magnitude(a), magnitude(b));
    }
}

/// Different magnitudes have different values.
proof fn lemma_units_apart(a: int, b: int)
    requires
        0 <= a < INFINITY,
        0 <= b < INFINITY,
        units(a) == units(b),
    ensures
        a == b,
{
    lemma_nearest_exact(a);
    lemma_nearest_exact(b);
}

} // verus!
