//! The law of the tax: sixteen in a hundred, to the cent.

use crate::double::{
    difference, distance, half_even, half_up, hundredth, is_finite, lemma_nearest_at, lemma_parts,
    lemma_powers, magnitude, nearest, negative, of_integer, opposite, product, units, value, whole,
    INFINITY, TWO52, TWO53,
};
use crate::laws::numbers::{
    law_whole_numbers_exact, lemma_doublings, lemma_nearest_not_negative, lemma_sides,
    lemma_units_of,
};
use crate::rules::{iva_of, net_of, HUNDRED, IVA_RATE};
use vstd::arithmetic::div_mod::{
    lemma_fundamental_div_mod, lemma_fundamental_div_mod_converse, lemma_mod_bound,
};
use vstd::arithmetic::power2::{
    lemma2_to64_rest, lemma_pow2_adds, lemma_pow2_pos, lemma_pow2_strictly_increases, pow2,
};
use vstd::prelude::*;

verus! {

/// 2^45: amounts in cents stay below it.
pub const CENTS_LIMIT: u64 = 0x2000_0000_0000;

/// The unit of numbers, 2^-1074, goes into one this many times.
spec fn one() -> int {
    pow2(1074) as int
}

/// A large number of times.
proof fn lemma_one()
    ensures
        one() == 0x80_0000_0000_0000 * pow2(1019),
        pow2(1019) >= 0x1000_0000_0000_0000,
        one() > 0,
        one() >= 0x1000_0000_0000_0000 * 0x80_0000_0000_0000,
{
    lemma_powers();
    lemma_pow2_adds(55, 1019);
    lemma_pow2_adds(3, 52);
    lemma_pow2_adds(1, 2);
    lemma_pow2_adds(1, 1);
    lemma_pow2_strictly_increases(60, 1019);
    assert(pow2(55) == 0x80_0000_0000_0000);
    let a: int = pow2(1019) as int;
    assert(0x80_0000_0000_0000 * a >= 0x80_0000_0000_0000 * 0x1000_0000_0000_0000) by (nonlinear_arith)
        requires
            a >= 0x1000_0000_0000_0000,
    ;
}

// ----- how far rounding goes -----

/// A value is rounded by at most one part in 2^53.
proof fn lemma_rounding(n: int, d: int)
    requires
        0 < d,
        TWO52 * d <= n,
        n < d * pow2(1134),
    ensures
        0 <= nearest(n, d) < INFINITY,
        distance(n - d * units(nearest(n, d))) * TWO53 <= n,
{
    lemma_powers();
    assert(n >= 0) by (nonlinear_arith)
        requires
            TWO52 * d <= n,
            d > 0,
    ;
    let k: nat = lemma_doublings(n, d);
    lemma_pow2_pos(k);
    assert(k < 1100) by {
        if k >= 1100 {
            if k > 1100 {
                lemma_pow2_strictly_increases(1100, k);
            }
            lemma_pow2_adds(52, 1100);
            lemma_pow2_strictly_increases(1134, 1152);
            assert(TWO52 * d * pow2(k) >= d * pow2(1134)) by (nonlinear_arith)
                requires
                    d > 0,
                    pow2(k) >= pow2(1100),
                    TWO52 * pow2(1100) >= pow2(1134),
            ;
        }
    }
    lemma_nearest_at(n, d, k);
    lemma_nearest_not_negative(n, d);
    let g: int = d * pow2(k);
    assert(g > 0) by (nonlinear_arith)
        requires
            g == d * pow2(k),
            d > 0,
            pow2(k) > 0,
    ;
    let q: int = half_even(n, g);
    lemma_fundamental_div_mod(n, g);
    lemma_mod_bound(n, g);
    vstd::arithmetic::div_mod::lemma_div_pos_is_pos(n, g);
    assert(n / g < TWO53) by (nonlinear_arith)
        requires
            n == g * (n / g) + n % g,
            0 <= n % g,
            n < TWO53 * d * pow2(k),
            g == d * pow2(k),
            g > 0,
    ;
    assert(n >= TWO52 * g) by {
        if k == 0 {
            assert(g == d) by (nonlinear_arith)
                requires
                    g == d * pow2(k),
                    pow2(k) == 1,
            ;
        } else {
            assert(TWO52 * d * pow2(k) == TWO52 * g) by (nonlinear_arith)
                requires
                    g == d * pow2(k),
            ;
        }
    }
    assert(n / g >= TWO52) by (nonlinear_arith)
        requires
            n == g * (n / g) + n % g,
            n % g < g,
            n >= TWO52 * g,
            g > 0,
    ;
    assert(k * TWO52 + q < INFINITY) by (nonlinear_arith)
        requires
            k < 1100,
            q <= TWO53,
    ;
    lemma_units_of(k, q);
    assert(d * (q * pow2(k)) == g * q) by (nonlinear_arith)
        requires
            g == d * pow2(k),
    ;
    assert(g * (n / g + 1) == g * (n / g) + g) by (nonlinear_arith);
    let e: int = distance(n - g * q);
    assert(2 * e <= g);
    assert(e * TWO53 <= n) by (nonlinear_arith)
        requires
            2 * e <= g,
            n >= TWO52 * g,
    ;
}

/// A number that is not negative.
spec fn is_amount(x: u64) -> bool {
    is_finite(x) && !negative(x)
}

/// Whether a value lies within `parts` parts in 2^53 of another.
spec fn near(v: int, w: int, parts: int, size: int) -> bool {
    distance(v - w) * TWO53 <= parts * size
}

/// The hundredth part of a whole number is near to it.
proof fn lemma_cents_near(n: int) -> (c: int)
    requires
        1 <= n < CENTS_LIMIT,
    ensures
        is_amount(hundredth(of_integer(n))),
        c == value(hundredth(of_integer(n))),
        near(100 * c, n * one(), 1, n * one()),
        c > 0,
{
    let x = of_integer(n);
    let v: int = n * one();
    law_whole_numbers_exact(n);
    lemma_one();
    lemma_sides(x, n);
    lemma_powers();
    let p: int = one();
    assert(v >= p && v < CENTS_LIMIT * p) by (nonlinear_arith)
        requires
            v == n * p,
            1 <= n < CENTS_LIMIT,
            p > 0,
    ;
    assert(v < 100 * pow2(1134)) by {
        lemma_pow2_adds(60, 1074);
        assert(CENTS_LIMIT * p <= 0x1000_0000_0000_0000 * p) by (nonlinear_arith)
            requires
                p > 0,
        ;
    }
    lemma_rounding(v, 100);
    let c: int = value(hundredth(x));
    lemma_parts(nearest(v, 100));
    assert(c > 0) by {
        if c <= 0 {
            assert(distance(v - 100 * c) >= v);
        }
    }
    assert(distance(v - 100 * c) == distance(100 * c - v));
    c
}

/// What the pattern of a hundred stands for.
proof fn lemma_hundred()
    ensures
        is_amount(HUNDRED),
        value(HUNDRED) == 100 * one(),
{
    lemma2_to64_rest();
    lemma_pow2_adds(46, 1028);
    let a: int = pow2(1028) as int;
    let m: int = HUNDRED as int;
    assert(m / (TWO52 as int) == 1029 && m % (TWO52 as int) == 0x9_0000_0000_0000);
    assert(value(HUNDRED) == 0x19_0000_0000_0000 * a);
    assert(one() == 0x4000_0000_0000 * a);
}

/// What the pattern of the rate stands for.
proof fn lemma_rate()
    ensures
        is_amount(IVA_RATE),
        value(IVA_RATE) == 5764607523034235 * pow2(1019),
{
    let m: int = IVA_RATE as int;
    assert(m / (TWO52 as int) == 1020 && m % (TWO52 as int) == 0x4_7ae1_47ae_147b);
}

/// A product is near to the exact one.
proof fn lemma_product_near(x: u64, y: u64)
    requires
        is_amount(x),
        is_amount(y),
        TWO52 * one() <= value(x) * value(y),
        value(x) * value(y) < one() * pow2(1134),
    ensures
        is_amount(product(x, y)),
        near(one() * value(product(x, y)), value(x) * value(y), 1, value(x) * value(y)),
{
    lemma_one();
    let n: int = value(x) * value(y);
    lemma_rounding(n, one());
    let r: int = units(nearest(n, one()));
    assert(value(product(x, y)) == r);
    assert(distance(n - one() * r) == distance(one() * r - n));
}

/// A hundred times a number is near to its hundredfold.
proof fn lemma_hundredfold(x: u64)
    requires
        is_amount(x),
        one() <= 1000 * value(x),
        value(x) < 0x4_0000_0000_0000 * one(),
    ensures
        is_amount(product(x, HUNDRED)),
        near(value(product(x, HUNDRED)), 100 * value(x), 1, 100 * value(x)),
{
    let p: int = one();
    let v: int = value(x);
    lemma_one();
    lemma_hundred();
    lemma_powers();
    lemma_pow2_adds(60, 1074);
    let n: int = v * (100 * p);
    assert(TWO52 * p <= n) by (nonlinear_arith)
        requires
            n == v * (100 * p),
            v * 1000 >= p,
            p >= 0x1000_0000_0000_0000 * 0x80_0000_0000_0000,
    ;
    assert(n < p * (0x1000_0000_0000_0000 * p)) by (nonlinear_arith)
        requires
            n == v * (100 * p),
            v < 0x4_0000_0000_0000 * p,
            p > 0,
    ;
    lemma_product_near(x, HUNDRED);
    let r: int = value(product(x, HUNDRED));
    let e: int = r - 100 * v;
    assert(p * r - n == p * e) by (nonlinear_arith)
        requires
            n == v * (100 * p),
            e == r - 100 * v,
    ;
    lemma_distance_times(p, e);
    assert(distance(e) * TWO53 <= 100 * v) by (nonlinear_arith)
        requires
            (p * distance(e)) * TWO53 <= n,
            n == v * (100 * p),
            p > 0,
    ;
}

proof fn lemma_distance_times(p: int, e: int)
    requires
        p > 0,
    ensures
        distance(p * e) == p * distance(e),
{
    assert(p * (-e) == -(p * e)) by (nonlinear_arith);
    assert(e < 0 ==> p * e < 0) by (nonlinear_arith)
        requires
            p > 0,
    ;
    assert(e >= 0 ==> p * e >= 0) by (nonlinear_arith)
        requires
            p > 0,
    ;
}

/// A number near to a whole number is rounded to it.
proof fn lemma_rounds_to(x: u64, n: int)
    requires
        is_amount(x),
        0 <= n < TWO53,
        2 * distance(value(x) - n * one()) < one(),
    ensures
        whole(x) == of_integer(n),
{
    let p: int = one();
    let v: int = value(x);
    let r: int = 2 * v + p - n * (2 * p);
    lemma_one();
    lemma_parts(magnitude(x));
    assert(n * (2 * p) == 2 * (n * p)) by (nonlinear_arith);
    assert(0 <= r < 2 * p);
    assert(2 * v + p == n * (2 * p) + r);
    lemma_fundamental_div_mod_converse(2 * v + p, 2 * p, n, r);
    assert(half_up(v, p) == n);
}

/// Some parts in 2^53 of a limited number of cents are a small part of one.
proof fn lemma_small(a: int, parts: int, g: int)
    requires
        0 <= a,
        0 <= parts,
        0 <= g < CENTS_LIMIT,
        a * TWO53 <= parts * (g * one()),
    ensures
        256 * a <= parts * one(),
{
    let p: int = one();
    lemma_one();
    assert(256 * (g * p) <= TWO53 * p) by (nonlinear_arith)
        requires
            0 <= g < CENTS_LIMIT,
            p > 0,
    ;
    assert(256 * (parts * (g * p)) <= parts * (TWO53 * p)) by (nonlinear_arith)
        requires
            256 * (g * p) <= TWO53 * p,
            parts >= 0,
    ;
    assert(parts * (TWO53 * p) == TWO53 * (parts * p)) by (nonlinear_arith);
    assert(TWO53 * (256 * a) <= TWO53 * (parts * p));
}

/// The tax on an amount is near to sixteen hundredths of it.
proof fn lemma_tax_near(g: int, gross: u64)
    requires
        1 <= g < CENTS_LIMIT,
        gross == hundredth(of_integer(g)),
    ensures
        is_amount(product(gross, IVA_RATE)),
        near(10000 * value(product(gross, IVA_RATE)), 16 * (g * one()), 37, g * one()),
{
    let p: int = one();
    let u: int = pow2(1019) as int;
    let q: int = g * p;
    let a: int = lemma_cents_near(g);
    let r: int = value(IVA_RATE);
    let y: int = a * r;
    let z: int = q * p;
    let e: int = 100 * a - q;
    lemma_one();
    lemma_rate();
    lemma_powers();
    lemma_pow2_adds(60, 1074);
    assert(p == 0x80_0000_0000_0000 * u && r == 5764607523034235 * u);
    assert(100 * r == 16 * p + 12 * u) by (nonlinear_arith)
        requires
            p == 0x80_0000_0000_0000 * u,
            r == 5764607523034235 * u,
    ;
    assert(p <= q <= 0x2000_0000_0000 * p) by (nonlinear_arith)
        requires
            q == g * p,
            1 <= g < CENTS_LIMIT,
            p > 0,
    ;
    assert(q <= 200 * a && 100 * a <= 2 * q);
    // the product is neither too small nor too large
    assert(TWO52 * p <= y) by (nonlinear_arith)
        requires
            y == a * r,
            200 * a >= p,
            100 * r >= 16 * p,
            p >= 0x1000_0000_0000_0000 * 0x80_0000_0000_0000,
    ;
    assert(y < p * (0x1000_0000_0000_0000 * p)) by (nonlinear_arith)
        requires
            y == a * r,
            0 < a,
            100 * a <= 2 * (0x2000_0000_0000 * p),
            0 < r,
            100 * r <= 28 * p,
            p > 0,
    ;
    lemma_product_near(gross, IVA_RATE);
    let b: int = value(product(gross, IVA_RATE));
    let x: int = p * b;
    // what the exact product comes to
    assert(10000 * y == (q + e) * (16 * p + 12 * u)) by (nonlinear_arith)
        requires
            y == a * r,
            100 * a == q + e,
            100 * r == 16 * p + 12 * u,
    ;
    let ep: int = e * p;
    let eu: int = e * u;
    let qu: int = q * u;
    assert((q + e) * (16 * p + 12 * u) == 16 * z + 16 * ep + 12 * qu + 12 * eu) by (nonlinear_arith)
        requires
            z == q * p,
            ep == e * p,
            eu == e * u,
            qu == q * u,
    ;
    assert(0x80_0000_0000_0000 * qu == z) by (nonlinear_arith)
        requires
            z == q * p,
            qu == q * u,
            p == 0x80_0000_0000_0000 * u,
    ;
    assert(qu > 0) by (nonlinear_arith)
        requires
            qu == q * u,
            q > 0,
            u > 0,
    ;
    lemma_distance_times(p, e);
    lemma_distance_times(u, e);
    assert(p * e == ep && u * e == eu) by (nonlinear_arith)
        requires
            ep == e * p,
            eu == e * u,
    ;
    assert(distance(ep) * TWO53 <= z) by (nonlinear_arith)
        requires
            distance(ep) == p * distance(e),
            distance(e) * TWO53 <= q,
            z == q * p,
            p > 0,
    ;
    assert(distance(eu) * TWO53 <= qu) by (nonlinear_arith)
        requires
            distance(eu) == u * distance(e),
            distance(e) * TWO53 <= q,
            qu == q * u,
            u > 0,
    ;
    assert(distance(10000 * y - 16 * z) * TWO53 <= 20 * z);
    assert(10000 * y <= 17 * z);
    assert(distance(10000 * x - 16 * z) * TWO53 <= 37 * z);
    // and without the unit
    let f: int = 10000 * b - 16 * q;
    assert(10000 * x - 16 * z == p * f) by (nonlinear_arith)
        requires
            x == p * b,
            z == q * p,
            f == 10000 * b - 16 * q,
    ;
    lemma_distance_times(p, f);
    assert(distance(f) * TWO53 <= 37 * q) by (nonlinear_arith)
        requires
            (p * distance(f)) * TWO53 <= 37 * z,
            z == q * p,
            p > 0,
    ;
}

/// The tax on `g` cents, in cents: sixteen in a hundred, rounded to the nearest.
pub open spec fn tax_cents(g: int) -> int {
    (16 * g + 50) / 100
}

proof fn lemma_tax(g: int, gross: u64)
    requires
        1 <= g < CENTS_LIMIT,
        gross == hundredth(of_integer(g)),
    ensures
        iva_of(gross) == hundredth(of_integer(tax_cents(g))),
{
    let p: int = one();
    let q: int = g * p;
    let k: int = tax_cents(g);
    let t = product(gross, IVA_RATE);
    let b: int = value(t);
    lemma_one();
    lemma_tax_near(g, gross);
    assert(p <= q <= 0x2000_0000_0000 * p) by (nonlinear_arith)
        requires
            q == g * p,
            1 <= g < CENTS_LIMIT,
            p > 0,
    ;
    assert(15 * q <= 10000 * b <= 17 * q);
    lemma_hundredfold(t);
    let c: int = value(product(t, HUNDRED));
    assert(distance(100 * c - 16 * q) * TWO53 <= 54 * q);
    lemma_small(distance(100 * c - 16 * q), 54, g);
    let d: int = 16 * g - 100 * k;
    assert(d == 4 * (4 * g - 25 * k));
    assert(-48 <= d <= 48);
    assert(16 * q - 100 * (k * p) == d * p) by (nonlinear_arith)
        requires
            q == g * p,
            d == 16 * g - 100 * k,
    ;
    assert(-48 * p <= d * p <= 48 * p) by (nonlinear_arith)
        requires
            -48 <= d <= 48,
            p > 0,
    ;
    lemma_rounds_to(product(t, HUNDRED), k);
}

/// The sixteen per cent: an amount of `g` cents holds a tax of sixteen hundredths of it, rounded to
/// the nearest cent, and what is left without it is the rest of the `g` cents.
pub proof fn law_tax(g: int)
    requires
        0 <= g < CENTS_LIMIT,
    ensures
        iva_of(hundredth(of_integer(g))) == hundredth(of_integer(tax_cents(g))),
        net_of(hundredth(of_integer(g))) == hundredth(of_integer(g - tax_cents(g))),
{
    let gross = hundredth(of_integer(g));
    lemma_no_cents();
    if g == 0 {
        lemma_no_tax();
    } else {
        lemma_tax(g, gross);
        lemma_net(g, gross, hundredth(of_integer(tax_cents(g))));
    }
}

/// No cents are zero.
proof fn lemma_no_cents()
    ensures
        of_integer(0) == 0,
        hundredth(0) == 0,
        value(0) == 0,
{
    lemma_one();
    lemma_parts(0);
    assert(0 * pow2(1074) == 0) by (nonlinear_arith);
    crate::double::lemma_half_even_exact(0, 1);
    crate::double::lemma_half_even_exact(0, 100);
}

/// There is no tax on nothing.
proof fn lemma_no_tax()
    ensures
        iva_of(0) == 0,
        net_of(0) == 0,
{
    let p: int = one();
    lemma_one();
    lemma_no_cents();
    lemma_rate();
    lemma_hundred();
    assert(0 * units(magnitude(IVA_RATE)) == 0 && 0 * units(magnitude(HUNDRED)) == 0) by (nonlinear_arith);
    lemma_parts(0);
    crate::double::lemma_half_even_exact(0, p);
    assert(0 * p == 0) by (nonlinear_arith);
    assert(product(0, IVA_RATE) == 0);
    assert(product(0, HUNDRED) == 0);
    assert(0 * one() == 0) by (nonlinear_arith);
    lemma_rounds_to(0, 0);
    assert(whole(0) == 0);
    assert(opposite(0) == crate::double::SIGN);
    assert(difference(0, 0) == 0);
}

proof fn lemma_net(g: int, gross: u64, iva: u64)
    requires
        1 <= g < CENTS_LIMIT,
        gross == hundredth(of_integer(g)),
        iva == hundredth(of_integer(tax_cents(g))),
        iva_of(gross) == iva,
    ensures
        net_of(gross) == hundredth(of_integer(g - tax_cents(g))),
{
    let p: int = one();
    let q: int = g * p;
    let k: int = tax_cents(g);
    let n: int = g - k;
    let kp: int = k * p;
    let np: int = n * p;
    let a: int = lemma_cents_near(g);
    lemma_one();
    lemma_no_cents();
    lemma_powers();
    lemma_pow2_adds(60, 1074);
    assert(0 <= k < g);
    assert(p <= q <= 0x2000_0000_0000 * p) by (nonlinear_arith)
        requires
            q == g * p,
            1 <= g < CENTS_LIMIT,
            p > 0,
    ;
    assert(q == kp + np) by (nonlinear_arith)
        requires
            q == g * p,
            kp == k * p,
            np == n * p,
            n == g - k,
    ;
    assert(np >= p && kp >= 0) by (nonlinear_arith)
        requires
            np == n * p,
            kp == k * p,
            n >= 1,
            k >= 0,
            p > 0,
    ;
    let i: int = value(iva);
    if k > 0 {
        lemma_cents_near(k);
    }
    assert(is_amount(iva) && near(100 * i, kp, 1, kp));
    let s: int = a - i;
    assert(distance(100 * s - np) * TWO53 <= 2 * q);
    lemma_small(distance(100 * s - np), 2, g);
    assert(value(opposite(iva)) == -i);
    assert(is_finite(opposite(iva)));
    assert(0x4000_0000_0000 * p <= 0x1000_0000_0000_0000 * p);
    lemma_rounding(s, 1);
    let x = difference(gross, iva);
    let d: int = value(x);
    assert(d == units(nearest(s, 1)));
    assert(is_amount(x));
    assert(distance(s - d) * TWO53 <= s);
    lemma_hundredfold(x);
    let e: int = value(product(x, HUNDRED));
    assert(distance(e - np) * TWO53 <= 7 * q);
    lemma_small(distance(e - np), 7, g);
    lemma_rounds_to(product(x, HUNDRED), n);
}

} // verus!
