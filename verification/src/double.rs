//! Double precision numbers, held as their bit patterns.
//!
//! Amounts and quantities are IEEE 754 binary64 numbers. Here such a number is the `u64` with its
//! bits, and each operation is computed with integers. What an operation returns is stated over
//! exact integers: a finite pattern stands for a multiple of 2^-1074, and the result of an
//! operation is the exact result rounded to the nearest pattern, a tie going to the even one.

use vstd::arithmetic::div_mod::{
    lemma_fundamental_div_mod, lemma_fundamental_div_mod_converse, lemma_mod_bound,
};
use vstd::arithmetic::power2::{
    lemma2_to64, lemma2_to64_rest, lemma_pow2_adds, lemma_pow2_pos, lemma_pow2_strictly_increases,
    lemma_pow2_unfold, pow2,
};
use vstd::prelude::*;

verus! {

/// 2^52: the step from one exponent to the next in a bit pattern.
pub const TWO52: u64 = 0x10_0000_0000_0000;

/// 2^53: significands stay below it.
pub const TWO53: u64 = 0x20_0000_0000_0000;

/// The pattern of positive infinity; finite magnitudes stay below it.
pub const INFINITY: u64 = 0x7ff0_0000_0000_0000;

/// The bit that makes a pattern negative.
pub const SIGN: u64 = 0x8000_0000_0000_0000;

/// The pattern given for every result that is not a number.
pub const NOT_A_NUMBER: u64 = 0x7ff8_0000_0000_0000;

/// Whether the sign of `b` is minus.
pub open spec fn negative(b: u64) -> bool {
    b >= SIGN
}

/// The pattern of `b` without its sign.
pub open spec fn magnitude(b: u64) -> int {
    if negative(b) {
        b - SIGN
    } else {
        b as int
    }
}

/// Whether `b` is not a number.
pub open spec fn is_nan(b: u64) -> bool {
    magnitude(b) > INFINITY
}

/// Whether `b` is one of the two infinities.
pub open spec fn is_infinite(b: u64) -> bool {
    magnitude(b) == INFINITY
}

/// Whether `b` is a finite number.
pub open spec fn is_finite(b: u64) -> bool {
    magnitude(b) < INFINITY
}

/// The significand of a finite magnitude.
pub open spec fn significand(m: int) -> int {
    if m < TWO52 {
        m
    } else {
        TWO52 + m % (TWO52 as int)
    }
}

/// The power of two by which the significand of a finite magnitude is scaled.
pub open spec fn scale(m: int) -> int {
    if m < TWO52 {
        0
    } else {
        m / (TWO52 as int) - 1
    }
}

/// The value of a finite magnitude, in multiples of 2^-1074.
pub open spec fn units(m: int) -> int {
    significand(m) * pow2(scale(m) as nat)
}

/// The value of a finite number, in multiples of 2^-1074.
pub open spec fn value(b: u64) -> int {
    if negative(b) {
        -units(magnitude(b))
    } else {
        units(magnitude(b))
    }
}

/// `n / d` rounded to the nearest integer, a tie going to the even one.
pub open spec fn half_even(n: int, d: int) -> int {
    if 2 * (n % d) < d || (2 * (n % d) == d && (n / d) % 2 == 0) {
        n / d
    } else {
        n / d + 1
    }
}

/// The magnitude nearest to `n / d` multiples of 2^-1074, were exponents unbounded: `n / d` is
/// rounded to an integer once the unit is coarse enough for it to have at most 53 bits, and each
/// doubling of the unit is one step of the exponent.
pub open spec fn nearest(n: int, d: int) -> int
    decreases n - d,
{
    if d <= 0 || n < TWO53 * d {
        half_even(n, d)
    } else {
        TWO52 + nearest(n, 2 * d)
    }
}

/// The pattern with the given sign and magnitude; too large a magnitude is infinite.
pub open spec fn signed(minus: bool, m: int) -> u64 {
    let bounded = if m >= INFINITY {
        INFINITY as int
    } else {
        m
    };
    if minus {
        (SIGN + bounded) as u64
    } else {
        bounded as u64
    }
}

/// `x / d` multiples of 2^-1074, rounded to a number.
pub open spec fn rounded(minus: bool, x: int, d: int) -> u64 {
    signed(minus, nearest(x, d))
}

/// The absolute value of an integer.
pub open spec fn distance(x: int) -> int {
    if x < 0 {
        -x
    } else {
        x
    }
}

/// `-a`.
pub open spec fn opposite(a: u64) -> u64 {
    if negative(a) {
        (a - SIGN) as u64
    } else {
        (a + SIGN) as u64
    }
}

/// `a + b`: the exact sum, rounded. A sum of zero is negative only where both terms are.
pub open spec fn sum(a: u64, b: u64) -> u64 {
    if is_nan(a) || is_nan(b) || (is_infinite(a) && is_infinite(b) && negative(a) != negative(b)) {
        NOT_A_NUMBER
    } else if is_infinite(a) {
        a
    } else if is_infinite(b) {
        b
    } else {
        let exact = value(a) + value(b);
        if exact == 0 {
            signed(negative(a) && negative(b), 0)
        } else {
            rounded(exact < 0, distance(exact), 1)
        }
    }
}

/// `a - b`.
pub open spec fn difference(a: u64, b: u64) -> u64 {
    sum(a, opposite(b))
}

/// `a * b`: the exact product, rounded.
pub open spec fn product(a: u64, b: u64) -> u64 {
    let minus = negative(a) != negative(b);
    if is_nan(a) || is_nan(b) {
        NOT_A_NUMBER
    } else if is_infinite(a) || is_infinite(b) {
        if magnitude(a) == 0 || magnitude(b) == 0 {
            NOT_A_NUMBER
        } else {
            signed(minus, INFINITY as int)
        }
    } else {
        rounded(minus, units(magnitude(a)) * units(magnitude(b)), pow2(1074) as int)
    }
}

/// `a / 100`: the exact quotient, rounded.
pub open spec fn hundredth(a: u64) -> u64 {
    if is_nan(a) {
        NOT_A_NUMBER
    } else if is_infinite(a) {
        a
    } else {
        rounded(negative(a), units(magnitude(a)), 100)
    }
}

/// The integer nearest to `x / d`, a tie going away from zero.
pub open spec fn half_up(x: int, d: int) -> int {
    (2 * x + d) / (2 * d)
}

/// `a` rounded to a whole number, a tie going away from zero.
pub open spec fn whole(a: u64) -> u64 {
    if is_nan(a) {
        NOT_A_NUMBER
    } else if is_infinite(a) {
        a
    } else {
        rounded(
            negative(a),
            half_up(units(magnitude(a)), pow2(1074) as int) * pow2(1074),
            1,
        )
    }
}

/// The number nearest to the integer `n`.
pub open spec fn of_integer(n: int) -> u64 {
    rounded(n < 0, distance(n) * pow2(1074), 1)
}

/// The place of a number on the number line; both zeros have the same.
pub open spec fn rank(a: u64) -> int {
    if negative(a) {
        -magnitude(a)
    } else {
        magnitude(a)
    }
}

/// `a < b`.
pub open spec fn less(a: u64, b: u64) -> bool {
    !is_nan(a) && !is_nan(b) && rank(a) < rank(b)
}

/// `a == b`.
pub open spec fn same(a: u64, b: u64) -> bool {
    !is_nan(a) && !is_nan(b) && rank(a) == rank(b)
}

// ----- lemmas on rounding -----

/// The powers of two that occur below.
pub proof fn lemma_powers()
    ensures
        pow2(0) == 1,
        pow2(1) == 2,
        pow2(52) == TWO52,
        pow2(53) == TWO53,
        pow2(60) == 0x1000_0000_0000_0000,
        pow2(61) == 0x2000_0000_0000_0000,
        pow2(63) == SIGN,
{
    lemma2_to64();
    lemma2_to64_rest();
}

pub proof fn lemma_half_even_exact(c: int, d: int)
    requires
        0 <= c,
        0 < d,
    ensures
        half_even(c * d, d) == c,
{
    lemma_fundamental_div_mod_converse(c * d, d, c, 0);
}

/// Less than half a unit away from an integer, the integer is the result.
proof fn lemma_half_even_near(c: int, e: int, d: int)
    requires
        0 <= c,
        0 < d,
        -d < 2 * e < d,
        0 <= c * d + e,
    ensures
        half_even(c * d + e, d) == c,
{
    if e >= 0 {
        lemma_fundamental_div_mod_converse(c * d + e, d, c, e);
    } else {
        assert((c - 1) * d + (d + e) == c * d + e) by (nonlinear_arith);
        lemma_fundamental_div_mod_converse(c * d + e, d, c - 1, d + e);
    }
}

proof fn lemma_half_even_scale(n: int, d: int, c: int)
    requires
        0 <= n,
        0 < d,
        0 < c,
    ensures
        half_even(n * c, d * c) == half_even(n, d),
{
    lemma_fundamental_div_mod(n, d);
    lemma_mod_bound(n, d);
    let q: int = n / d;
    let r: int = n % d;
    assert(n * c == q * (d * c) + r * c) by (nonlinear_arith)
        requires
            n == d * q + r,
    ;
    assert(0 <= r * c < d * c) by (nonlinear_arith)
        requires
            0 <= r < d,
            0 < c,
    ;
    lemma_fundamental_div_mod_converse(n * c, d * c, q, r * c);
    assert(2 * (r * c) < d * c <==> 2 * r < d) by (nonlinear_arith)
        requires
            0 < c,
    ;
    assert(2 * (r * c) == d * c <==> 2 * r == d) by (nonlinear_arith)
        requires
            0 < c,
    ;
}

pub proof fn lemma_nearest_scale(n: int, d: int, c: int)
    requires
        0 <= n,
        0 < d,
        0 < c,
    ensures
        nearest(n * c, d * c) == nearest(n, d),
    decreases n - d,
{
    assert(d * c > 0) by (nonlinear_arith)
        requires
            0 < d,
            0 < c,
    ;
    assert(n * c < TWO53 * (d * c) <==> n < TWO53 * d) by (nonlinear_arith)
        requires
            0 < c,
    ;
    if n < TWO53 * d {
        lemma_half_even_scale(n, d, c);
    } else {
        assert((2 * d) * c == 2 * (d * c)) by (nonlinear_arith);
        lemma_nearest_scale(n, 2 * d, c);
    }
}

/// The number of doublings, once known, gives the result in one step.
pub proof fn lemma_nearest_at(n: int, d: int, k: nat)
    requires
        0 <= n,
        0 < d,
        n < TWO53 * d * pow2(k),
        k == 0 || n >= TWO52 * d * pow2(k),
    ensures
        nearest(n, d) == k * TWO52 + half_even(n, d * pow2(k)),
    decreases k,
{
    lemma_powers();
    if k > 0 {
        lemma_pow2_unfold(k);
        let half: int = pow2((k - 1) as nat) as int;
        lemma_pow2_pos((k - 1) as nat);
        assert(TWO52 * d * pow2(k) == TWO53 * d * half) by (nonlinear_arith)
            requires
                pow2(k) == 2 * half,
        ;
        assert(TWO53 * d * half >= TWO53 * d) by (nonlinear_arith)
            requires
                half >= 1,
                d > 0,
        ;
        assert(TWO53 * (2 * d) * half == TWO53 * d * pow2(k)) by (nonlinear_arith)
            requires
                pow2(k) == 2 * half,
        ;
        assert(TWO52 * (2 * d) * half == TWO53 * d * half) by (nonlinear_arith);
        if k > 1 {
            lemma_pow2_unfold((k - 1) as nat);
        }
        lemma_nearest_at(n, 2 * d, (k - 1) as nat);
        assert((2 * d) * half == d * pow2(k)) by (nonlinear_arith)
            requires
                pow2(k) == 2 * half,
        ;
        assert((k - 1) * TWO52 + TWO52 == k * TWO52) by (nonlinear_arith);
    } else {
        assert(TWO53 * d * pow2(0) == TWO53 * d) by (nonlinear_arith)
            requires
                pow2(0) == 1,
        ;
    }
}

/// A value of the form `n * 2^t`, as the arguments of `nearest`.
pub open spec fn nearest_scaled(n: int, t: int) -> int {
    if t >= 0 {
        nearest(n * pow2(t as nat), 1)
    } else {
        nearest(n, pow2((-t) as nat) as int)
    }
}

proof fn lemma_nearest_zero(t: int)
    ensures
        nearest_scaled(0, t) == 0,
{
    if t >= 0 {
        lemma_half_even_exact(0, 1);
    } else {
        lemma_pow2_pos((-t) as nat);
        lemma_half_even_exact(0, pow2((-t) as nat) as int);
    }
}

/// What `round_scaled` computes: `n` has `l` bits, and the unit is doubled `k` times.
pub proof fn lemma_nearest_scaled(n: int, t: int, l: nat, k: nat)
    requires
        0 < n < pow2(l),
        l >= 1,
        n >= pow2((l - 1) as nat),
        k == if l + t > 53 {
            l + t - 53
        } else {
            0
        },
    ensures
        k >= t ==> nearest_scaled(n, t) == k * TWO52 + half_even(n, pow2((k - t) as nat) as int),
        k <= t ==> nearest_scaled(n, t) == k * TWO52 + n * pow2((t - k) as nat),
        k <= t ==> n * pow2((t - k) as nat) < TWO53,
{
    lemma_powers();
    if t >= 0 {
        let tt: nat = t as nat;
        let big: int = n * pow2(tt);
        lemma_pow2_pos(tt);
        lemma_pow2_pos(k);
        assert(big >= 0) by (nonlinear_arith)
            requires
                big == n * pow2(tt),
                n > 0,
        ;
        // the bounds that fix the number of doublings
        lemma_pow2_adds(l, tt);
        assert(big < pow2(l + tt)) by (nonlinear_arith)
            requires
                big == n * pow2(tt),
                n < pow2(l),
                pow2(tt) > 0,
                pow2(l) * pow2(tt) == pow2(l + tt),
        ;
        lemma_pow2_adds(53, k);
        if l + tt < 53 + k {
            lemma_pow2_strictly_increases(l + tt, 53 + k);
        }
        assert(TWO53 * 1int * pow2(k) == pow2(53 + k)) by (nonlinear_arith)
            requires
                pow2(53) == TWO53,
                pow2(53) * pow2(k) == pow2(53 + k),
        ;
        if k > 0 {
            lemma_pow2_adds((l - 1) as nat, tt);
            lemma_pow2_adds(52, k);
            assert(big >= pow2((l - 1 + tt) as nat)) by (nonlinear_arith)
                requires
                    big == n * pow2(tt),
                    n >= pow2((l - 1) as nat),
                    pow2(tt) > 0,
                    pow2((l - 1) as nat) * pow2(tt) == pow2((l - 1 + tt) as nat),
            ;
            assert(TWO52 * 1int * pow2(k) == pow2(52 + k)) by (nonlinear_arith)
                requires
                    pow2(52) == TWO52,
                    pow2(52) * pow2(k) == pow2(52 + k),
            ;
        }
        lemma_nearest_at(big, 1, k);
        if k >= t {
            let s: nat = (k - t) as nat;
            lemma_pow2_adds(s, tt);
            lemma_pow2_pos(s);
            lemma_half_even_scale(n, pow2(s) as int, pow2(tt) as int);
            assert(1 * pow2(k) == pow2(s) * pow2(tt));
        }
        if k <= t {
            let s: nat = (t - k) as nat;
            lemma_pow2_adds(s, k);
            lemma_pow2_pos(s);
            let q: int = n * pow2(s);
            assert(big == q * pow2(k)) by (nonlinear_arith)
                requires
                    big == n * pow2(tt),
                    pow2(tt) == pow2(s) * pow2(k),
                    q == n * pow2(s),
            ;
            assert(q >= 0) by (nonlinear_arith)
                requires
                    q == n * pow2(s),
                    n > 0,
            ;
            lemma_half_even_exact(q, pow2(k) as int);
            assert(q < TWO53) by (nonlinear_arith)
                requires
                    q * pow2(k) < TWO53 * pow2(k),
                    pow2(k) > 0,
            ;
        }
    } else {
        let tt: nat = (-t) as nat;
        let d: int = pow2(tt) as int;
        lemma_pow2_pos(tt);
        lemma_pow2_pos(k);
        lemma_pow2_adds(53, k);
        lemma_pow2_adds(tt, 53 + k);
        assert(TWO53 * d * pow2(k) == pow2(tt + 53 + k)) by (nonlinear_arith)
            requires
                pow2(53) == TWO53,
                pow2(53) * pow2(k) == pow2(53 + k),
                d * pow2(53 + k) == pow2(tt + 53 + k),
        ;
        if l < tt + 53 + k {
            lemma_pow2_strictly_increases(l, tt + 53 + k);
        }
        if k > 0 {
            lemma_pow2_adds(52, k);
            lemma_pow2_adds(tt, 52 + k);
            assert(TWO52 * d * pow2(k) == pow2(tt + 52 + k)) by (nonlinear_arith)
                requires
                    pow2(52) == TWO52,
                    pow2(52) * pow2(k) == pow2(52 + k),
                    d * pow2(52 + k) == pow2(tt + 52 + k),
            ;
        }
        lemma_nearest_at(n, d, k);
        lemma_pow2_adds(tt, k);
    }
}

/// 2^e.
fn power(e: u32) -> (p: u128)
    requires
        e <= 126,
    ensures
        p == pow2(e as nat),
{
    let mut p: u128 = 1;
    let mut i: u32 = 0;
    proof {
        lemma_powers();
    }
    while i < e
        invariant
            i <= e <= 126,
            p == pow2(i as nat),
        decreases e - i,
    {
        proof {
            lemma_pow2_unfold((i + 1) as nat);
            lemma_pow2_strictly_increases(i as nat, 126);
            lemma_pow2_adds(63, 63);
            lemma_powers();
            assert(pow2(63) * pow2(63) < 0x8000_0000_0000_0000_0000_0000_0000_0000) by (nonlinear_arith)
                requires
                    pow2(63) == 0x8000_0000_0000_0000,
            ;
        }
        p = p * 2;
        i = i + 1;
    }
    p
}

/// The number of bits of `n`.
fn bits(n: u128) -> (l: u32)
    requires
        0 < n < 0x100_0000_0000_0000_0000_0000_0000_0000,
    ensures
        1 <= l <= 120,
        pow2((l - 1) as nat) <= n < pow2(l as nat),
{
    let mut p: u128 = 1;
    let mut l: u32 = 0;
    proof {
        lemma_powers();
        lemma_pow2_adds(60, 60);
        assert(pow2(60) * pow2(60) == 0x100_0000_0000_0000_0000_0000_0000_0000) by (nonlinear_arith)
            requires
                pow2(60) == 0x1000_0000_0000_0000,
        ;
    }
    while p <= n
        invariant
            l <= 120,
            p == pow2(l as nat),
            l >= 1 ==> pow2((l - 1) as nat) <= n,
            l == 0 ==> p == 1,
            0 < n < pow2(120),
            pow2(120) == 0x100_0000_0000_0000_0000_0000_0000_0000,
        decreases 120 - l,
    {
        proof {
            if l == 120 {
                assert(false);
            }
            lemma_pow2_strictly_increases(l as nat, 120);
            lemma_pow2_unfold((l + 1) as nat);
        }
        p = p * 2;
        l = l + 1;
    }
    l
}

/// The pattern with the given sign and magnitude.
fn with_sign(minus: bool, m: u128) -> (b: u64)
    ensures
        b == signed(minus, m as int),
{
    let bounded: u64 = if m >= INFINITY as u128 {
        INFINITY
    } else {
        m as u64
    };
    if minus {
        SIGN + bounded
    } else {
        bounded
    }
}

/// `n * 2^t` multiples of 2^-1074, rounded to a number.
fn round_scaled(minus: bool, n: u128, t: i32) -> (b: u64)
    requires
        n < 0x100_0000_0000_0000_0000_0000_0000_0000,
        -10000 <= t <= 10000,
    ensures
        b == signed(minus, nearest_scaled(n as int, t as int)),
{
    if n == 0 {
        proof {
            lemma_nearest_zero(t as int);
        }
        return with_sign(minus, 0);
    }
    let l: u32 = bits(n);
    let k: i32 = if l as i32 + t > 53 {
        l as i32 + t - 53
    } else {
        0
    };
    proof {
        lemma_nearest_scaled(n as int, t as int, l as nat, k as nat);
    }
    let s: i32 = k - t;
    let q: u128 = if s <= 0 {
        proof {
            lemma_pow2_pos((t - k) as nat);
            if t - k > 53 {
                lemma_pow2_strictly_increases(53, (t - k) as nat);
                lemma_powers();
                assert(n * pow2((t - k) as nat) >= pow2((t - k) as nat)) by (nonlinear_arith)
                    requires
                        n >= 1,
                        pow2((t - k) as nat) >= 0,
                ;
            }
        }
        n * power((-s) as u32)
    } else if s > 121 {
        proof {
            lemma_pow2_strictly_increases(l as nat, 121);
            lemma_pow2_strictly_increases(121, s as nat);
            lemma_pow2_unfold(s as nat);
            if s > 122 {
                lemma_pow2_strictly_increases(121, (s - 1) as nat);
            }
            lemma_half_even_near(0, n as int, pow2(s as nat) as int);
        }
        0
    } else {
        let d: u128 = power(s as u32);
        proof {
            lemma_pow2_pos(s as nat);
            lemma_pow2_strictly_increases(s as nat, 122);
            lemma_pow2_adds(61, 61);
            lemma_powers();
            assert(pow2(61) * pow2(61) == 0x400_0000_0000_0000_0000_0000_0000_0000) by (nonlinear_arith)
                requires
                    pow2(61) == 0x2000_0000_0000_0000,
            ;
            lemma_mod_bound(n as int, d as int);
            lemma_fundamental_div_mod(n as int, d as int);
        }
        let q: u128 = n / d;
        let r: u128 = n % d;
        if 2 * r < d || (2 * r == d && q % 2 == 0) {
            q
        } else {
            q + 1
        }
    };
    with_sign(minus, (k as u128) * (TWO52 as u128) + q)
}

/// The parts of a finite magnitude.
pub proof fn lemma_parts(m: int)
    requires
        0 <= m < INFINITY,
    ensures
        0 <= significand(m) < TWO53,
        0 <= scale(m) <= 2045,
        scale(m) > 0 ==> significand(m) >= TWO52,
        m == scale(m) * TWO52 + significand(m),
        units(m) >= 0,
        units(m) == 0 <==> m == 0,
{
    lemma_fundamental_div_mod(m, TWO52 as int);
    lemma_mod_bound(m, TWO52 as int);
    lemma_pow2_pos(scale(m) as nat);
    assert(units(m) >= 0 && (units(m) == 0 <==> significand(m) == 0)) by (nonlinear_arith)
        requires
            units(m) == significand(m) * pow2(scale(m) as nat),
            pow2(scale(m) as nat) > 0,
            significand(m) >= 0,
    ;
}

/// A number is its own nearest number.
pub proof fn lemma_nearest_exact(m: int)
    requires
        0 <= m < INFINITY,
    ensures
        nearest(units(m), 1) == m,
{
    lemma_parts(m);
    lemma_powers();
    let k: nat = scale(m) as nat;
    let n: int = units(m);
    lemma_pow2_pos(k);
    assert(n < TWO53 * 1int * pow2(k)) by (nonlinear_arith)
        requires
            n == significand(m) * pow2(k),
            significand(m) < TWO53,
            pow2(k) > 0,
    ;
    if k > 0 {
        assert(n >= TWO52 * 1int * pow2(k)) by (nonlinear_arith)
            requires
                n == significand(m) * pow2(k),
                significand(m) >= TWO52,
                pow2(k) > 0,
        ;
    }
    lemma_nearest_at(n, 1, k);
    lemma_half_even_exact(significand(m), pow2(k) as int);
}

/// Adding a number far smaller than the rounding step changes nothing.
proof fn lemma_nearest_far(m: int, e: int)
    requires
        0 <= m < INFINITY,
        scale(m) >= 61,
        distance(e) < pow2((scale(m) - 7) as nat),
    ensures
        units(m) + e > 0,
        nearest(units(m) + e, 1) == m,
{
    lemma_parts(m);
    lemma_powers();
    let k: nat = scale(m) as nat;
    let step: int = pow2(k) as int;
    let n: int = units(m) + e;
    lemma_pow2_pos((k - 7) as nat);
    lemma_pow2_adds(7, (k - 7) as nat);
    assert(pow2(7) == 128) by {
        lemma2_to64();
    }
    lemma_pow2_unfold(k);
    let half: int = pow2((k - 1) as nat) as int;
    let c: int = significand(m);
    assert(c * step >= TWO52 * step && c * step <= (TWO53 - 1) * step) by (nonlinear_arith)
        requires
            TWO52 <= c < TWO53,
            step > 0,
    ;
    if n >= TWO52 * step {
        assert(n < TWO53 * 1int * pow2(k));
        lemma_nearest_at(n, 1, k);
        lemma_half_even_near(c, e, step);
    } else {
        assert(c == TWO52) by (nonlinear_arith)
            requires
                c * step + e < TWO52 * step,
                c >= TWO52,
                -step < e,
                step > 0,
        ;
        assert(TWO52 * step == TWO53 * half) by (nonlinear_arith)
            requires
                step == 2 * half,
        ;
        assert(n >= TWO52 * 1int * half) by (nonlinear_arith)
            requires
                n == TWO53 * half + e,
                -half < e,
                half > 0,
        ;
        lemma_nearest_at(n, 1, (k - 1) as nat);
        lemma_half_even_near(TWO53 as int, e, half);
        assert((k - 1) * TWO52 + TWO53 == k * TWO52 + TWO52) by (nonlinear_arith);
    }
}

/// The significand and the scale of a finite magnitude.
fn parts(m: u64) -> (r: (u64, i32))
    requires
        m < INFINITY,
    ensures
        r.0 == significand(m as int),
        r.1 == scale(m as int),
        r.0 < TWO53,
        0 <= r.1 <= 2045,
{
    proof {
        lemma_parts(m as int);
    }
    if m < TWO52 {
        (m, 0)
    } else {
        (TWO52 + m % TWO52, (m / TWO52) as i32 - 1)
    }
}

/// The pattern without its sign.
fn unsigned(a: u64) -> (m: u64)
    ensures
        m == magnitude(a),
{
    if a >= SIGN {
        a - SIGN
    } else {
        a
    }
}

/// `-a`.
pub fn negate(a: u64) -> (r: u64)
    ensures
        r == opposite(a),
{
    if a >= SIGN {
        a - SIGN
    } else {
        a + SIGN
    }
}

/// `a` without its sign.
pub fn absolute(a: u64) -> (r: u64)
    ensures
        r == magnitude(a),
{
    unsigned(a)
}

/// The sum of two finite numbers, the first with the larger scale.
fn add_aligned(a: u64, b: u64) -> (r: u64)
    requires
        is_finite(a),
        is_finite(b),
        scale(magnitude(a)) >= scale(magnitude(b)),
    ensures
        r == sum(a, b),
{
    let (ma, ea) = parts(unsigned(a));
    let (mb, eb) = parts(unsigned(b));
    let na: bool = a >= SIGN;
    let nb: bool = b >= SIGN;
    proof {
        lemma_parts(magnitude(a));
        lemma_parts(magnitude(b));
        lemma_pow2_pos(ea as nat);
        lemma_pow2_pos(eb as nat);
    }
    if ea - eb > 60 {
        proof {
            let e: int = if na == nb {
                units(magnitude(b))
            } else {
                -units(magnitude(b))
            };
            lemma_powers();
            lemma_pow2_adds(53, eb as nat);
            assert(units(magnitude(b)) < pow2((53 + eb) as nat)) by (nonlinear_arith)
                requires
                    units(magnitude(b)) == mb * pow2(eb as nat),
                    mb < pow2(53),
                    pow2(eb as nat) > 0,
                    pow2(53) * pow2(eb as nat) == pow2((53 + eb) as nat),
            ;
            if 53 + eb < ea - 7 {
                lemma_pow2_strictly_increases((53 + eb) as nat, (ea - 7) as nat);
            }
            lemma_nearest_far(magnitude(a), e);
        }
        return a;
    }
    let x: u128 = ma as u128;
    let y: u128 = mb as u128;
    let up: u128 = power((ea - eb) as u32);
    proof {
        lemma_powers();
        if ea - eb < 60 {
            lemma_pow2_strictly_increases((ea - eb) as nat, 60);
        }
        assert(x * up < 0x2_0000_0000_0000_0000_0000_0000_0000) by (nonlinear_arith)
            requires
                x < 0x20_0000_0000_0000,
                up <= 0x1000_0000_0000_0000,
        ;
        lemma_pow2_adds((ea - eb) as nat, eb as nat);
        assert(units(magnitude(a)) == (x * up) * pow2(eb as nat)) by (nonlinear_arith)
            requires
                units(magnitude(a)) == x * pow2(ea as nat),
                pow2(ea as nat) == up * pow2(eb as nat),
        ;
    }
    let x: u128 = x * up;
    let ghost one: int = pow2(eb as nat) as int;
    if na == nb {
        proof {
            lemma_scaled_sum(x as int, y as int, one);
        }
        if x + y == 0 {
            return with_sign(na, 0);
        }
        round_scaled(na, x + y, eb)
    } else if x == y {
        0
    } else if x > y {
        proof {
            lemma_scaled_sum(x as int, y as int, one);
        }
        round_scaled(na, x - y, eb)
    } else {
        proof {
            lemma_scaled_sum(y as int, x as int, one);
        }
        round_scaled(nb, y - x, eb)
    }
}

proof fn lemma_scaled_sum(x: int, y: int, c: int)
    requires
        0 <= x,
        0 <= y,
        0 < c,
    ensures
        x * c + y * c == (x + y) * c,
        x * c - y * c == (x - y) * c,
        x > y ==> (x - y) * c > 0,
        x + y > 0 ==> (x + y) * c > 0,
{
    assert(x * c + y * c == (x + y) * c && x * c - y * c == (x - y) * c) by (nonlinear_arith);
    assert((x > y ==> (x - y) * c > 0) && (x + y > 0 ==> (x + y) * c > 0)) by (nonlinear_arith)
        requires
            0 < c,
    ;
}

/// `a + b`.
pub fn plus(a: u64, b: u64) -> (r: u64)
    ensures
        r == sum(a, b),
{
    let x: u64 = unsigned(a);
    let y: u64 = unsigned(b);
    if x > INFINITY || y > INFINITY {
        return NOT_A_NUMBER;
    }
    if x == INFINITY {
        return if y == INFINITY && (a >= SIGN) != (b >= SIGN) {
            NOT_A_NUMBER
        } else {
            a
        };
    }
    if y == INFINITY {
        return b;
    }
    let (mx, ex) = parts(x);
    let (my, ey) = parts(y);
    if ex >= ey {
        add_aligned(a, b)
    } else {
        add_aligned(b, a)
    }
}

/// `a - b`.
pub fn minus(a: u64, b: u64) -> (r: u64)
    ensures
        r == difference(a, b),
{
    plus(a, negate(b))
}

/// `a * b`.
pub fn times(a: u64, b: u64) -> (r: u64)
    ensures
        r == product(a, b),
{
    let x: u64 = unsigned(a);
    let y: u64 = unsigned(b);
    let neg: bool = (a >= SIGN) != (b >= SIGN);
    if x > INFINITY || y > INFINITY {
        return NOT_A_NUMBER;
    }
    if x == INFINITY || y == INFINITY {
        return if x == 0 || y == 0 {
            NOT_A_NUMBER
        } else {
            with_sign(neg, INFINITY as u128)
        };
    }
    let (mx, ex) = parts(x);
    let (my, ey) = parts(y);
    proof {
        assert(mx * my < 0x100_0000_0000_0000_0000_0000_0000_0000 && mx * my >= 0) by (nonlinear_arith)
            requires
                0 <= mx < 0x20_0000_0000_0000,
                0 <= my < 0x20_0000_0000_0000,
        ;
        let p: int = mx * my;
        let e: nat = (ex + ey) as nat;
        lemma_pow2_adds(ex as nat, ey as nat);
        assert(units(x as int) * units(y as int) == p * pow2(e)) by (nonlinear_arith)
            requires
                units(x as int) == mx * pow2(ex as nat),
                units(y as int) == my * pow2(ey as nat),
                pow2(e) == pow2(ex as nat) * pow2(ey as nat),
                p == mx * my,
        ;
        lemma_pow2_pos(1074);
        if e >= 1074 {
            let t: nat = (e - 1074) as nat;
            lemma_pow2_adds(t, 1074);
            lemma_pow2_pos(t);
            assert(p * pow2(e) == (p * pow2(t)) * pow2(1074) && p * pow2(t) >= 0) by (nonlinear_arith)
                requires
                    pow2(e) == pow2(t) * pow2(1074),
                    p >= 0,
            ;
            lemma_nearest_scale(p * pow2(t), 1, pow2(1074) as int);
        } else {
            let t: nat = (1074 - e) as nat;
            lemma_pow2_adds(t, e);
            lemma_pow2_pos(t);
            lemma_pow2_pos(e);
            lemma_nearest_scale(p, pow2(t) as int, pow2(e) as int);
        }
    }
    round_scaled(neg, (mx as u128) * (my as u128), ex + ey - 1074)
}

/// Halving the grid and marking an inexact quotient with an odd number keeps the rounding, where
/// the grid is at least four times coarser than the quotient's last bit.
proof fn lemma_half_even_sticky(x: int, d: int, s: nat, n: int)
    requires
        0 <= x,
        0 < d,
        s >= 2,
        n == 2 * (x / d) + (if x % d == 0 {
            0int
        } else {
            1int
        }),
    ensures
        half_even(2 * x, d * pow2(s)) == half_even(n, pow2(s) as int),
{
    lemma_powers();
    lemma_pow2_unfold(s);
    lemma_pow2_unfold((s - 1) as nat);
    let g: int = pow2(s) as int;
    let quarter: int = pow2((s - 2) as nat) as int;
    lemma_pow2_pos((s - 2) as nat);
    lemma_fundamental_div_mod(x, d);
    lemma_mod_bound(x, d);
    let y: int = x / d;
    let f: int = x % d;
    // both quotients by the grid are q
    lemma_fundamental_div_mod(n, g);
    lemma_mod_bound(n, g);
    let q: int = n / g;
    let r: int = n % g;
    let mark: int = n - 2 * y;
    assert(x == d * y + f);
    // the exact remainder
    let exact: int = (r - mark) * d + 2 * f;
    assert(2 * x == q * (d * g) + exact) by (nonlinear_arith)
        requires
            x == d * y + f,
            2 * y == n - mark,
            n == g * q + r,
            exact == (r - mark) * d + 2 * f,
    ;
    // an odd mark means an odd remainder
    assert(g * q == 2 * (2 * quarter * q)) by (nonlinear_arith)
        requires
            g == 4 * quarter,
    ;
    assert(r % 2 == mark);
    assert(0 <= exact < d * g && (2 * exact < d * g <==> 2 * r < g) && (2 * exact == d * g <==> 2
        * r == g)) by {
        if mark == 0 {
            assert(exact == r * d);
            assert(0 <= r * d < d * g) by (nonlinear_arith)
                requires
                    0 <= r < g,
                    0 < d,
            ;
            assert(2 * (r * d) < d * g <==> 2 * r < g) by (nonlinear_arith)
                requires
                    0 < d,
            ;
            assert(2 * (r * d) == d * g <==> 2 * r == g) by (nonlinear_arith)
                requires
                    0 < d,
            ;
        } else {
            // strictly between (r - 1) * d and (r + 1) * d
            assert((r - 1) * d < exact < (r + 1) * d) by (nonlinear_arith)
                requires
                    exact == (r - 1) * d + 2 * f,
                    0 < f < d,
            ;
            assert(r + 1 <= g && r >= 1);
            assert((r + 1) * d <= d * g && (r - 1) * d >= 0) by (nonlinear_arith)
                requires
                    1 <= r,
                    r + 1 <= g,
                    0 < d,
            ;
            let h: int = 2 * quarter;
            assert(d * g == 2 * (h * d)) by (nonlinear_arith)
                requires
                    g == 2 * h,
            ;
            assert(r != h);
            if r < h {
                assert((r + 1) * d <= h * d) by (nonlinear_arith)
                    requires
                        r + 1 <= h,
                        0 < d,
                ;
            } else {
                assert((r - 1) * d >= h * d) by (nonlinear_arith)
                    requires
                        r - 1 >= h,
                        0 < d,
                ;
            }
        }
    }
    assert(d * g > 0) by (nonlinear_arith)
        requires
            d > 0,
            g > 0,
    ;
    lemma_fundamental_div_mod_converse(2 * x, d * g, q, exact);
}

/// The same for `nearest`: the exact quotient `x / d` and the marked one round alike.
proof fn lemma_nearest_sticky(x: int, d: int, n: int)
    requires
        0 <= x,
        0 < d,
        n == 2 * (x / d) + (if x % d == 0 {
            0int
        } else {
            1int
        }),
    ensures
        forall|j: nat| #![trigger pow2(j)] j >= 1 ==> (2 * x < d * pow2(j) <==> n < pow2(j)),
{
    lemma_fundamental_div_mod(x, d);
    lemma_mod_bound(x, d);
    assert forall|j: nat| #![trigger pow2(j)] j >= 1 implies (2 * x < d * pow2(j) <==> n < pow2(j)) by {
        lemma_pow2_unfold(j);
        let h: int = pow2((j - 1) as nat) as int;
        let y: int = x / d;
        let f: int = x % d;
        assert(d * pow2(j) == 2 * (d * h)) by (nonlinear_arith)
            requires
                pow2(j) == 2 * h,
        ;
        assert(d * y + f < d * h <==> y < h) by (nonlinear_arith)
            requires
                0 <= f < d,
        ;
    }
}

/// `a / 100`.
pub fn by_hundred(a: u64) -> (r: u64)
    ensures
        r == hundredth(a),
{
    let x: u64 = unsigned(a);
    if x > INFINITY {
        return NOT_A_NUMBER;
    }
    if x == INFINITY {
        return a;
    }
    let (m, e) = parts(x);
    let w: u128 = (m as u128) * 0x1000_0000_0000_0000;
    let y: u128 = w / 100;
    let mark: u128 = if w % 100 == 0 {
        0
    } else {
        1
    };
    let n: u128 = 2 * y + mark;
    proof {
        lemma_hundredth(m as int, e as int, n as int);
        lemma_parts(x as int);
    }
    round_scaled(a >= SIGN, n, e - 61)
}

proof fn lemma_hundredth(m: int, e: int, n: int)
    requires
        0 <= m < TWO53,
        0 <= e <= 2045,
        e > 0 ==> m >= TWO52,
        n == 2 * ((m * 0x1000_0000_0000_0000) / 100) + (if (m * 0x1000_0000_0000_0000) % 100 == 0 {
            0int
        } else {
            1int
        }),
    ensures
        nearest_scaled(n, e - 61) == nearest(m * pow2(e as nat), 100),
{
    if m == 0 {
        lemma_nearest_zero(e - 61);
        lemma_half_even_exact(0, 100);
        assert(0 * pow2(e as nat) == 0) by (nonlinear_arith);
    } else {
        lemma_hundredth_positive(m, e, n);
    }
}

proof fn lemma_hundredth_positive(m: int, e: int, n: int)
    requires
        0 < m < TWO53,
        0 <= e <= 2045,
        e > 0 ==> m >= TWO52,
        n == 2 * ((m * 0x1000_0000_0000_0000) / 100) + (if (m * 0x1000_0000_0000_0000) % 100 == 0 {
            0int
        } else {
            1int
        }),
    ensures
        nearest_scaled(n, e - 61) == nearest(m * pow2(e as nat), 100),
{
    lemma_powers();
    let x: int = m * 0x1000_0000_0000_0000;
    let ee: nat = e as nat;
    lemma_pow2_pos(ee);
    // the number of bits of n, and the doublings
    let big: int = m * pow2(ee);
    assert(big > 0) by (nonlinear_arith)
        requires
            big == m * pow2(ee),
            m > 0,
            pow2(ee) > 0,
    ;
    let l: nat = lemma_bits(n);
    let t: int = e - 61;
    let k: nat = if l + t > 53 {
        (l + t - 53) as nat
    } else {
        0
    };
    lemma_nearest_scaled(n, t, l, k);
    // the grid is coarse
    assert(l >= 55 || e == 0) by {
        if e > 0 && l < 55 {
            lemma_pow2_strictly_increases(l, 60);
        }
    }
    assert(k - t >= 2);
    lemma_nearest_sticky(x, 100, n);
    let s: nat = (k - t) as nat;
    // 2 * x * 2^t == big
    assert(2 * x == m * pow2(61));
    assert(2 * x < 100 * pow2(l) && 2 * x >= 100 * pow2((l - 1) as nat)) by {
        assert(pow2(l) > n);
        if l == 1 {
            assert(n >= 2);
        }
    }
    // 2^61 * 2^ee * 2^k == 2^ee * ...: rewrite both bounds over big
    lemma_pow2_adds(ee, 61);
    assert(big * pow2(61) == (2 * x) * pow2(ee)) by (nonlinear_arith)
        requires
            big == m * pow2(ee),
            2 * x == m * pow2(61),
    ;
    lemma_pow2_adds(l, ee);
    lemma_pow2_adds(53 + k, 61);
    lemma_pow2_adds(53, k);
    lemma_pow2_pos(61);
    lemma_pow2_pos(k);
    assert(big < TWO53 * 100 * pow2(k)) by {
        if l + ee < 53 + k + 61 {
            lemma_pow2_strictly_increases(l + ee, 53 + k + 61);
        }
        assert((2 * x) * pow2(ee) < (100 * pow2(l)) * pow2(ee)) by (nonlinear_arith)
            requires
                2 * x < 100 * pow2(l),
                pow2(ee) > 0,
        ;
        assert((100 * pow2(l)) * pow2(ee) == 100 * pow2(l + ee)) by (nonlinear_arith)
            requires
                pow2(l) * pow2(ee) == pow2(l + ee),
        ;
        assert(big * pow2(61) < (TWO53 * 100 * pow2(k)) * pow2(61)) by (nonlinear_arith)
            requires
                big * pow2(61) < 100 * pow2(l + ee),
                pow2(l + ee) <= pow2(53 + k + 61),
                pow2(53 + k) * pow2(61) == pow2(53 + k + 61),
                pow2(53) * pow2(k) == pow2(53 + k),
                pow2(53) == TWO53,
        ;
        assert(big < TWO53 * 100 * pow2(k)) by (nonlinear_arith)
            requires
                big * pow2(61) < (TWO53 * 100 * pow2(k)) * pow2(61),
                pow2(61) > 0,
        ;
    }
    if k > 0 {
        lemma_pow2_adds((l - 1) as nat, ee);
        lemma_pow2_adds(52 + k, 61);
        lemma_pow2_adds(52, k);
        assert((2 * x) * pow2(ee) >= 100 * pow2((l - 1 + ee) as nat)) by (nonlinear_arith)
            requires
                2 * x >= 100 * pow2((l - 1) as nat),
                pow2(ee) > 0,
                pow2((l - 1) as nat) * pow2(ee) == pow2((l - 1 + ee) as nat),
        ;
        assert(big * pow2(61) >= (TWO52 * 100 * pow2(k)) * pow2(61)) by (nonlinear_arith)
            requires
                big * pow2(61) >= 100 * pow2((l - 1 + ee) as nat),
                pow2((l - 1 + ee) as nat) == pow2(52 + k + 61),
                pow2(52 + k) * pow2(61) == pow2(52 + k + 61),
                pow2(52) * pow2(k) == pow2(52 + k),
                pow2(52) == TWO52,
        ;
        assert(big >= TWO52 * 100 * pow2(k)) by (nonlinear_arith)
            requires
                big * pow2(61) >= (TWO52 * 100 * pow2(k)) * pow2(61),
                pow2(61) > 0,
        ;
    }
    lemma_nearest_at(big, 100, k);
    // both sides round on the same grid
    lemma_half_even_sticky(x, 100, s, n);
    lemma_half_even_scale(big, 100int * pow2(k), pow2(61) as int);
    lemma_pow2_pos(s);
    lemma_half_even_scale(2 * x, 100int * pow2(s), pow2(ee) as int);
    lemma_pow2_adds(k, 61);
    lemma_pow2_adds(s, ee);
    assert((100 * pow2(k)) * pow2(61) == (100 * pow2(s)) * pow2(ee)) by (nonlinear_arith)
        requires
            pow2(k) * pow2(61) == pow2(k + 61),
            pow2(s) * pow2(ee) == pow2(s + ee),
            s + ee == k + 61,
    ;
}

/// Every positive number has a number of bits.
pub proof fn lemma_bits(n: int) -> (l: nat)
    requires
        n > 0,
    ensures
        l >= 1,
        pow2((l - 1) as nat) <= n < pow2(l),
    decreases n,
{
    lemma_powers();
    if n == 1 {
        1
    } else {
        let h: nat = lemma_bits(n / 2);
        lemma_pow2_unfold(h);
        lemma_pow2_unfold(h + 1);
        h + 1
    }
}

/// `a` rounded to a whole number.
pub fn to_whole(a: u64) -> (r: u64)
    ensures
        r == whole(a),
{
    let x: u64 = unsigned(a);
    if x > INFINITY {
        return NOT_A_NUMBER;
    }
    if x == INFINITY {
        return a;
    }
    let (m, e) = parts(x);
    let ghost one: int = pow2(1074) as int;
    proof {
        lemma_pow2_pos(1074);
        lemma_pow2_pos(e as nat);
        lemma_parts(x as int);
        lemma_powers();
    }
    if e >= 1074 {
        proof {
            let t: nat = (e - 1074) as nat;
            lemma_pow2_adds(t, 1074);
            lemma_pow2_pos(t);
            let c: int = m * pow2(t);
            assert(units(x as int) == c * one && c >= 0) by (nonlinear_arith)
                requires
                    units(x as int) == m * pow2(e as nat),
                    pow2(e as nat) == pow2(t) * one,
                    c == m * pow2(t),
            ;
            assert(2 * (c * one) + one == c * (2 * one) + one) by (nonlinear_arith);
            lemma_fundamental_div_mod_converse(2 * units(x as int) + one, 2 * one, c, one);
            lemma_nearest_exact(x as int);
        }
        return a;
    }
    let s: i32 = 1074 - e;
    if s >= 60 {
        proof {
            lemma_pow2_adds((s - 1) as nat, e as nat);
            lemma_pow2_unfold(1074);
            if s > 60 {
                lemma_pow2_strictly_increases(59, (s - 1) as nat);
            }
            lemma_pow2_strictly_increases(53, 59);
            assert(2 * units(x as int) < one) by (nonlinear_arith)
                requires
                    units(x as int) == m * pow2(e as nat),
                    m < pow2((s - 1) as nat),
                    pow2((s - 1) as nat) * pow2(e as nat) == pow2(1073),
                    pow2(e as nat) > 0,
                    one == 2 * pow2(1073),
            ;
            lemma_fundamental_div_mod_converse(2 * units(x as int) + one, 2 * one, 0, 2 * units(
                x as int,
            ) + one);
            assert(0 * one == 0) by (nonlinear_arith);
            lemma_half_even_exact(0, 1);
        }
        return with_sign(a >= SIGN, 0);
    }
    let d: u128 = power(s as u32);
    proof {
        lemma_pow2_pos(s as nat);
        lemma_pow2_strictly_increases(s as nat, 60);
    }
    let c: u128 = (2 * (m as u128) + d) / (2 * d);
    proof {
        let num: int = 2 * m + d;
        lemma_fundamental_div_mod(num, 2 * d);
        lemma_mod_bound(num, 2 * d);
        lemma_pow2_adds(s as nat, e as nat);
        let p: int = pow2(e as nat) as int;
        assert(2 * units(x as int) + one == num * p && 2 * one == (2 * d) * p) by (nonlinear_arith)
            requires
                units(x as int) == m * p,
                one == d * p,
                num == 2 * m + d,
        ;
        let rest: int = num % (2 * d);
        assert(num * p == c * ((2 * d) * p) + rest * p && 0 <= rest * p < (2 * d) * p) by (nonlinear_arith)
            requires
                num == (2 * d) * c + rest,
                0 <= rest < 2 * d,
                p > 0,
        ;
        lemma_fundamental_div_mod_converse(num * p, (2 * d) * p, c as int, rest * p);
        assert(c <= num) by (nonlinear_arith)
            requires
                num == (2 * d) * c + rest,
                0 <= rest,
                d >= 1,
                c >= 0,
        ;
    }
    round_scaled(a >= SIGN, c, 1074)
}

/// The number nearest to `n`.
pub fn from_integer(n: i128) -> (r: u64)
    requires
        -0x100_0000_0000_0000_0000 < n < 0x100_0000_0000_0000_0000,
    ensures
        r == of_integer(n as int),
{
    if n < 0 {
        round_scaled(true, (-n) as u128, 1074)
    } else {
        round_scaled(false, n as u128, 1074)
    }
}

/// Whether `a < b`.
pub fn is_less(a: u64, b: u64) -> (r: bool)
    ensures
        r == less(a, b),
{
    let x: u64 = unsigned(a);
    let y: u64 = unsigned(b);
    if x > INFINITY || y > INFINITY {
        false
    } else if a >= SIGN {
        if b >= SIGN {
            y < x
        } else {
            x != 0 || y != 0
        }
    } else if b >= SIGN {
        false
    } else {
        x < y
    }
}

/// Whether `a == b`.
pub fn is_same(a: u64, b: u64) -> (r: bool)
    ensures
        r == same(a, b),
{
    let x: u64 = unsigned(a);
    let y: u64 = unsigned(b);
    x <= INFINITY && y <= INFINITY && ((a == b) || (x == 0 && y == 0))
}

} // verus!
