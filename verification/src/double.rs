//! Double-precision rounding on integers.
//!
//! The keyer's element durations, the pace of packets and the length of pauses are
//! defined by double-precision arithmetic that ends in a rounding to whole
//! numbers. The functions here compute exactly that on integers: a value is held as
//! the integer number of units that it consists of, small enough for every double
//! in question to be a whole number of them, and each operation is followed by
//! [`nearest_double`], which rounds to the 53 significant bits of a double, ties to
//! even. The units are 2^-64 for factors, 2^-82 for times and what flows in them,
//! and 2^-86 for the time of a packet.

use vstd::prelude::*;

verus! {

/// One, in units of 2^-64.
pub const ONE: u128 = 0x1_0000_0000_0000_0000;

/// One, in units of 2^-82.
pub const FINE_ONE: u128 = 0x4_0000_0000_0000_0000_0000;

/// One, in units of 2^-86.
pub const SPAN_ONE: u128 = 0x40_0000_0000_0000_0000_0000;

/// 2^42, in units of 2^-82.
pub const FINE_LIMIT: u128 = 0x1000_0000_0000_0000_0000_0000_0000_0000;

/// The first integer with more than 53 significant bits.
pub const MANTISSA_LIMIT: u128 = 0x20_0000_0000_0000;

/// The integer nearest to `num / den`, the even one of two that are equally near.
pub open spec fn nearest_even(num: nat, den: nat) -> nat {
    let q = num / den;
    let r = num % den;
    if 2 * r < den || (2 * r == den && q % 2 == 0) {
        q
    } else {
        q + 1
    }
}

/// The spacing of doubles around the value `q`: the power of two whose
/// quotient `q / ulp` has 53 significant bits, or 1 for a `q` with fewer.
pub open spec fn ulp(q: nat) -> nat
    decreases q,
{
    if q < MANTISSA_LIMIT {
        1
    } else {
        2 * ulp(q / 2)
    }
}

/// The double nearest to `num / den`.
pub open spec fn nearest_double_spec(num: nat, den: nat) -> nat {
    let u = ulp(num / den);
    u * nearest_even(num, den * u)
}

proof fn lemma_ulp_bound(q: nat)
    ensures
        1 <= ulp(q),
        q >= 1 ==> ulp(q) <= q,
    decreases q,
{
    if q >= MANTISSA_LIMIT {
        lemma_ulp_bound(q / 2);
    }
}

/// The double nearest to `num / den`, which is in the units of the result.
pub fn nearest_double(num: u128, den: u128) -> (r: u128)
    requires
        den > 0,
        num / den <= u128::MAX / 2,
    ensures
        r == nearest_double_spec(num as nat, den as nat),
        r <= 2 * (num / den) + 1,
{
    let q: u128 = num / den;
    let mut u: u128 = 1;
    let mut h: u128 = q;
    while h >= MANTISSA_LIMIT
        invariant
            u >= 1,
            h * u <= q,
            q <= u128::MAX / 2,
            ulp(q as nat) == u * ulp(h as nat),
        decreases h,
    {
        let ghost h0 = h as nat;
        let ghost u0 = u as nat;
        assert(u0 <= q && h0 / 2 * (2 * u0) <= q && 2 * u0 <= h0 * u0) by (nonlinear_arith)
            requires
                h0 >= 2,
                h0 * u0 <= q,
                u0 >= 1,
        ;
        assert(u0 * (2 * ulp(h0 / 2)) == 2 * u0 * ulp(h0 / 2)) by (nonlinear_arith);
        h = h / 2;
        u = 2 * u;
    }
    proof {
        assert(u * ulp(h as nat) == u) by (nonlinear_arith)
            requires
                ulp(h as nat) == 1,
        ;
        lemma_ulp_bound(q as nat);
        assert(den * u >= 1) by (nonlinear_arith)
            requires
                den > 0,
                u >= 1,
        ;
        assert(den * u <= num || (u == 1 && q == 0)) by (nonlinear_arith)
            requires
                q == num / den,
                den > 0,
                u >= 1,
                q >= 1 ==> u <= q,
                q == 0 ==> u == 1,
        ;
        assert(u == 1 ==> den * u == den) by (nonlinear_arith);
    }
    let d: u128 = den * u;
    let k: u128 = num / d;
    let r: u128 = num % d;
    proof {
        assert(k * u <= q && (q == 0 ==> k == 0)) by (nonlinear_arith)
            requires
                q == num / den,
                d == den * u,
                k == num / d,
                den > 0,
                u >= 1,
        {
            assert(k * d <= num);
            assert(k * u * den <= num);
            assert(k * u <= num / den);
        }
        assert(k <= k * u) by (nonlinear_arith)
            requires
                u >= 1,
        ;
        assert((k + 1) * u == k * u + u) by (nonlinear_arith);
        assert(u * k == k * u && u * (k + 1) == (k + 1) * u) by (nonlinear_arith);
    }
    if r < d - r || (r == d - r && k % 2 == 0) {
        u * k
    } else {
        u * (k + 1)
    }
}

fn nearest_even_of(num: u128, den: u128) -> (k: u128)
    requires
        den > 0,
        num < u128::MAX,
    ensures
        k == nearest_even(num as nat, den as nat),
        k <= num / den + 1,
{
    let q: u128 = num / den;
    let r: u128 = num % den;
    assert(q <= num) by (nonlinear_arith)
        requires
            q == num / den,
            den > 0,
    ;
    if r < den - r || (r == den - r && q % 2 == 0) {
        q
    } else {
        q + 1
    }
}

/// The time that `samples` take at a rate, in nanoseconds: the number of seconds as a
/// double, rounded to whole nanoseconds, halves to the even one.
pub open spec fn span_ns(samples: nat, rate: nat) -> nat {
    nearest_even(
        nearest_double_spec(samples * SPAN_ONE as nat, rate) * 1_000_000_000,
        SPAN_ONE as nat,
    )
}

/// The time that `samples` take at a rate, in nanoseconds.
pub fn span_of(samples: u32, rate: u32) -> (ns: u64)
    requires
        samples <= 504,
        rate > 0,
    ensures
        ns == span_ns(samples as nat, rate as nat),
{
    let num: u128 = samples as u128 * SPAN_ONE;
    let den: u128 = rate as u128;
    assert(num / den <= num) by (nonlinear_arith)
        requires
            den > 0,
    ;
    let seconds: u128 = nearest_double(num, den);
    let ns: u128 = nearest_even_of(seconds * 1_000_000_000, SPAN_ONE);
    ns as u64
}

/// A time in seconds as a double, in units of 2^-82: the whole seconds and the double
/// nearest to the rest, added up.
pub open spec fn seconds(ns: nat) -> nat {
    nearest_double_spec(
        ns / 1_000_000_000 * FINE_ONE as nat + nearest_double_spec(
            ns % 1_000_000_000 * FINE_ONE as nat,
            1_000_000_000,
        ),
        1,
    )
}

/// A time in seconds as a double, in units of 2^-82.
pub fn seconds_of(ns: u64) -> (s: u128)
    ensures
        s == seconds(ns as nat),
        s <= (2 * (ns / 1_000_000_000) + 5) * FINE_ONE,
{
    let whole: u128 = (ns / 1_000_000_000) as u128 * FINE_ONE;
    let rest: u128 = nearest_double((ns % 1_000_000_000) as u128 * FINE_ONE, 1_000_000_000);
    nearest_double(whole + rest, 1)
}

/// The product of a double and a whole number, as a double.
pub open spec fn double_times(v: nat, n: nat) -> nat {
    nearest_double_spec(v * n, 1)
}

/// The limit is a double.
pub proof fn lemma_limit_is_double()
    ensures
        is_double(FINE_LIMIT as nat),
{
    let p = vstd::arithmetic::power2::pow2(124);
    vstd::arithmetic::power2::lemma2_to64();
    vstd::arithmetic::power2::lemma_pow2_adds(62, 62);
    assert(p == FINE_LIMIT) by {
        assert(vstd::arithmetic::power2::pow2(62) == 0x4000_0000_0000_0000) by {
            vstd::arithmetic::power2::lemma2_to64_rest();
        }
    }
    lemma_ulp_divides(1, 124);
}

/// Whole numbers that stay below 2^53 are doubles: rounding keeps them.
pub proof fn lemma_whole_is_exact(n: nat)
    requires
        n < MANTISSA_LIMIT,
    ensures
        nearest_double_spec(n * ONE as nat, 1) == n * ONE as nat,
{
    lemma_ulp_divides(n, 64);
    let q = n * ONE as nat;
    assert(q / 1 == q);
    let u = ulp(q);
    assert(q % u == 0);
    lemma_ulp_bound(q);
    assert(1 * u == u);
    let k = q / u;
    assert(u * k == q) by (nonlinear_arith)
        requires
            k == q / u,
            q % u == 0,
            u >= 1,
    ;
}

proof fn lemma_ulp_divides(n: nat, s: nat)
    requires
        n < MANTISSA_LIMIT,
    ensures
        (n * vstd::arithmetic::power2::pow2(s)) % ulp(n * vstd::arithmetic::power2::pow2(s)) == 0,
        s == 64 ==> vstd::arithmetic::power2::pow2(s) == ONE,
    decreases s,
{
    use_pow2_facts(s);
    let p = vstd::arithmetic::power2::pow2(s);
    let q = n * p;
    if q >= MANTISSA_LIMIT {
        if s == 0 {
            assert(n * 1 == n);
        } else {
            let s1 = (s - 1) as nat;
            let p1 = vstd::arithmetic::power2::pow2(s1);
            vstd::arithmetic::power2::lemma_pow2_unfold(s);
            assert(q == 2 * (n * p1)) by (nonlinear_arith)
                requires
                    q == n * p,
                    p == 2 * p1,
            ;
            lemma_ulp_divides(n, s1);
            let h = n * p1;
            assert(q / 2 == h);
            lemma_ulp_bound(h);
            let v = ulp(h);
            assert((2 * h) % (2 * v) == 0) by (nonlinear_arith)
                requires
                    h % v == 0,
                    v >= 1,
            {
                let k = h / v;
                assert(h == v * k);
                assert(2 * h == (2 * v) * k);
                vstd::arithmetic::div_mod::lemma_mod_multiples_basic(k as int, (2 * v) as int);
                assert((2 * v) * k == k * (2 * v));
            }
        }
    } else {
        assert(q % 1 == 0);
    }
}

proof fn use_pow2_facts(s: nat)
    ensures
        vstd::arithmetic::power2::pow2(0) == 1,
        s == 64 ==> vstd::arithmetic::power2::pow2(s) == ONE,
{
    vstd::arithmetic::power2::lemma2_to64();
}

/// Scaling numerator and denominator of a whole quotient changes nothing.
pub proof fn lemma_rounding_scales(n: nat, u: nat, k: nat)
    requires
        k > 0,
        u > 0,
        n % u == 0,
    ensures
        nearest_even(k * n, k * u) == n / u,
        u * (n / u) == n,
{
    let q = n / u;
    assert(n == u * q) by (nonlinear_arith)
        requires
            q == n / u,
            n % u == 0,
            u > 0,
    ;
    assert(k * n == q * (k * u)) by (nonlinear_arith)
        requires
            n == u * q,
    ;
    assert(k * u > 0) by (nonlinear_arith)
        requires
            k > 0,
            u > 0,
    ;
    vstd::arithmetic::div_mod::lemma_mod_multiples_basic(q as int, (k * u) as int);
    vstd::arithmetic::div_mod::lemma_div_by_multiple(q as int, (k * u) as int);
}

/// The spacing around a whole number below 2^53 divides it.
pub proof fn lemma_ulp_of_whole(n: nat)
    requires
        n < MANTISSA_LIMIT,
    ensures
        (n * ONE as nat) % ulp(n * ONE as nat) == 0,
        ulp(n * ONE as nat) >= 1,
{
    lemma_ulp_divides(n, 64);
    lemma_ulp_bound(n * ONE as nat);
}

/// A value that rounding keeps.
pub open spec fn is_double(v: nat) -> bool {
    v % ulp(v) == 0
}

/// Where the spacing of doubles is more than one, 53 bits are in use.
proof fn lemma_ulp_range(q: nat)
    ensures
        ulp(q) >= 1,
        q < MANTISSA_LIMIT * ulp(q),
        ulp(q) > 1 ==> MANTISSA_LIMIT * ulp(q) <= 2 * q,
    decreases q,
{
    if q >= MANTISSA_LIMIT {
        lemma_ulp_range(q / 2);
    }
}

/// The spacing of doubles grows with the values, by powers of two.
proof fn lemma_ulp_grows(v: nat, q: nat)
    requires
        v <= q,
    ensures
        ulp(v) <= ulp(q),
        ulp(q) % ulp(v) == 0,
        ulp(q) == ulp(v) || ulp(q) >= 2 * ulp(v),
    decreases q,
{
    lemma_ulp_bound(v);
    lemma_ulp_bound(q);
    if v >= MANTISSA_LIMIT {
        lemma_ulp_grows(v / 2, q / 2);
        let a = ulp(v / 2);
        let b = ulp(q / 2);
        assert((2 * b) % (2 * a) == 0) by (nonlinear_arith)
            requires
                b % a == 0,
                a >= 1,
        {
            let k = b / a;
            assert(b == a * k);
            assert(2 * b == k * (2 * a));
            vstd::arithmetic::div_mod::lemma_mod_multiples_basic(k as int, (2 * a) as int);
        }
    } else if q >= MANTISSA_LIMIT {
        lemma_ulp_bound(q / 2);
        assert(ulp(q) % 1 == 0);
    }
}

proof fn lemma_at_least(num: nat, den: nat, k: nat)
    requires
        den > 0,
        num >= k * den,
    ensures
        nearest_even(num, den) >= k,
{
    assert(num / den >= k) by (nonlinear_arith)
        requires
            den > 0,
            num >= k * den,
    ;
}

proof fn lemma_at_most(num: nat, den: nat, k: nat)
    requires
        den > 0,
        num <= k * den,
    ensures
        nearest_even(num, den) <= k,
{
    let q = num / den;
    let r = num % den;
    assert(q < k || (q == k && r == 0)) by (nonlinear_arith)
        requires
            den > 0,
            num <= k * den,
            q == num / den,
            r == num % den,
    {
        assert(num == q * den + r);
        assert(q * den <= k * den);
        assert(q <= k);
        if q == k {
            assert(r == 0);
        }
    }
}

/// Rounding keeps order: what is at least a double stays at least that.
pub proof fn lemma_rounds_at_least(num: nat, den: nat, v: nat)
    requires
        den > 0,
        is_double(v),
        num >= v * den,
    ensures
        nearest_double_spec(num, den) >= v,
{
    let q = num / den;
    assert(v <= q) by (nonlinear_arith)
        requires
            q == num / den,
            den > 0,
            num >= v * den,
    ;
    let u = ulp(q);
    lemma_ulp_range(q);
    lemma_ulp_range(v);
    lemma_ulp_grows(v, q);
    assert(den * u > 0) by (nonlinear_arith)
        requires
            den > 0,
            u >= 1,
    ;
    if u == ulp(v) {
        let k = v / u;
        assert(v == k * u && k * (den * u) == v * den) by (nonlinear_arith)
            requires
                k == v / u,
                v % u == 0,
                u >= 1,
        {
            assert(v == u * k);
        }
        lemma_at_least(num, den * u, k);
        assert(u * nearest_even(num, den * u) >= u * k) by (nonlinear_arith)
            requires
                nearest_even(num, den * u) >= k,
        ;
        assert(u * k == k * u) by (nonlinear_arith);
    } else {
        let half = (MANTISSA_LIMIT / 2) as nat;
        assert(half * u <= q) by (nonlinear_arith)
            requires
                MANTISSA_LIMIT * u <= 2 * q,
                2 * half == MANTISSA_LIMIT,
        ;
        assert(num >= half * (den * u)) by (nonlinear_arith)
            requires
                half * u <= q,
                q == num / den,
                den > 0,
        {
            assert(q * den <= num);
            assert(half * u * den <= q * den);
        }
        lemma_at_least(num, den * u, half);
        assert(u * nearest_even(num, den * u) >= v) by (nonlinear_arith)
            requires
                nearest_even(num, den * u) >= half,
                2 * half == MANTISSA_LIMIT,
                v < MANTISSA_LIMIT * ulp(v),
                u >= 2 * ulp(v),
        {
            assert(u * nearest_even(num, den * u) >= u * half);
            assert(u * half >= 2 * ulp(v) * half);
        }
    }
}

/// Rounding keeps order: what is at most a double stays at most that.
pub proof fn lemma_rounds_at_most(num: nat, den: nat, v: nat)
    requires
        den > 0,
        is_double(v),
        num <= v * den,
    ensures
        nearest_double_spec(num, den) <= v,
{
    let q = num / den;
    assert(q <= v) by (nonlinear_arith)
        requires
            q == num / den,
            den > 0,
            num <= v * den,
    ;
    let u = ulp(q);
    lemma_ulp_range(q);
    lemma_ulp_range(v);
    lemma_ulp_grows(q, v);
    let w = ulp(v);
    assert(v % u == 0) by (nonlinear_arith)
        requires
            v % w == 0,
            w % u == 0,
            u >= 1,
            w >= 1,
    {
        let a = v / w;
        let b = w / u;
        assert(v == w * a);
        assert(w == u * b);
        assert(v == (b * a) * u);
        vstd::arithmetic::div_mod::lemma_mod_multiples_basic((b * a) as int, u as int);
    }
    let k = v / u;
    assert(v == k * u && k * (den * u) == v * den && den * u > 0) by (nonlinear_arith)
        requires
            k == v / u,
            v % u == 0,
            u >= 1,
            den > 0,
    {
        assert(v == u * k);
    }
    lemma_at_most(num, den * u, k);
    assert(u * nearest_even(num, den * u) <= u * k) by (nonlinear_arith)
        requires
            nearest_even(num, den * u) <= k,
            u >= 1,
    ;
    assert(u * k == k * u) by (nonlinear_arith);
}

/// Distance between two integers.
pub open spec fn distance(a: int, b: int) -> int {
    if a >= b {
        a - b
    } else {
        b - a
    }
}

/// No integer is nearer to a quotient than the one that it is rounded to, and of two
/// that are equally near it is the even one.
pub proof fn lemma_nearest_even_is_nearest(num: nat, den: nat, other: int)
    requires
        den > 0,
    ensures
        ({
            let k = nearest_even(num, den) as int;
            &&& 2 * distance(num as int, k * den) <= den
            &&& distance(num as int, k * den) <= distance(num as int, other * den)
            &&& 2 * distance(num as int, k * den) == den ==> k % 2 == 0
        }),
{
    let k = nearest_even(num, den) as int;
    let q = (num / den) as int;
    let r = (num % den) as int;
    let d = den as int;
    assert(num as int == q * d + r && 0 <= r < d) by (nonlinear_arith)
        requires
            d > 0,
            q == num as int / d,
            r == num as int % d,
    ;
    assert((q + 1) * d == q * d + d) by (nonlinear_arith);
    assert(other <= q ==> other * d <= q * d) by (nonlinear_arith)
        requires
            d > 0,
    ;
    assert(other >= q + 1 ==> other * d >= (q + 1) * d) by (nonlinear_arith)
        requires
            d > 0,
    ;
    if 2 * distance(num as int, k * d) == d {
        assert(2 * r == d);
    }
}

/// A double is off by at most half a unit, or by one part in 2^53.
pub proof fn lemma_rounding_error(num: nat, den: nat)
    requires
        den > 0,
    ensures
        ({
            let off = distance(num as int, (nearest_double_spec(num, den) * den) as int);
            2 * off <= den || 0x20_0000_0000_0000 * off <= num
        }),
{
    let q = num / den;
    let u = ulp(q);
    lemma_ulp_range(q);
    let d = den * u;
    assert(d > 0) by (nonlinear_arith)
        requires
            den > 0,
            u >= 1,
            d == den * u,
    ;
    let k = nearest_even(num, d);
    lemma_nearest_even_is_nearest(num, d, 0);
    assert(u * k * den == k * d) by (nonlinear_arith)
        requires
            d == den * u,
    ;
    if u > 1 {
        assert(0x10_0000_0000_0000 * d <= num) by (nonlinear_arith)
            requires
                0x20_0000_0000_0000 * u <= 2 * q,
                q == num / den,
                d == den * u,
                den > 0,
        {
            assert(0x10_0000_0000_0000 * u <= q);
            assert(q * den <= num);
            assert(0x10_0000_0000_0000 * u * den <= q * den);
        }
    } else {
        assert(den * 1 == den);
    }
}

/// The time of a packet is right to the nanosecond: `ns` nanoseconds at `rate` samples
/// per second are the given number of samples, give or take one nanosecond.
pub proof fn lemma_span_is_samples_over_rate(samples: u32, rate: u32, ns: u64)
    requires
        samples <= 504,
        rate > 0,
        call_ensures(span_of, (samples, rate), ns),
    ensures
        distance(ns * rate, samples * 1_000_000_000) <= rate,
{
    lemma_span_is_close(samples, rate, ns);
}

pub(crate) proof fn lemma_span_is_close(samples: u32, rate: u32, ns: u64)
    requires
        samples <= 504,
        rate > 0,
        ns == span_ns(samples as nat, rate as nat),
    ensures
        distance(ns * rate, samples * 1_000_000_000) <= rate,
{
    let one = SPAN_ONE as int;
    let num = samples as nat * SPAN_ONE as nat;
    let v = nearest_double_spec(num, rate as nat) as int;
    lemma_rounding_error(num, rate as nat);
    let off = distance(num as int, v * rate);
    lemma_nearest_even_is_nearest((v * 1_000_000_000) as nat, SPAN_ONE as nat, 0);
    let s = samples as int;
    let r = rate as int;
    let n = ns as int;
    assert(2 * off <= r || 0x20_0000_0000_0000 * off <= s * one);
    assert(2 * distance(v * 1_000_000_000, n * one) <= one);
    assert(distance(n * r, s * 1_000_000_000) <= r) by (nonlinear_arith)
        requires
            one == 0x40_0000_0000_0000_0000_0000,
            0 <= s <= 504,
            1 <= r <= 0xffff_ffff,
            n >= 0,
            v >= 0,
            off == distance(s * one, v * r),
            2 * off <= r || 0x20_0000_0000_0000 * off <= s * one,
            2 * distance(v * 1_000_000_000, n * one) <= one,
    {
        assert(-off <= s * one - v * r <= off);
        assert(off <= 0x1_0000_0000 || off * 0x20_0000_0000_0000 <= 504 * one);
        assert(4_000_000_000 * off <= one);
        assert(-one <= 2 * (v * 1_000_000_000 - n * one) <= one);
        assert(2 * (v * 1_000_000_000 - n * one) * r <= one * r);
        assert(2 * (v * 1_000_000_000 - n * one) * r >= -one * r);
        assert((v * 1_000_000_000 - n * one) * r == v * r * 1_000_000_000 - n * r * one);
        assert(2 * (s * one - v * r) * 1_000_000_000 <= one);
        assert(2 * (s * one - v * r) * 1_000_000_000 >= -one);
        let diff = s * 1_000_000_000 - n * r;
        assert(2 * diff * one <= one * r + one);
        assert(2 * diff * one >= -(one * r + one));
        assert(2 * diff <= r + 1);
        assert(2 * diff >= -(r + 1));
    }
}

/// A product is rounded by at most one part in 2^53.
pub proof fn lemma_product_is_close(v: nat, n: nat)
    ensures
        0x20_0000_0000_0000 * distance((v * n) as int, double_times(v, n) as int) <= v * n,
{
    lemma_rounding_error(v * n, 1);
    assert(double_times(v, n) * 1 == double_times(v, n));
}

/// A time in seconds is right to one part in 2^50.
pub proof fn lemma_seconds_are_close(ns: nat)
    ensures
        0x4_0000_0000_0000 * distance(
            (seconds(ns) * 1_000_000_000) as int,
            (ns * FINE_ONE as nat) as int,
        ) <= ns * FINE_ONE as nat,
{
    let one = FINE_ONE as int;
    let w = (ns / 1_000_000_000) as int;
    let r = (ns % 1_000_000_000) as int;
    let frac = nearest_double_spec((r * one) as nat, 1_000_000_000) as int;
    lemma_rounding_error((r * one) as nat, 1_000_000_000);
    let sum = w * one + frac;
    let sec = nearest_double_spec(sum as nat, 1) as int;
    lemma_rounding_error(sum as nat, 1);
    assert(sec * 1 == sec);
    let off1 = distance(r * one, frac * 1_000_000_000);
    let off2 = distance(sum, sec);
    let total = ns * one;
    assert(w * 1_000_000_000 + r == ns);
    assert(sec == seconds(ns)) by {
        assert((ns / 1_000_000_000) * FINE_ONE as nat == w * one);
        assert((ns % 1_000_000_000) * FINE_ONE as nat == r * one);
    }
    if ns == 0 {
        assert(w == 0 && r == 0);
        assert(w * one == 0 && r * one == 0) by (nonlinear_arith)
            requires
                w == 0,
                r == 0,
        ;
        assert(0x20_0000_0000_0000 * off1 <= 0 || 2 * off1 <= 1_000_000_000);
        assert(frac == 0) by {
            assert(frac * 1_000_000_000 <= 500_000_000);
        }
    }
    assert(0x4_0000_0000_0000 * distance(sec * 1_000_000_000, total) <= total) by (nonlinear_arith)
        requires
            one == 0x4_0000_0000_0000_0000_0000,
            ns >= 0,
            r >= 0 && w >= 0,
            frac >= 0,
            ns == 0 ==> frac == 0 && w == 0,
            total == ns * one,
            w * 1_000_000_000 + r == ns,
            sum == w * one + frac,
            off1 == distance(r * one, frac * 1_000_000_000),
            off2 == distance(sum, sec),
            2 * off1 <= 1_000_000_000 || 0x20_0000_0000_0000 * off1 <= r * one,
            2 * off2 <= 1 || 0x20_0000_0000_0000 * off2 <= sum,
    {
        if ns == 0 {
            assert(sum == 0);
            assert(off2 == 0);
        } else {
            assert(total >= one);
            assert(r * one <= total);
            assert(0x20_0000_0000_0000 * off1 <= total + total) by {
                assert(0x20_0000_0000_0000 * 500_000_000 <= 2 * one);
            }
            assert(sum * 1_000_000_000 == w * 1_000_000_000 * one + frac * 1_000_000_000);
            assert(w * 1_000_000_000 * one + r * one == total);
            assert(distance(sum * 1_000_000_000, total) <= off1);
            assert(0x20_0000_0000_0000 * off2 <= sum || off2 == 0);
            assert(0x20_0000_0000_0000 * (off2 * 1_000_000_000) <= total + off1);
            assert(distance(sec * 1_000_000_000, sum * 1_000_000_000) <= off2 * 1_000_000_000);
            assert(distance(sec * 1_000_000_000, total) <= off1 + off2 * 1_000_000_000);
            assert(0x20_0000_0000_0000 * (off1 + off2 * 1_000_000_000) <= 8 * total);
        }
    }
}

/// The samples that a time holds at a rate, as a double, are right to one part in 2^49.
pub proof fn lemma_samples_of_time_are_close(ns: nat, rate: nat)
    ensures
        0x2_0000_0000_0000 * distance(
            (double_times(seconds(ns), rate) * 1_000_000_000) as int,
            (ns * rate * FINE_ONE as nat) as int,
        ) <= ns * rate * FINE_ONE as nat,
{
    let sec = seconds(ns) as int;
    let spent = double_times(seconds(ns), rate) as int;
    let n = ns as int;
    let r = rate as int;
    let one = FINE_ONE as int;
    lemma_seconds_are_close(ns);
    lemma_product_is_close(seconds(ns), rate);
    let e = distance(sec * 1_000_000_000, n * one);
    let f = distance(sec * r, spent);
    assert(0x4_0000_0000_0000 * e <= n * one);
    assert(0x20_0000_0000_0000 * f <= sec * r);
    let total = n * r * one;
    assert(0x2_0000_0000_0000 * distance(spent * 1_000_000_000, total) <= total)
        by (nonlinear_arith)
        requires
            e == distance(sec * 1_000_000_000, n * one),
            f == distance(sec * r, spent),
            0x4_0000_0000_0000 * e <= n * one,
            0x20_0000_0000_0000 * f <= sec * r,
            total == n * r * one,
            n >= 0,
            r >= 0,
            one > 0,
            sec >= 0,
    {
        assert(-e <= sec * 1_000_000_000 - n * one <= e);
        assert((sec * 1_000_000_000 - n * one) * r <= e * r);
        assert((sec * 1_000_000_000 - n * one) * r >= -(e * r));
        assert((sec * 1_000_000_000 - n * one) * r == sec * r * 1_000_000_000 - total);
        assert(0x4_0000_0000_0000 * (e * r) <= total);
        assert(0x20_0000_0000_0000 * (f * 1_000_000_000) <= sec * r * 1_000_000_000);
        assert(sec * r * 1_000_000_000 <= total + e * r);
        assert(total >= 0);
        assert(e * r >= 0);
        assert(distance(spent * 1_000_000_000, total) <= f * 1_000_000_000 + e * r);
    }
}

} // verus!
