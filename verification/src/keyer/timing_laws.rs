//! What the speed settings of the keyer mean in time.

use crate::double::{
    distance, is_double, lemma_rounding_error, lemma_rounds_at_least, lemma_rounds_at_most,
    lemma_ulp_of_whole, nearest_double_spec, ONE,
};
use crate::keyer::config::{
    dynamic_dash_us, max_int, weighted_dash_us, KeyerConfig, SIX_TENTHS,
};
use vstd::prelude::*;

verus! {

proof fn lemma_dot(c: KeyerConfig)
    ensures
        ({
            let wpm = if c.speed_wpm == 0 {
                1
            } else {
                c.speed_wpm as int
            };
            &&& c.dot_us() * wpm <= 1_200_000 < (c.dot_us() + 1) * wpm
            &&& 0 < c.dot_us() <= 1_200_000
        }),
{
    let wpm = max_int(c.speed_wpm as int, 1);
    let dot = c.dot_us();
    assert(dot * wpm <= 1_200_000 < (dot + 1) * wpm && 0 < dot <= 1_200_000) by (nonlinear_arith)
        requires
            dot == 1_200_000int / wpm,
            1 <= wpm <= 255,
    ;
}

/// At a speed of one word per minute a dit lasts 1.2 s, since a standard word is fifty
/// dits long; at other speeds it is that much shorter, in whole microseconds. A speed
/// of 0 counts as 1. A gap within a letter is as long as a dit.
pub proof fn lemma_dit_follows_speed(c: KeyerConfig, us: u32, gap: u32)
    requires
        call_ensures(KeyerConfig::dot_duration_us, (&c,), us),
        call_ensures(KeyerConfig::element_gap_us, (&c,), gap),
    ensures
        c.speed_wpm == 0 ==> us == 1_200_000,
        c.speed_wpm > 0 ==> 50 * us * c.speed_wpm <= 60_000_000 < 50 * (us + 1) * c.speed_wpm,
        gap == us,
{
    lemma_dot(c);
    if c.speed_wpm > 0 {
        let w = c.speed_wpm as int;
        let u = us as int;
        assert(50 * u * w == 50 * (u * w) && 50 * (u + 1) * w == 50 * ((u + 1) * w))
            by (nonlinear_arith);
    }
}

proof fn lemma_scaled(x: int, y: int, e: int, k: int)
    requires
        -e <= x - y <= e,
        k >= 0,
    ensures
        -(k * e) <= k * x - k * y <= k * e,
{
    assert(-(k * e) <= k * x - k * y <= k * e) by (nonlinear_arith)
        requires
            -e <= x - y <= e,
            k >= 0,
    ;
}

proof fn lemma_small_error(num: nat, den: nat, bound: int)
    requires
        den > 0,
        num <= bound * 0x20_0000_0000_0000,
        den <= 2 * bound,
    ensures
        -bound <= num - nearest_double_spec(num, den) * den <= bound,
{
    lemma_rounding_error(num, den);
    let off = distance(num as int, (nearest_double_spec(num, den) * den) as int);
    assert(off <= bound) by (nonlinear_arith)
        requires
            2 * off <= den || 0x20_0000_0000_0000 * off <= num,
            num <= bound * 0x20_0000_0000_0000,
            den <= 2 * bound,
    ;
}

/// `length`, which is close to `total / parts`, lies between two whole numbers of
/// units as that does.
proof fn lemma_floor_of_close(length: int, total: int, parts: int, whole: int, e: int)
    requires
        -e <= parts * length - total * ONE <= e,
        0 <= e < ONE,
        whole == length / ONE as int,
        parts > 0,
        length >= 0,
    ensures
        parts * whole <= total <= parts * (whole + 1),
{
    let one = ONE as int;
    assert(whole * one <= length < (whole + 1) * one) by (nonlinear_arith)
        requires
            whole == length / one,
            one > 0,
    ;
    assert(parts * whole <= total <= parts * (whole + 1)) by (nonlinear_arith)
        requires
            -e <= parts * length - total * one <= e,
            0 <= e < one,
            whole * one <= length < (whole + 1) * one,
            parts > 0,
    {
        assert(parts * whole * one <= parts * length);
        assert(parts * length <= parts * (whole + 1) * one);
        assert(parts * whole * one < (total + 1) * one);
        assert((total - 1) * one < parts * (whole + 1) * one);
        assert(parts * whole < total + 1);
        assert(total - 1 < parts * (whole + 1));
    }
}

proof fn lemma_weighted(dot: nat, weight: nat)
    requires
        0 < dot <= 1_200_000,
        weight <= 255,
    ensures
        25 * weighted_dash_us(dot, weight) <= dot * (25 + weight) <= 25 * (weighted_dash_us(
            dot,
            weight,
        ) + 1),
{
    reveal(weighted_dash_us);
    let one = ONE as int;
    let w = nearest_double_spec(weight * ONE as nat, 50);
    lemma_small_error(weight * ONE as nat, 50, 0x8_0000);
    let factor = nearest_double_spec(ONE as nat + 2 * w, 1);
    lemma_small_error(ONE as nat + 2 * w, 1, 0x1_0000);
    let f = factor as int;
    let x = (25 + weight) * one;
    assert(-0x100_0000 <= 25 * f - x <= 0x100_0000);
    let d = dot as int;
    lemma_scaled(25 * f, x, 0x100_0000, d);
    assert(d * 0x100_0000 <= 0x2000_0000_0000) by (nonlinear_arith)
        requires
            d <= 1_200_000,
    ;
    assert(dot * factor <= 1_200_000 * (16 * one)) by (nonlinear_arith)
        requires
            dot <= 1_200_000,
            factor <= 16 * one,
    ;
    let length = nearest_double_spec(dot * factor, 1);
    lemma_small_error(dot * factor, 1, 0x100_0000_0000);
    assert(d * (25 * f) == 25 * (dot * factor)) by (nonlinear_arith)
        requires
            d == dot,
            f == factor,
    ;
    let total = d * (25 + weight);
    assert(d * x == total * one) by (nonlinear_arith)
        requires
            x == (25 + weight) * one,
            total == d * (25 + weight),
    ;
    lemma_floor_of_close(
        length as int,
        total,
        25,
        weighted_dash_us(dot, weight) as int,
        0x4000_0000_0000,
    );
}

proof fn lemma_dynamic_cut(above: nat, span: nat) -> (cut: nat)
    requires
        0 < above <= 255,
        0 < span <= 255,
    ensures
        ({
            let quotient = nearest_double_spec(above * ONE as nat, span);
            let t = if quotient > ONE {
                ONE as nat
            } else {
                quotient
            };
            let a = if above < span {
                above
            } else {
                span
            };
            &&& cut == nearest_double_spec(t * SIX_TENTHS as nat, ONE as nat)
            &&& cut <= ONE
            &&& -0x400_0000 <= 5 * span * cut - 3 * a * ONE <= 0x400_0000
        }),
{
    let one = ONE as int;
    let quotient = nearest_double_spec(above * ONE as nat, span);
    let t = if quotient > ONE {
        ONE as nat
    } else {
        quotient
    };
    let a: nat = if above < span {
        above
    } else {
        span
    };
    lemma_ulp_of_whole(1);
    assert(1 * ONE as nat == ONE as nat);
    assert(is_double(ONE as nat));
    let sp = span as int;
    let ti = t as int;
    assert(-0x8_0000 <= sp * ti - a * one <= 0x8_0000) by {
        if above < span {
            assert(above * ONE as nat <= ONE as nat * span) by (nonlinear_arith)
                requires
                    above < span,
            ;
            lemma_rounds_at_most(above * ONE as nat, span, ONE as nat);
            lemma_small_error(above * ONE as nat, span, 0x8_0000);
            assert(quotient * span == sp * ti) by (nonlinear_arith)
                requires
                    sp == span,
                    ti == quotient,
            ;
        } else {
            assert(above * ONE as nat >= ONE as nat * span) by (nonlinear_arith)
                requires
                    above >= span,
            ;
            lemma_rounds_at_least(above * ONE as nat, span, ONE as nat);
            assert(ti == one);
        }
    }
    let st = SIX_TENTHS as int;
    assert(5 * st == 3 * one - 0x800);
    let prod = t * SIX_TENTHS as nat;
    assert(prod <= 0x1_0000_0000_0000_0000 * 0xa000_0000_0000_0000) by (nonlinear_arith)
        requires
            prod == t * SIX_TENTHS as nat,
            t <= 0x1_0000_0000_0000_0000,
            SIX_TENTHS <= 0xa000_0000_0000_0000,
    ;
    let cut = nearest_double_spec(prod, ONE as nat);
    lemma_small_error(prod, ONE as nat, 0x1000 * ONE as int);
    let cu = cut as int;
    let p = prod as int;
    assert(p == ti * st) by (nonlinear_arith)
        requires
            p == t * SIX_TENTHS as nat,
            ti == t,
            st == SIX_TENTHS,
    ;
    assert(-0x400_0000 <= 5 * sp * cu - 3 * a * one <= 0x400_0000 && cu <= one) by (nonlinear_arith)
        requires
            one == 0x1_0000_0000_0000_0000,
            5 * st == 3 * one - 0x800,
            p == ti * st,
            0 <= ti <= one,
            1 <= sp <= 255,
            0 <= a <= 255,
            cu >= 0,
            -(0x1000 * one) <= p - cu * one <= 0x1000 * one,
            -0x8_0000 <= sp * ti - a * one <= 0x8_0000,
    {
        let e = sp * ti - a * one;
        assert(5 * sp * p == (sp * ti) * (5 * st));
        assert((sp * ti) * (5 * st) == (a * one + e) * (3 * one - 0x800));
        assert((a * one + e) * (3 * one - 0x800) == 3 * a * one * one - 0x800 * a * one + e * (3
            * one - 0x800));
        assert(-0x8_0000 * (3 * one) <= e * (3 * one - 0x800) <= 0x8_0000 * (3 * one));
        assert(5 * sp * (p - cu * one) <= 5 * 255 * 0x1000 * one);
        assert(5 * sp * (p - cu * one) >= -(5 * 255 * 0x1000 * one));
        assert(5 * sp * (p - cu * one) == 5 * sp * p - 5 * sp * cu * one);
        let g = 5 * sp * cu - 3 * a * one;
        assert(g * one == 5 * sp * cu * one - 3 * a * one * one);
        assert(g * one <= 0x400_0000 * one);
        assert(g * one >= -(0x400_0000 * one));
        assert(5 * p == ti * (3 * one - 0x800));
        assert(5 * p <= 3 * one * one);
        assert(cu * one <= p + 0x1000 * one);
        assert(5 * cu * one <= 3 * one * one + 5 * 0x1000 * one);
        assert(5 * cu <= 3 * one + 5 * 0x1000);
    }
    cut
}

proof fn lemma_dynamic(dot: nat, above: nat, span: nat)
    requires
        0 < dot <= 1_200_000,
        0 < above <= 255,
        0 < span <= 255,
    ensures
        ({
            let a = if above < span {
                above
            } else {
                span
            };
            let dash = dynamic_dash_us(dot, above, span);
            5 * span * dash <= dot * (15 * span - 3 * a) <= 5 * span * (dash + 1)
        }),
{
    reveal(dynamic_dash_us);
    let one = ONE as int;
    let a: nat = if above < span {
        above
    } else {
        span
    };
    let cut = lemma_dynamic_cut(above, span);
    let left = (3 * ONE - cut) as nat;
    let ratio = nearest_double_spec(left, 1);
    lemma_small_error(left, 1, 0x2000);
    let sp = span as int;
    let d = dot as int;
    let r = ratio as int;
    let x = (15 * sp - 3 * a) * one;
    assert(-0x800_0000 <= 5 * sp * r - x <= 0x800_0000) by (nonlinear_arith)
        requires
            1 <= sp <= 255,
            -0x2000 <= 3 * one - cut - r <= 0x2000,
            -0x400_0000 <= 5 * sp * cut - 3 * a * one <= 0x400_0000,
            x == (15 * sp - 3 * a) * one,
    {
        assert(5 * sp * (3 * one - cut - r) <= 5 * 255 * 0x2000);
        assert(5 * sp * (3 * one - cut - r) >= -(5 * 255 * 0x2000));
        assert(5 * sp * (3 * one - cut - r) == 15 * sp * one - 5 * sp * cut - 5 * sp * r);
    }
    lemma_scaled(5 * sp * r, x, 0x800_0000, d);
    assert(d * 0x800_0000 <= 0x1_0000_0000_0000) by (nonlinear_arith)
        requires
            d <= 1_200_000,
    ;
    assert(dot * ratio <= 1_200_000 * (4 * one)) by (nonlinear_arith)
        requires
            dot <= 1_200_000,
            ratio <= 4 * one,
    ;
    let length = nearest_double_spec(dot * ratio, 1);
    lemma_small_error(dot * ratio, 1, 0x40_0000_0000);
    lemma_scaled((dot * ratio) as int, length as int, 0x40_0000_0000, 5 * sp);
    let parts = 5 * sp;
    assert(d * (5 * sp * r) == parts * (dot * ratio)) by (nonlinear_arith)
        requires
            d == dot,
            r == ratio,
            parts == 5 * sp,
    ;
    let total = d * (15 * sp - 3 * a);
    assert(d * x == total * one) by (nonlinear_arith)
        requires
            x == (15 * sp - 3 * a) * one,
            total == d * (15 * sp - 3 * a),
    ;
    let dash = dynamic_dash_us(dot, above, span) as int;
    lemma_floor_of_close(length as int, total, parts, dash, 0x10_0000_0000_0000);
    assert(5 * span * dash == parts * dash && 5 * span * (dash + 1) == parts * (dash + 1))
        by (nonlinear_arith)
        requires
            parts == 5 * span,
    ;
}

/// A dash follows the weight: it is longer than a dit by a twenty-fifth of a dit for
/// each step, so that 50 makes it three dits long, in whole microseconds.
pub proof fn lemma_dash_follows_weight(c: KeyerConfig, dot: u32, dash: u32)
    requires
        call_ensures(KeyerConfig::dot_duration_us, (&c,), dot),
        call_ensures(KeyerConfig::dash_duration_us, (&c,), dash),
        !c.dynamic_ratio || c.speed_wpm <= c.dynamic_ratio_low_wpm,
    ensures
        25 * dash <= dot * (25 + c.weight) <= 25 * (dash + 1),
{
    lemma_dot(c);
    lemma_weighted(dot as nat, c.weight as nat);
}

/// With a dynamic ratio a dash shrinks from three dits at the lower anchor to 2.4 dits
/// at the upper one and above, in proportion to the speed in between, in whole
/// microseconds. An upper anchor that is not above the lower one counts as one above
/// it.
pub proof fn lemma_dynamic_dash_follows_speed(c: KeyerConfig, dot: u32, dash: u32)
    requires
        call_ensures(KeyerConfig::dot_duration_us, (&c,), dot),
        call_ensures(KeyerConfig::dash_duration_us, (&c,), dash),
        c.dynamic_ratio,
        c.speed_wpm > c.dynamic_ratio_low_wpm,
    ensures
        ({
            let low = c.dynamic_ratio_low_wpm as int;
            let span = if c.dynamic_ratio_high_wpm > low {
                c.dynamic_ratio_high_wpm - low
            } else {
                1
            };
            let above = if c.speed_wpm - low < span {
                c.speed_wpm - low
            } else {
                span
            };
            5 * span * dash <= dot * (15 * span - 3 * above) <= 5 * span * (dash + 1)
        }),
{
    lemma_dot(c);
    let low = c.dynamic_ratio_low_wpm as int;
    let high = max_int(c.dynamic_ratio_high_wpm as int, low + 1);
    lemma_dynamic(dot as nat, (c.speed_wpm - low) as nat, (high - low) as nat);
}

/// Keying compensation lengthens dits and dashes alike, by its milliseconds.
pub proof fn lemma_compensation_lengthens_marks(
    c: KeyerConfig,
    dot: u32,
    dash: u32,
    long_dot: u32,
    long_dash: u32,
)
    requires
        call_ensures(KeyerConfig::dot_duration_us, (&c,), dot),
        call_ensures(KeyerConfig::dash_duration_us, (&c,), dash),
        call_ensures(KeyerConfig::effective_dot_duration_us, (&c,), long_dot),
        call_ensures(KeyerConfig::effective_dash_duration_us, (&c,), long_dash),
    ensures
        long_dot - dot == 1000 * c.keying_compensation_ms,
        long_dash - dash == 1000 * c.keying_compensation_ms,
        c.element_us(false) == long_dot,
        c.element_us(true) == long_dash,
{
}

/// Without Farnsworth spacing letters are three dits apart and words seven.
pub proof fn lemma_gaps_are_three_and_seven_dits(c: KeyerConfig, dot: u32, letter: u32, word: u32)
    requires
        call_ensures(KeyerConfig::dot_duration_us, (&c,), dot),
        call_ensures(KeyerConfig::letter_gap_us, (&c,), letter),
        call_ensures(KeyerConfig::word_gap_us, (&c,), word),
        c.farnsworth_wpm == 0 || c.farnsworth_wpm >= c.speed_wpm,
    ensures
        letter == 3 * dot,
        word == 7 * dot,
{
}

/// Farnsworth spacing gives a standard word the time of the slower speed. The word has
/// marks and gaps within letters of 31 dits, four gaps between letters and one behind
/// the word, 19 units in all; with the dits at the keying speed it lasts as long as
/// fifty dits at the slower speed, to within the 19 microseconds that rounding a unit
/// down may take. The gaps stay three and seven units long.
pub proof fn lemma_farnsworth_word_takes_its_time(c: KeyerConfig, letter: u32, word: u32)
    requires
        call_ensures(KeyerConfig::letter_gap_us, (&c,), letter),
        call_ensures(KeyerConfig::word_gap_us, (&c,), word),
        0 < c.farnsworth_wpm < c.speed_wpm,
    ensures
        7 * letter == 3 * word,
        ({
            let s = c.speed_wpm as int;
            let f = c.farnsworth_wpm as int;
            let gaps = 4 * letter + word;
            let spent = 31 * (1_200_000 * f) + gaps * s * f;
            let due = 50 * (1_200_000 * s);
            due - 19 * s * f < spent <= due
        }),
{
    let s = c.speed_wpm as int;
    let f = c.farnsworth_wpm as int;
    let unit = c.gap_unit_us();
    let num = 1_200_000 * (50 * s - 31 * f);
    let den = 19 * s * f;
    assert(den > 0) by (nonlinear_arith)
        requires
            den == 19 * s * f,
            0 < f < s,
    ;
    assert(unit * den <= num < (unit + 1) * den) by (nonlinear_arith)
        requires
            unit == num / den,
            den > 0,
    ;
    let gaps = 4 * letter + word;
    assert(gaps == 19 * unit);
    assert(gaps * s * f == unit * den && (unit + 1) * den == unit * den + den) by (nonlinear_arith)
        requires
            gaps == 19 * unit,
            den == 19 * s * f,
    ;
}

/// Durations in milliseconds are the whole milliseconds of those in microseconds.
pub proof fn lemma_milliseconds_are_whole(
    c: KeyerConfig,
    dot: (u32, u32),
    dash: (u32, u32),
    long_dot: (u32, u32),
    long_dash: (u32, u32),
)
    requires
        call_ensures(KeyerConfig::dot_duration_us, (&c,), dot.0),
        call_ensures(KeyerConfig::dot_duration_ms, (&c,), dot.1),
        call_ensures(KeyerConfig::dash_duration_us, (&c,), dash.0),
        call_ensures(KeyerConfig::dash_duration_ms, (&c,), dash.1),
        call_ensures(KeyerConfig::effective_dot_duration_us, (&c,), long_dot.0),
        call_ensures(KeyerConfig::effective_dot_duration_ms, (&c,), long_dot.1),
        call_ensures(KeyerConfig::effective_dash_duration_us, (&c,), long_dash.0),
        call_ensures(KeyerConfig::effective_dash_duration_ms, (&c,), long_dash.1),
    ensures
        1000 * dot.1 <= dot.0 < 1000 * dot.1 + 1000,
        1000 * dash.1 <= dash.0 < 1000 * dash.1 + 1000,
        1000 * long_dot.1 <= long_dot.0 < 1000 * long_dot.1 + 1000,
        1000 * long_dash.1 <= long_dash.0 < 1000 * long_dash.1 + 1000,
{
}

/// The same of the gaps.
pub proof fn lemma_gap_milliseconds_are_whole(
    c: KeyerConfig,
    element: (u32, u32),
    letter: (u32, u32),
    word: (u32, u32),
)
    requires
        call_ensures(KeyerConfig::element_gap_us, (&c,), element.0),
        call_ensures(KeyerConfig::element_gap_ms, (&c,), element.1),
        call_ensures(KeyerConfig::letter_gap_us, (&c,), letter.0),
        call_ensures(KeyerConfig::letter_gap_ms, (&c,), letter.1),
        call_ensures(KeyerConfig::word_gap_us, (&c,), word.0),
        call_ensures(KeyerConfig::word_gap_ms, (&c,), word.1),
    ensures
        1000 * element.1 <= element.0 < 1000 * element.1 + 1000,
        1000 * letter.1 <= letter.0 < 1000 * letter.1 + 1000,
        1000 * word.1 <= word.0 < 1000 * word.1 + 1000,
{
}

} // verus!
