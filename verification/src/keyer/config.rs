//! Keyer configuration and the timing that follows from it.

use crate::double::{
    is_double, lemma_rounding_scales, lemma_rounds_at_least, lemma_rounds_at_most,
    lemma_ulp_of_whole, lemma_whole_is_exact, nearest_double, nearest_double_spec, ulp, ONE,
};
use vstd::prelude::*;

verus! {

/// Keyer operating mode.
#[derive(Debug, Clone, Copy, PartialEq, Eq, Structural)]
pub enum KeyerMode {
    Straight,
    IambicA,
    IambicB,
    Bug,
    Ultimatic,
    /// A short tap is a dit, holding past the length of a dit makes a dash;
    /// holding on repeats dashes.
    SinglePaddle,
}

/// Serial line that carries a paddle signal.
#[derive(Debug, Clone, Copy, PartialEq, Eq, Structural)]
pub enum SerialPin {
    CTS,
    DSR,
    DCD,
    RI,
}

/// How keyer activity is put onto USB transports.
#[derive(Debug, Clone, Copy, PartialEq, Eq, Structural)]
pub enum UsbEmitStyle {
    /// Raw paddle edges: two MIDI notes and two serial bits.
    Paddle,
    /// The keyed signal: one MIDI note and one serial bit.
    Keyed,
}

/// Kind of MIDI message that carries a paddle signal.
#[derive(Debug, Clone, Copy, PartialEq, Eq, Structural)]
pub enum MidiBindKind {
    NoteOn,
    ControlChange,
}

/// A MIDI button bound to a paddle.
#[derive(Debug, Clone, Copy, PartialEq, Eq, Structural)]
pub struct MidiBinding {
    pub channel: u8,
    pub kind: MidiBindKind,
    pub number: u8,
}

/// Bit pattern of the single-precision number 0.7.
pub const DEFAULT_VOLUME_BITS: u32 = 0x3f33_3333;

/// Keyer configuration.
#[derive(Debug, Clone)]
pub struct KeyerConfig {
    /// Operating mode.
    pub mode: KeyerMode,
    /// Sending speed in words per minute.
    pub speed_wpm: u8,
    /// Weighting; 50 makes a dash three dits long.
    pub weight: u8,
    /// Sidetone frequency in Hz.
    pub sidetone_freq: u32,
    /// Sidetone volume, 0 to 1, as the bit pattern of a single-precision number.
    pub sidetone_volume: u32,
    /// Sidetone delay relative to key-down.
    pub sidetone_delay_ms: i32,
    /// Time from the last key-up to the end of transmission.
    pub hang_time_ms: u32,
    /// Swap the paddles.
    pub keys_reversed: bool,
    /// Enforce letter spacing in the iambic modes.
    pub auto_spacing: bool,
    /// Serial port device path.
    pub serial_port: Option<String>,
    /// Serial line of the dit paddle.
    pub dit_pin: SerialPin,
    /// Serial line of the dash paddle.
    pub dash_pin: SerialPin,
    /// Keyboard key of the dit paddle.
    pub dit_key: Option<char>,
    /// Keyboard key of the dash paddle.
    pub dash_key: Option<char>,
    /// MIDI input device name.
    pub midi_device: Option<String>,
    /// MIDI binding of the dit paddle.
    pub midi_dit: Option<MidiBinding>,
    /// MIDI binding of the dash paddle.
    pub midi_dah: Option<MidiBinding>,
    /// Part of an element in percent, counted from its end, in which the
    /// opposite paddle is not remembered. Other modes than iambic B ignore it.
    pub iambic_b_timing_percent: u8,
    /// Farnsworth spacing speed; 0 turns it off.
    pub farnsworth_wpm: u8,
    /// Time by which every element is lengthened.
    pub keying_compensation_ms: u8,
    /// Shorten dashes at high speed.
    pub dynamic_ratio: bool,
    /// Speed up to which a dash is three dits long.
    pub dynamic_ratio_low_wpm: u8,
    /// Speed from which a dash is 2.4 dits long.
    pub dynamic_ratio_high_wpm: u8,
    /// Eight macro texts.
    pub macros: [String; 8],
    /// How keyer activity is put onto USB transports.
    pub usb_emit_style: UsbEmitStyle,
    /// Whether decoded text is displayed.
    pub decoder_enabled: bool,
}

impl Default for KeyerConfig {
    fn default() -> (c: Self)
        ensures
            c.mode is IambicB,
            c.speed_wpm == 18,
            c.weight == 50,
            c.sidetone_freq == 600,
            c.sidetone_volume == DEFAULT_VOLUME_BITS,
            c.sidetone_delay_ms == 0,
            c.hang_time_ms == 300,
            !c.keys_reversed,
            !c.auto_spacing,
            c.serial_port is None,
            c.dit_pin is CTS,
            c.dash_pin is DSR,
            c.dit_key == Some('z'),
            c.dash_key == Some('x'),
            c.midi_device is None,
            c.midi_dit is None,
            c.midi_dah is None,
            c.iambic_b_timing_percent == 33,
            c.farnsworth_wpm == 0,
            c.keying_compensation_ms == 0,
            !c.dynamic_ratio,
            c.dynamic_ratio_low_wpm == 30,
            c.dynamic_ratio_high_wpm == 70,
            forall|i: int| 0 <= i < 8 ==> (#[trigger] c.macros[i])@ == Seq::<char>::empty(),
            c.usb_emit_style is Paddle,
            c.decoder_enabled,
    {
        KeyerConfig {
            mode: KeyerMode::IambicB,
            speed_wpm: 18,
            weight: 50,
            sidetone_freq: 600,
            sidetone_volume: DEFAULT_VOLUME_BITS,
            sidetone_delay_ms: 0,
            hang_time_ms: 300,
            keys_reversed: false,
            auto_spacing: false,
            serial_port: None,
            dit_pin: SerialPin::CTS,
            dash_pin: SerialPin::DSR,
            dit_key: Some('z'),
            dash_key: Some('x'),
            midi_device: None,
            midi_dit: None,
            midi_dah: None,
            iambic_b_timing_percent: 33,
            farnsworth_wpm: 0,
            keying_compensation_ms: 0,
            dynamic_ratio: false,
            dynamic_ratio_low_wpm: 30,
            dynamic_ratio_high_wpm: 70,
            macros: [
                String::new(),
                String::new(),
                String::new(),
                String::new(),
                String::new(),
                String::new(),
                String::new(),
                String::new(),
            ],
            usb_emit_style: UsbEmitStyle::Paddle,
            decoder_enabled: true,
        }
    }
}

/// The double nearest to 0.6, in units of 2^-64.
pub const SIX_TENTHS: u128 = 0x9999_9999_9999_9800;

/// The larger of two integers.
pub open spec fn max_int(a: int, b: int) -> int {
    if a >= b {
        a
    } else {
        b
    }
}

/// The smaller of two integers.
pub open spec fn min_int(a: int, b: int) -> int {
    if a <= b {
        a
    } else {
        b
    }
}

/// Dash length for a weight, `dot * (1.0 + 2.0 * (weight / 50.0))` computed in
/// double precision and truncated.
#[verifier::opaque]
pub open spec fn weighted_dash_us(dot: nat, weight: nat) -> nat {
    let w = nearest_double_spec(weight * ONE as nat, 50);
    let factor = nearest_double_spec(ONE as nat + 2 * w, 1);
    nearest_double_spec(dot * factor, 1) / ONE as nat
}

/// Dash length `above` words per minute above the lower anchor of a dynamic
/// ratio whose anchors are `span` apart, `dot * (3.0 - 0.6 * t)` computed in
/// double precision and truncated, with `t` the quotient `above / span`, at
/// most 1.0.
#[verifier::opaque]
pub open spec fn dynamic_dash_us(dot: nat, above: nat, span: nat) -> nat {
    let quotient = nearest_double_spec(above * ONE as nat, span);
    let t = if quotient > ONE {
        ONE as nat
    } else {
        quotient
    };
    let cut = nearest_double_spec(t * SIX_TENTHS as nat, ONE as nat);
    let ratio = nearest_double_spec((3 * ONE - cut) as nat, 1);
    nearest_double_spec(dot * ratio, 1) / ONE as nat
}

impl KeyerConfig {
    /// Length of a dit.
    pub open spec fn dot_us(&self) -> int {
        1_200_000int / max_int(self.speed_wpm as int, 1)
    }

    /// Length of a dash.
    pub open spec fn dash_us(&self) -> int {
        if self.dynamic_ratio && self.speed_wpm > self.dynamic_ratio_low_wpm {
            let low = self.dynamic_ratio_low_wpm as int;
            let high = max_int(self.dynamic_ratio_high_wpm as int, low + 1);
            dynamic_dash_us(
                self.dot_us() as nat,
                (self.speed_wpm - low) as nat,
                (high - low) as nat,
            ) as int
        } else {
            weighted_dash_us(self.dot_us() as nat, self.weight as nat) as int
        }
    }

    /// Time by which every element is lengthened.
    pub open spec fn compensation_us(&self) -> int {
        self.keying_compensation_ms * 1000
    }

    /// Time that an element keeps the key down.
    pub open spec fn element_us(&self, is_dash: bool) -> int {
        self.compensation_us() + if is_dash {
            self.dash_us()
        } else {
            self.dot_us()
        }
    }

    /// Whether Farnsworth spacing is on.
    pub open spec fn farnsworth_on(&self) -> bool {
        0 < self.farnsworth_wpm < self.speed_wpm
    }

    /// Unit of the gaps between letters and words. With Farnsworth spacing the
    /// 31 units of the marks of a standard word keep their speed and the 19
    /// units of its gaps take the rest of the time that the slower speed gives.
    pub open spec fn gap_unit_us(&self) -> int {
        if self.farnsworth_on() {
            1_200_000 * (50 * self.speed_wpm - 31 * self.farnsworth_wpm) / (19 * self.speed_wpm
                * self.farnsworth_wpm)
        } else {
            self.dot_us()
        }
    }

    /// Hang time in microseconds, as far as it can be counted.
    pub open spec fn hang_us(&self) -> int {
        min_int(self.hang_time_ms * 1000, u32::MAX as int)
    }

    /// Duration of a dit element in microseconds.
    pub fn dot_duration_us(&self) -> (us: u32)
        ensures
            us == self.dot_us(),
            0 < us <= 1_200_000,
    {
        let speed: u32 = if self.speed_wpm == 0 {
            1
        } else {
            self.speed_wpm as u32
        };
        proof {
            lemma_dot_bounds(speed as int);
        }
        1_200_000 / speed
    }

    /// Duration of a dash element in microseconds, by weight or by dynamic ratio.
    pub fn dash_duration_us(&self) -> (us: u32)
        ensures
            us == self.dash_us(),
            us <= 200_000_000,
    {
        reveal(weighted_dash_us);
        reveal(dynamic_dash_us);
        let dot: u128 = self.dot_duration_us() as u128;
        if self.dynamic_ratio && self.speed_wpm > self.dynamic_ratio_low_wpm {
            let low: u8 = self.dynamic_ratio_low_wpm;
            let high: u8 = if self.dynamic_ratio_high_wpm > low {
                self.dynamic_ratio_high_wpm
            } else {
                low + 1
            };
            let above: u128 = (self.speed_wpm - low) as u128;
            let span: u128 = (high - low) as u128;
            proof {
                lemma_quotient_bound((above * ONE) as int, span as int, 255 * ONE as int);
            }
            let quotient: u128 = nearest_double(above * ONE, span);
            let t: u128 = if quotient > ONE {
                ONE
            } else {
                quotient
            };
            assert(t * SIX_TENTHS <= ONE * SIX_TENTHS) by (nonlinear_arith)
                requires
                    t <= ONE,
            ;
            proof {
                lemma_quotient_bound(
                    (t * SIX_TENTHS) as int,
                    ONE as int,
                    SIX_TENTHS as int,
                );
            }
            let cut: u128 = nearest_double(t * SIX_TENTHS, ONE);
            let ratio: u128 = nearest_double(3 * ONE - cut, 1);
            assert(dot * ratio <= 1_200_000 * (6 * ONE + 1)) by (nonlinear_arith)
                requires
                    dot <= 1_200_000,
                    ratio <= 6 * ONE + 1,
            ;
            let length: u128 = nearest_double(dot * ratio, 1);
            (length / ONE) as u32
        } else {
            proof {
                lemma_quotient_bound((self.weight * ONE) as int, 50, 6 * ONE as int);
            }
            let w: u128 = nearest_double(self.weight as u128 * ONE, 50);
            let factor: u128 = nearest_double(ONE + 2 * w, 1);
            assert(dot * factor <= 1_200_000 * (60 * ONE)) by (nonlinear_arith)
                requires
                    dot <= 1_200_000,
                    factor <= 60 * ONE,
            ;
            let length: u128 = nearest_double(dot * factor, 1);
            (length / ONE) as u32
        }
    }

    /// Dit duration with keying compensation in microseconds.
    pub fn effective_dot_duration_us(&self) -> (us: u32)
        ensures
            us == self.element_us(false),
    {
        self.dot_duration_us() + (self.keying_compensation_ms as u32) * 1000
    }

    /// Dash duration with keying compensation in microseconds.
    pub fn effective_dash_duration_us(&self) -> (us: u32)
        ensures
            us == self.element_us(true),
    {
        self.dash_duration_us() + (self.keying_compensation_ms as u32) * 1000
    }

    /// Gap between the elements of a letter in microseconds.
    pub fn element_gap_us(&self) -> (us: u32)
        ensures
            us == self.dot_us(),
    {
        self.dot_duration_us()
    }

    fn gap_unit(&self) -> (us: u32)
        ensures
            us == self.gap_unit_us(),
            us <= 4_000_000,
    {
        if self.farnsworth_wpm == 0 || self.farnsworth_wpm >= self.speed_wpm {
            return self.dot_duration_us();
        }
        let s: u64 = self.speed_wpm as u64;
        let f: u64 = self.farnsworth_wpm as u64;
        assert(19 * s * f >= 19 * s && 50 * s - 31 * f >= 0 && 19 * s * f <= 19 * 255 * 255)
            by (nonlinear_arith)
            requires
                1 <= f < s <= 255,
        ;
        let num: u64 = 1_200_000 * (50 * s - 31 * f);
        let den: u64 = 19 * s * f;
        assert(num <= 60_000_000 * s) by (nonlinear_arith)
            requires
                num == 1_200_000 * (50 * s - 31 * f),
        ;
        assert(num as int / den as int <= 4_000_000) by (nonlinear_arith)
            requires
                num <= 60_000_000 * s,
                den >= 19 * s,
                s >= 1,
        ;
        (num / den) as u32
    }

    /// Gap between letters in microseconds.
    pub fn letter_gap_us(&self) -> (us: u32)
        ensures
            us == 3 * self.gap_unit_us(),
    {
        self.gap_unit() * 3
    }

    /// Gap between words in microseconds.
    pub fn word_gap_us(&self) -> (us: u32)
        ensures
            us == 7 * self.gap_unit_us(),
    {
        self.gap_unit() * 7
    }

    /// Duration of a dit element in whole milliseconds.
    pub fn dot_duration_ms(&self) -> (ms: u32)
        ensures
            ms == self.dot_us() / 1000,
    {
        self.dot_duration_us() / 1000
    }

    /// Duration of a dash element in whole milliseconds.
    pub fn dash_duration_ms(&self) -> (ms: u32)
        ensures
            ms == self.dash_us() / 1000,
    {
        self.dash_duration_us() / 1000
    }

    /// Dit duration with keying compensation in whole milliseconds.
    pub fn effective_dot_duration_ms(&self) -> (ms: u32)
        ensures
            ms == self.element_us(false) / 1000,
    {
        self.effective_dot_duration_us() / 1000
    }

    /// Dash duration with keying compensation in whole milliseconds.
    pub fn effective_dash_duration_ms(&self) -> (ms: u32)
        ensures
            ms == self.element_us(true) / 1000,
    {
        self.effective_dash_duration_us() / 1000
    }

    /// Gap between the elements of a letter in whole milliseconds.
    pub fn element_gap_ms(&self) -> (ms: u32)
        ensures
            ms == self.dot_us() / 1000,
    {
        self.element_gap_us() / 1000
    }

    /// Gap between letters in whole milliseconds.
    pub fn letter_gap_ms(&self) -> (ms: u32)
        ensures
            ms == (3 * self.gap_unit_us()) / 1000,
    {
        self.letter_gap_us() / 1000
    }

    /// Gap between words in whole milliseconds.
    pub fn word_gap_ms(&self) -> (ms: u32)
        ensures
            ms == (7 * self.gap_unit_us()) / 1000,
    {
        self.word_gap_us() / 1000
    }
}

proof fn lemma_dot_bounds(speed: int)
    requires
        1 <= speed <= 255,
    ensures
        0 < 1_200_000int / speed <= 1_200_000,
{
    assert(0 < 1_200_000int / speed <= 1_200_000) by (nonlinear_arith)
        requires
            1 <= speed <= 255,
    ;
}

proof fn lemma_quotient_bound(num: int, den: int, bound: int)
    requires
        0 <= num,
        den > 0,
        num <= bound * den,
    ensures
        0 <= num / den <= bound,
{
    assert(0 <= num / den <= bound) by (nonlinear_arith)
        requires
            0 <= num,
            den > 0,
            num <= bound * den,
    ;
}

/// With the standard weight and without a dynamic ratio a dash is exactly three
/// dits long, at every speed.
pub proof fn lemma_standard_dash_is_three_dots(c: KeyerConfig)
    requires
        c.weight == 50,
        !c.dynamic_ratio,
    ensures
        c.dash_us() == 3 * c.dot_us(),
{
    reveal(weighted_dash_us);
    lemma_dot_bounds(max_int(c.speed_wpm as int, 1));
    let dot = c.dot_us() as nat;
    lemma_fifty_over_fifty();
    lemma_whole_is_exact(3);
    lemma_whole_is_exact(3 * dot);
    assert(dot * (3 * ONE as nat) == 3 * dot * ONE as nat) by (nonlinear_arith);
    assert((3 * dot * ONE as nat) / ONE as nat == 3 * dot) by (nonlinear_arith);
}

proof fn lemma_fifty_over_fifty()
    ensures
        nearest_double_spec(50 * ONE as nat, 50) == ONE,
{
    let one = ONE as nat;
    assert(1 * one == one);
    lemma_ulp_of_whole(1);
    lemma_rounding_scales(one, ulp(one), 50);
}

proof fn lemma_six_tenths_is_a_double()
    ensures
        is_double(SIX_TENTHS as nat),
{
    reveal_with_fuel(ulp, 13);
    assert(ulp(SIX_TENTHS as nat) == 0x800);
}

/// Largest double below 2.4, in units of 2^-64.
const BELOW_TWELVE_FIFTHS: u128 = 0x2_6666_6666_6666_6000;

proof fn lemma_below_twelve_fifths_is_a_double()
    ensures
        is_double(BELOW_TWELVE_FIFTHS as nat),
{
    reveal_with_fuel(ulp, 15);
    assert(ulp(BELOW_TWELVE_FIFTHS as nat) == 0x2000);
}

proof fn lemma_dynamic_ratio(above: nat, span: nat)
    requires
        span > 0,
    ensures
        ({
            let quotient = nearest_double_spec(above * ONE as nat, span);
            let t = if quotient > ONE {
                ONE as nat
            } else {
                quotient
            };
            let cut = nearest_double_spec(t * SIX_TENTHS as nat, ONE as nat);
            let ratio = nearest_double_spec((3 * ONE - cut) as nat, 1);
            BELOW_TWELVE_FIFTHS <= ratio <= 3 * ONE
        }),
{
    let quotient = nearest_double_spec(above * ONE as nat, span);
    let t = if quotient > ONE {
        ONE as nat
    } else {
        quotient
    };
    let cut = nearest_double_spec(t * SIX_TENTHS as nat, ONE as nat);
    assert(t * SIX_TENTHS as nat <= SIX_TENTHS as nat * ONE as nat) by (nonlinear_arith)
        requires
            t <= ONE,
    ;
    lemma_six_tenths_is_a_double();
    lemma_rounds_at_most(t * SIX_TENTHS as nat, ONE as nat, SIX_TENTHS as nat);
    let left = (3 * ONE - cut) as nat;
    lemma_below_twelve_fifths_is_a_double();
    lemma_rounds_at_least(left, 1, BELOW_TWELVE_FIFTHS as nat);
    lemma_ulp_of_whole(3);
    lemma_rounds_at_most(left, 1, 3 * ONE as nat);
}

/// With a dynamic ratio a dash is at most three dits long and at least 2.4 dits,
/// less a fraction of a microsecond.
pub proof fn lemma_dynamic_ratio_is_bounded(c: KeyerConfig)
    requires
        c.dynamic_ratio,
        c.speed_wpm > c.dynamic_ratio_low_wpm,
    ensures
        12 * c.dot_us() - 5 <= 5 * c.dash_us() <= 15 * c.dot_us(),
{
    reveal(dynamic_dash_us);
    lemma_dot_bounds(max_int(c.speed_wpm as int, 1));
    let dot = c.dot_us() as nat;
    let low = c.dynamic_ratio_low_wpm as int;
    let high = max_int(c.dynamic_ratio_high_wpm as int, low + 1);
    let above = (c.speed_wpm - low) as nat;
    let span = (high - low) as nat;
    lemma_dynamic_ratio(above, span);
    let quotient = nearest_double_spec(above * ONE as nat, span);
    let t = if quotient > ONE {
        ONE as nat
    } else {
        quotient
    };
    let cut = nearest_double_spec(t * SIX_TENTHS as nat, ONE as nat);
    let ratio = nearest_double_spec((3 * ONE - cut) as nat, 1);
    let one = ONE as nat;
    let floor = BELOW_TWELVE_FIFTHS as nat;
    let k = dot * floor / one;
    assert(dot * ratio >= k * one && dot * ratio <= 3 * dot * one && 5 * k >= 12 * dot - 5 && k
        < 3 * dot + 1) by (nonlinear_arith)
        requires
            floor <= ratio <= 3 * one,
            k == dot * floor / one,
            one == 0x1_0000_0000_0000_0000,
            floor == 0x2_6666_6666_6666_6000,
            0 < dot <= 1_200_000,
    {
        assert(dot * floor <= dot * ratio);
        assert(dot * ratio <= dot * (3 * one));
        assert(k * one <= dot * floor);
        assert(dot * floor < (k + 1) * one);
        assert(5 * floor >= 12 * one - 0x10000);
        assert(5 * (dot * floor) >= 12 * dot * one - 0x10000 * dot);
        assert(12 * dot * one - 0x10000 * dot < 5 * (k + 1) * one);
        assert(0x10000 * dot < one);
    }
    lemma_ulp_of_whole(k);
    lemma_rounds_at_least(dot * ratio, 1, k * one);
    lemma_ulp_of_whole(3 * dot);
    lemma_rounds_at_most(dot * ratio, 1, 3 * dot * one);
    let rounded = nearest_double_spec(dot * ratio, 1);
    assert(k <= rounded / one <= 3 * dot) by (nonlinear_arith)
        requires
            k * one <= rounded <= 3 * dot * one,
            one > 0,
    ;
}

/// A dash is never shorter than a dit.
pub proof fn lemma_dash_is_no_shorter(c: KeyerConfig)
    ensures
        c.dash_us() >= c.dot_us(),
{
    lemma_dot_bounds(max_int(c.speed_wpm as int, 1));
    let dot = c.dot_us() as nat;
    if c.dynamic_ratio && c.speed_wpm > c.dynamic_ratio_low_wpm {
        lemma_dynamic_ratio_is_bounded(c);
    } else {
        reveal(weighted_dash_us);
        let one = ONE as nat;
        let w = nearest_double_spec(c.weight as nat * one, 50);
        let factor = nearest_double_spec(one + 2 * w, 1);
        lemma_ulp_of_whole(1);
        lemma_rounds_at_least(one + 2 * w, 1, one);
        assert(dot * factor >= dot * one) by (nonlinear_arith)
            requires
                factor >= one,
        ;
        lemma_ulp_of_whole(dot);
        lemma_rounds_at_least(dot * factor, 1, dot * one);
        let rounded = nearest_double_spec(dot * factor, 1);
        assert(rounded / one >= dot) by (nonlinear_arith)
            requires
                rounded >= dot * one,
                one > 0,
        ;
    }
}

/// Farnsworth spacing only ever stretches: its gap unit is at least a dit.
pub proof fn lemma_farnsworth_stretches(c: KeyerConfig)
    ensures
        c.gap_unit_us() >= c.dot_us(),
{
    if c.farnsworth_on() {
        let s = c.speed_wpm as int;
        let f = c.farnsworth_wpm as int;
        assert(1_200_000 * (50 * s - 31 * f) / (19 * s * f) >= 1_200_000int / s) by (nonlinear_arith)
            requires
                1 <= f < s <= 255,
        {
            let d = 1_200_000int / s;
            assert(d * s <= 1_200_000);
            assert(d * (19 * s * f) == 19 * f * (d * s));
            assert(19 * f * (d * s) <= 19 * f * 1_200_000);
            assert(19 * f * 1_200_000 <= 1_200_000 * (50 * s - 31 * f));
            assert(19 * s * f > 0);
        }
    }
}

} // verus!
