//! Which transmissions a receiver hears.

use crate::double::distance;
use crate::emulator::echo::{
    is_in_band, live_freqs, loop_freqs, EchoBuffer, EchoMode, EchoModel, EchoPlaybackState,
    LiveSegment, LoopSegment, PlaybackModel,
};
use crate::emulator::protocol1::{has_echo, plan_subframe, plays, ClientState, DdcEcho};
use vstd::prelude::*;

verus! {

/// A sample rate that the radio has.
pub open spec fn is_radio_rate(rate: u32) -> bool {
    rate == 48_000 || rate == 96_000 || rate == 192_000 || rate == 384_000
}

/// A receiver covers half its sample rate to each side of its frequency: what is no
/// further away is in its band, and nothing else. The band widens with the rate.
pub proof fn lemma_band_is_half_the_rate_each_way(
    rx_freq: u32,
    freq: u32,
    rate: u32,
    hit: bool,
)
    requires
        call_ensures(is_in_band, (rx_freq, freq, rate), hit),
    ensures
        hit <==> 2 * distance(rx_freq as int, freq as int) <= rate,
        is_radio_rate(rate) ==> (hit <==> distance(rx_freq as int, freq as int) <= rate as int / 2),
{
}

/// The frequencies that an echo is on.
pub open spec fn frequencies_heard(echo: DdcEcho) -> Seq<u32> {
    match echo {
        DdcEcho::Silent => Seq::empty(),
        DdcEcho::Loop(segments) => loop_freqs(segments@),
        DdcEcho::Live(segments) => live_freqs(segments@),
    }
}

/// The frequencies on which there is something to hear.
pub open spec fn is_on_air(m: EchoModel, freq: u32) -> bool {
    match m.mode {
        EchoMode::Loop => m.loops.contains_key(freq),
        EchoMode::Live => m.live.contains_key(freq),
    }
}

/// What is on the air is heard by a receiver exactly when it is no further away than
/// half the sample rate, and it is heard once.
pub proof fn lemma_heard_within_half_the_rate(
    m: EchoModel,
    ps: PlaybackModel,
    echo: DdcEcho,
    rx_freq: u32,
    rate: u32,
    n: nat,
    freq: u32,
)
    requires
        plays(m, ps, echo, rx_freq, rate, n),
    ensures
        frequencies_heard(echo).contains(freq) <==> is_on_air(m, freq) && 2 * distance(
            rx_freq as int,
            freq as int,
        ) <= rate,
        is_radio_rate(rate) ==> (frequencies_heard(echo).contains(freq) <==> is_on_air(m, freq)
            && distance(rx_freq as int, freq as int) <= rate as int / 2),
        frequencies_heard(echo).no_duplicates(),
        echo matches DdcEcho::Loop(segments) ==> forall|k: int|
            0 <= k < segments@.len() ==> (#[trigger] segments@[k]).offset_hz == rx_freq
                - segments@[k].freq && segments@[k].samples@.len() == n,
        echo matches DdcEcho::Live(segments) ==> forall|k: int|
            0 <= k < segments@.len() ==> (#[trigger] segments@[k]).offset_hz == rx_freq
                - segments@[k].freq,
{
}

/// Each receiver of a client hears in the next frame what is on the air within half
/// the client's sample rate around the receiver's own frequency.
pub proof fn lemma_receivers_hear_their_bands(
    cs: &mut ClientState,
    echo: Option<EchoBuffer>,
    plan: Vec<DdcEcho>,
    k: int,
    freq: u32,
)
    requires
        call_ensures(plan_subframe, (cs, &echo), plan),
        0 <= k < old(cs)@.nddc,
    ensures
        plan@.len() == old(cs)@.nddc,
        frequencies_heard(plan@[k]).contains(freq) <==> echo is Some && is_on_air(echo->0@, freq)
            && 2 * distance(old(cs)@.rx_frequencies[k] as int, freq as int) <= old(
            cs,
        )@.sample_rate,
{
    if echo is Some && is_on_air(echo->0@, freq) {
        assert(has_echo(echo->0@));
    }
}

/// The loops that a listener gets are those no further away than half the sample rate.
pub proof fn lemma_loops_are_given_within_half_the_rate(
    e: EchoBuffer,
    ps: &mut EchoPlaybackState,
    n: usize,
    rx_freq: u32,
    rate: u32,
    segments: Vec<LoopSegment>,
    freq: u32,
)
    requires
        call_ensures(EchoBuffer::generate_echo_into, (&e, ps, n, rx_freq, rate), segments),
    ensures
        loop_freqs(segments@).contains(freq) <==> e@.loops.contains_key(freq) && 2 * distance(
            rx_freq as int,
            freq as int,
        ) <= rate,
        is_radio_rate(rate) ==> (loop_freqs(segments@).contains(freq) <==> e@.loops.contains_key(
            freq,
        ) && distance(rx_freq as int, freq as int) <= rate as int / 2),
{
}

/// The same of the live transmissions.
pub proof fn lemma_live_is_given_within_half_the_rate(
    e: EchoBuffer,
    ps: &mut EchoPlaybackState,
    n: usize,
    rx_freq: u32,
    rate: u32,
    segments: Vec<LiveSegment>,
    freq: u32,
)
    requires
        call_ensures(EchoBuffer::generate_live_echo_into, (&e, ps, n, rx_freq, rate), segments),
    ensures
        live_freqs(segments@).contains(freq) <==> e@.live.contains_key(freq) && 2 * distance(
            rx_freq as int,
            freq as int,
        ) <= rate,
        is_radio_rate(rate) ==> (live_freqs(segments@).contains(freq) <==> e@.live.contains_key(
            freq,
        ) && distance(rx_freq as int, freq as int) <= rate as int / 2),
{
}

} // verus!
