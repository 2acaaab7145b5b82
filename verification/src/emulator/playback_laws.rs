//! What listeners hear of recordings and of live transmissions.

use crate::double::{
    distance, double_times, lemma_product_is_close, lemma_rounding_error,
    lemma_samples_of_time_are_close, nearest_double_spec, seconds, FINE_ONE, ONE,
};
use crate::emulator::echo::{
    is_live_segment, is_loop_segment, live_played, loops_played, mixed, pause_samples, quiet,
    silence, EchoBuffer, EchoModel, EchoPlaybackState, EchoSample, LiveSegment, LoopModel,
    LoopSegment, PlaybackModel,
};
use vstd::prelude::*;

verus! {

/// A pause holds as many samples as its length times the rate, rounded down; what
/// doubles change of it is less than one part in 2^49.
pub proof fn lemma_pause_holds_its_samples(ns: nat, rate: u32)
    ensures
        ({
            let n = pause_samples(ns as int, rate);
            let exact = ns * rate;
            &&& n >= 0
            &&& 0x2_0000_0000_0000 * (n * 1_000_000_000 - exact) <= exact
            &&& 0x2_0000_0000_0000 * (exact - (n + 1) * 1_000_000_000) < exact + 0x2_0000_0000_0000
        }),
{
    let spent = double_times(seconds(ns), rate as nat) as int;
    let one = FINE_ONE as int;
    let n = pause_samples(ns as int, rate);
    let exact = ns * rate;
    lemma_samples_of_time_are_close(ns, rate as nat);
    let total = exact * one;
    assert(ns * rate as nat * FINE_ONE as nat == total);
    assert(0x2_0000_0000_0000 * distance(spent * 1_000_000_000, total) <= total);
    assert(n >= 0 && 0x2_0000_0000_0000 * (n * 1_000_000_000 - exact) <= exact && 0x2_0000_0000_0000
        * (exact - (n + 1) * 1_000_000_000) < exact + 0x2_0000_0000_0000) by (nonlinear_arith)
        requires
            one == 0x4_0000_0000_0000_0000_0000,
            spent >= 0,
            exact >= 0,
            total == exact * one,
            n == spent / one,
            0x2_0000_0000_0000 * distance(spent * 1_000_000_000, total) <= total,
    {
        assert(n * one <= spent < (n + 1) * one);
        let a = 0x2_0000_0000_0000 * (n * 1_000_000_000 - exact);
        assert(a * one <= exact * one) by {
            assert(n * one * 1_000_000_000 <= spent * 1_000_000_000);
        }
        let b = 0x2_0000_0000_0000 * (exact - (n + 1) * 1_000_000_000);
        assert(b * one < exact * one + 0x2_0000_0000_0000 * one) by {
            assert(spent * 1_000_000_000 < (n + 1) * one * 1_000_000_000);
        }
    }
}

/// The most samples that are kept are those of the longest duration, rounded down; what
/// doubles change of it is less than one part in 2^50.
pub proof fn lemma_longest_duration_is_kept(m: EchoModel, rate: u32)
    requires
        m.max_samples(rate) < usize::MAX,
    ensures
        ({
            let n = m.max_samples(rate);
            let exact = m.max_duration_ms * rate;
            &&& 0x4_0000_0000_0000 * (n * 1000 - exact) <= exact
            &&& 0x4_0000_0000_0000 * (exact - (n + 1) * 1000) < exact + 0x4_0000_0000_0000
        }),
{
    let one = ONE as int;
    let ms = m.max_duration_ms as int;
    let r = rate as int;
    let v = nearest_double_spec(m.max_duration_ms as nat * ONE as nat, 1000) as int;
    lemma_rounding_error(m.max_duration_ms as nat * ONE as nat, 1000);
    let c = double_times(v as nat, rate as nat) as int;
    lemma_product_is_close(v as nat, rate as nat);
    let n = m.max_samples(rate);
    let e = distance(ms * one, v * 1000);
    let f = distance(v * r, c);
    let exact = ms * r;
    assert(2 * e <= 1000 || 0x20_0000_0000_0000 * e <= ms * one);
    assert(0x20_0000_0000_0000 * f <= v * r);
    assert(n == c / one);
    assert(0x4_0000_0000_0000 * (n * 1000 - exact) <= exact && 0x4_0000_0000_0000 * (exact - (n + 1)
        * 1000) < exact + 0x4_0000_0000_0000) by (nonlinear_arith)
        requires
            one == 0x1_0000_0000_0000_0000,
            ms >= 0,
            r >= 0,
            v >= 0,
            c >= 0,
            e == distance(ms * one, v * 1000),
            f == distance(v * r, c),
            2 * e <= 1000 || 0x20_0000_0000_0000 * e <= ms * one,
            0x20_0000_0000_0000 * f <= v * r,
            exact == ms * r,
            n == c / one,
            ms == 0 ==> v == 0,
    {
        let total = exact * one;
        assert(total == ms * one * r);
        if ms > 0 {
            assert(0x20_0000_0000_0000 * 500 <= 0x1_0000_0000_0000_0000 * 1);
        }
        assert(0x20_0000_0000_0000 * e <= ms * one) by {
            if ms == 0 {
                assert(e == 0);
            }
        }
        assert(-e <= v * 1000 - ms * one <= e);
        assert((v * 1000 - ms * one) * r <= e * r);
        assert((v * 1000 - ms * one) * r >= -(e * r));
        assert((v * 1000 - ms * one) * r == v * r * 1000 - total);
        assert(0x20_0000_0000_0000 * (e * r) <= total);
        assert(0x20_0000_0000_0000 * (f * 1000) <= v * r * 1000);
        assert(distance(c * 1000, total) <= f * 1000 + e * r);
        assert(0x4_0000_0000_0000 * distance(c * 1000, total) <= total);
        assert(n * one <= c < (n + 1) * one);
        let a = 0x4_0000_0000_0000 * (n * 1000 - exact);
        assert(a * one <= exact * one) by {
            assert(n * one * 1000 <= c * 1000);
        }
        let b = 0x4_0000_0000_0000 * (exact - (n + 1) * 1000);
        assert(b * one < exact * one + 0x4_0000_0000_0000 * one) by {
            assert(c * 1000 < (n + 1) * one * 1000);
        }
    }
}

/// A recording is resumed when less than 30 seconds have passed since somebody last
/// transmitted on its frequency: silence stands for the pause, as far as there is room.
/// After 30 seconds, and in live mode, it starts anew.
pub proof fn lemma_session_lasts_thirty_seconds(
    m: EchoModel,
    freq: u32,
    client: u64,
    rate: u32,
    pause_ns: int,
)
    requires
        m.recorders.contains_key(freq),
        m.recorders[freq].active == 0,
        pause_ns >= 0,
    ensures
        ({
            let was = m.recorders[freq].recording;
            let now = m.started(freq, client, rate, pause_ns).recorders[freq];
            let resumed = m.mode is Loop && m.recorders[freq].last_off is Some && pause_ns < 30
                * 1_000_000_000;
            &&& now.active == 1
            &&& now.sample_rate == rate
            &&& !resumed ==> now.recording.len() == 0
            &&& resumed ==> now.recording.len() >= was.len() && now.recording.subrange(
                0,
                was.len() as int,
            ) == was
            &&& resumed ==> forall|k: int|
                was.len() <= k < now.recording.len() ==> #[trigger] now.recording[k] == silence()
            &&& resumed ==> now.recording.len() == was.len() + pause_samples(pause_ns, rate)
                || now.recording.len() == m.max_samples(rate) || was.len() > m.max_samples(rate)
        }),
{
    lemma_pause_holds_its_samples(pause_ns as nat, rate);
    let was = m.recorders[freq].recording;
    let now = m.started(freq, client, rate, pause_ns).recorders[freq];
    let resumed = m.mode is Loop && m.recorders[freq].last_off is Some && pause_ns < 30
        * 1_000_000_000;
    if resumed {
        assert(now.recording.subrange(0, was.len() as int) =~= was);
    }
}

/// A loop uses every sample of its recording once in each round: those up to the fade
/// at their places, and the last ones, which fade out, blended into the first.
pub proof fn lemma_round_uses_each_sample_once(l: LoopModel, j: int)
    requires
        l.wf(),
        0 <= j < l.samples.len() <= usize::MAX,
        l.fade > 1,
    ensures
        l.period() + l.fade == l.samples.len(),
        j < l.period() ==> l.at(j).head == l.samples[j],
        j >= l.period() ==> l.at(j - l.period()).tail == Some(l.samples[j]) && l.at(
            j - l.period(),
        ).pos == j - l.period() && l.at(j - l.period()).fade == l.fade,
        l.fade <= j < l.period() ==> l.at(j).tail is None,
{
}

/// Without a fade a loop is its recording over and over.
pub proof fn lemma_plain_loop_repeats_its_recording(l: LoopModel, j: int)
    requires
        l.wf(),
        0 <= j < l.samples.len(),
        l.fade <= 1,
    ensures
        l.period() == l.samples.len(),
        l.at(j).head == l.samples[j],
        l.at(j).tail is None,
{
}

/// A listener hears a loop from where it was left, sample by sample, and from its start
/// the first time; the next time it goes on behind what was played.
pub proof fn lemma_loop_is_heard_in_order(
    e: EchoBuffer,
    ps: &mut EchoPlaybackState,
    n: usize,
    rx_freq: u32,
    rate: u32,
    segments: Vec<LoopSegment>,
    s: int,
    k: int,
)
    requires
        call_ensures(EchoBuffer::generate_echo_into, (&e, ps, n, rx_freq, rate), segments),
        e@.wf(),
        0 <= s < segments@.len(),
        0 <= k < n,
    ensures
        ({
            let seg = segments@[s];
            let l = e@.loops[seg.freq];
            let from = if old(ps)@.loop_pos.contains_key(seg.freq) {
                old(ps)@.loop_pos[seg.freq] as int
            } else {
                0
            };
            let at = (from % l.period() + k) % l.period();
            &&& e@.loops.contains_key(seg.freq)
            &&& seg.offset_hz == rx_freq - seg.freq
            &&& seg.samples@.len() == n
            &&& seg.samples@[k].head == l.samples[at]
            &&& l.samples.len() <= usize::MAX ==> seg.samples@[k].pos == at && seg.samples@[k].fade
                == l.fade
            &&& l.fade > 1 && at < l.fade ==> seg.samples@[k].tail == Some(
                l.samples[l.samples.len() - l.fade + at],
            )
            &&& !(l.fade > 1 && at < l.fade) ==> seg.samples@[k].tail is None
        }),
{
    let seg = segments@[s];
    assert(is_loop_segment(e@, old(ps)@, segments@[s], rx_freq, n as nat));
    assert(crate::emulator::echo::loop_freqs(segments@)[s] == seg.freq);
    assert(crate::emulator::echo::loop_freqs(segments@).contains(seg.freq));
    assert(e@.loops.contains_key(seg.freq));
    let l = e@.loops[seg.freq];
    assert(l.wf());
    assert(l.period() > 0);
    let from = if old(ps)@.loop_pos.contains_key(seg.freq) {
        old(ps)@.loop_pos[seg.freq] as int
    } else {
        0
    };
    assert(0int % l.period() == 0) by (nonlinear_arith)
        requires
            l.period() > 0,
    ;
    let at = (from % l.period() + k) % l.period();
    assert(0 <= at < l.period()) by (nonlinear_arith)
        requires
            at == (from % l.period() + k) % l.period(),
            l.period() > 0,
    ;
}

/// How far a live transmission may be played: all of it once nobody transmits any more,
/// and all but its last 1024 samples before.
pub open spec fn playable(m: EchoModel, freq: u32) -> int {
    let end = m.live[freq].drained + m.live[freq].data.len();
    if !(m.recorders.contains_key(freq) && m.recorders[freq].active > 0) {
        end
    } else if m.live[freq].data.len() > 1024 {
        end - 1024
    } else {
        m.live[freq].drained
    }
}

/// A listener that knows a live transmission goes on where it stopped, or at the oldest
/// sample that is left: it hears what may be played by now, at most `n` samples, and then
/// silence.
pub proof fn lemma_live_goes_on_where_it_stopped(
    m: EchoModel,
    ps: PlaybackModel,
    seg: LiveSegment,
    rx_freq: u32,
    rate: u32,
    n: nat,
    k: int,
)
    requires
        m.wf(),
        m.live.contains_key(seg.freq),
        is_live_segment(m, ps, seg, rx_freq, n),
        2 * distance(rx_freq as int, seg.freq as int) <= rate,
        ps.live_epoch.contains_key(seg.freq),
        ps.live_epoch[seg.freq] == m.live[seg.freq].epoch,
        ps.live_pos.contains_key(seg.freq),
        ps.live_pos[seg.freq] <= m.live[seg.freq].drained + m.live[seg.freq].data.len(),
        0 <= k < n,
    ensures
        ({
            let live = m.live[seg.freq];
            let from = if ps.live_pos[seg.freq] < live.drained {
                live.drained
            } else {
                ps.live_pos[seg.freq] as int
            };
            let end = playable(m, seg.freq);
            let next = live_played(m, ps, rx_freq, rate, n).live_pos[seg.freq];
            &&& seg.samples@.len() == n
            &&& !seg.restarted
            &&& from + k < end ==> seg.samples@[k] == live.data[from + k - live.drained]
            &&& from + k >= end ==> seg.samples@[k] == silence()
            &&& next == if end <= from {
                from
            } else if from + n < end {
                from + n
            } else {
                end
            }
        }),
{
}

/// A listener that is new to a transmission starts 1024 samples behind its end, or at the
/// oldest sample that is left.
pub proof fn lemma_live_starts_behind_the_end(
    m: EchoModel,
    ps: PlaybackModel,
    seg: LiveSegment,
    rx_freq: u32,
    rate: u32,
    n: nat,
)
    requires
        m.wf(),
        m.live.contains_key(seg.freq),
        is_live_segment(m, ps, seg, rx_freq, n),
        2 * distance(rx_freq as int, seg.freq as int) <= rate,
        m.live[seg.freq].epoch != 0,
        !ps.live_epoch.contains_key(seg.freq) || ps.live_epoch[seg.freq]
            != m.live[seg.freq].epoch,
        m.recorders.contains_key(seg.freq) && m.recorders[seg.freq].active > 0,
    ensures
        ({
            let live = m.live[seg.freq];
            let end = live.drained + live.data.len();
            let next = live_played(m, ps, rx_freq, rate, n);
            &&& live.data.len() >= 1024 ==> next.live_pos[seg.freq] == end - 1024
            &&& live.data.len() < 1024 && end >= 1024 ==> next.live_pos[seg.freq] == live.drained
            &&& end < 1024 ==> next.live_pos[seg.freq] == live.drained
            &&& next.live_epoch[seg.freq] == live.epoch
            &&& seg.samples@ == quiet(n)
        }),
{
    assert(seg.samples@ =~= quiet(n));
}

/// What is heard at once adds up, part by part, as long as the sums can be counted.
pub proof fn lemma_mixing_adds(a: EchoSample, b: EchoSample)
    requires
        i64::MIN <= a.i + b.i <= i64::MAX,
        i64::MIN <= a.q + b.q <= i64::MAX,
    ensures
        mixed(a, b).i == a.i + b.i,
        mixed(a, b).q == a.q + b.q,
{
}

/// Loops are played on and listeners of other frequencies stay where they are.
pub proof fn lemma_playing_moves_only_what_is_heard(
    m: EchoModel,
    ps: PlaybackModel,
    rx_freq: u32,
    rate: u32,
    n: nat,
    freq: u32,
)
    requires
        m.wf(),
        2 * distance(rx_freq as int, freq as int) > rate,
    ensures
        loops_played(m, ps, rx_freq, rate, n).loop_pos.contains_key(freq)
            == ps.loop_pos.contains_key(freq),
        ps.loop_pos.contains_key(freq) ==> loops_played(m, ps, rx_freq, rate, n).loop_pos[freq]
            == ps.loop_pos[freq],
        live_played(m, ps, rx_freq, rate, n).live_pos.contains_key(freq)
            == ps.live_pos.contains_key(freq),
        ps.live_pos.contains_key(freq) ==> live_played(m, ps, rx_freq, rate, n).live_pos[freq]
            == ps.live_pos[freq],
{
}

/// The next time a loop goes on behind what was played.
pub proof fn lemma_loop_position_moves_on(
    e: EchoBuffer,
    ps: &mut EchoPlaybackState,
    n: usize,
    rx_freq: u32,
    rate: u32,
    segments: Vec<LoopSegment>,
    freq: u32,
)
    requires
        call_ensures(EchoBuffer::generate_echo_into, (&e, ps, n, rx_freq, rate), segments),
        e@.wf(),
        e@.loops.contains_key(freq),
        e@.loops[freq].samples.len() <= usize::MAX,
        2 * distance(rx_freq as int, freq as int) <= rate,
    ensures
        ({
            let period = e@.loops[freq].period();
            let from = if old(ps)@.loop_pos.contains_key(freq) {
                old(ps)@.loop_pos[freq] as int % period
            } else {
                0
            };
            &&& final(ps)@.loop_pos.contains_key(freq)
            &&& final(ps)@.loop_pos[freq] == (from + n) % period
        }),
{
    let period = e@.loops[freq].period();
    let from = if old(ps)@.loop_pos.contains_key(freq) {
        old(ps)@.loop_pos[freq] as int % period
    } else {
        0
    };
    assert(e@.loops[freq].wf());
    assert(0 < period <= e@.loops[freq].samples.len());
    let next = (from + n) % period;
    assert(0 <= next < period) by (nonlinear_arith)
        requires
            next == (from + n) % period,
            period > 0,
    ;
}

} // verus!
