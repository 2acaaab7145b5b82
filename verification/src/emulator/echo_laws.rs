//! What the echoes promise over several calls.

use crate::double::{
    lemma_rounding_scales, lemma_ulp_of_whole, lemma_whole_is_exact, ulp, ONE,
};
use crate::emulator::echo::{
    mixed, pause_samples, quiet, silence, EchoMode, EchoModel, EchoSample, LiveModel,
    RecorderModel, LOOP_SESSION_GAP_NS,
};
use vstd::prelude::*;
use web_time::Instant;

verus! {

/// A sample far from the limits of its numbers.
pub open spec fn is_moderate(s: EchoSample) -> bool {
    &&& -0x1000_0000_0000_0000 <= s.i <= 0x1000_0000_0000_0000
    &&& -0x1000_0000_0000_0000 <= s.q <= 0x1000_0000_0000_0000
}

/// Samples far from the limits of their numbers.
pub open spec fn all_moderate(samples: Seq<EchoSample>) -> bool {
    forall|k: int| 0 <= k < samples.len() ==> is_moderate(#[trigger] samples[k])
}

/// What a run of samples that starts at `from` has at place `at`.
pub open spec fn part_at(samples: Seq<EchoSample>, from: int, at: int) -> EchoSample {
    if from <= at < from + samples.len() {
        samples[at - from]
    } else {
        silence()
    }
}

/// What a live buffer has at a place, counted from the start.
pub open spec fn live_at(l: LiveModel, at: int) -> EchoSample {
    part_at(l.data, l.drained, at)
}

/// A client may add samples without anything being dropped.
pub open spec fn fits(l: LiveModel, client: u64, samples: Seq<EchoSample>) -> bool {
    &&& samples.len() > 0
    &&& l.offsets.contains_key(client)
    &&& l.drained <= l.offsets[client]
    &&& l.offsets[client] + samples.len() - l.drained <= l.max_samples
    &&& l.offsets[client] + samples.len() <= usize::MAX
    &&& l.data.len() <= l.max_samples
}

/// A client's samples are added to what is at their places, and nothing else
/// changes.
pub proof fn lemma_feeding_adds(l: LiveModel, client: u64, samples: Seq<EchoSample>, at: int)
    requires
        l.wf(),
        fits(l, client, samples),
    ensures
        ({
            let n = l.fed(client, samples);
            let from = l.offsets[client] as int;
            &&& n.drained == l.drained && n.max_samples == l.max_samples && n.epoch == l.epoch
            &&& n.offsets == l.offsets.insert(client, (from + samples.len()) as usize)
            &&& n.tail() == if l.tail() > from + samples.len() {
                l.tail()
            } else {
                from + samples.len()
            }
            &&& live_at(n, at) == mixed(live_at(l, at), part_at(samples, from, at))
        }),
{
}

/// What lies before the place at which a client writes is settled: its samples
/// change nothing of it, as long as it is kept.
pub proof fn lemma_past_is_settled(
    l: LiveModel,
    client: u64,
    samples: Seq<EchoSample>,
    at: int,
)
    requires
        l.wf(),
        l.offsets.contains_key(client) ==> at < l.offsets[client],
        l.fed(client, samples).drained <= at < l.tail(),
    ensures
        live_at(l.fed(client, samples), at) == live_at(l, at),
{
}

proof fn lemma_feeding_keeps_wf(l: LiveModel, client: u64, samples: Seq<EchoSample>)
    requires
        l.wf(),
        fits(l, client, samples),
    ensures
        l.fed(client, samples).wf(),
{
    lemma_feeding_adds(l, client, samples, 0);
    let n = l.fed(client, samples);
    assert forall|c: u64| #[trigger] n.offsets.contains_key(c) implies n.offsets[c] <= n.tail() by {
        if c != client {
            assert(l.offsets.contains_key(c));
        }
    }
}

proof fn lemma_next_fits(
    l: LiveModel,
    a: u64,
    from_a: Seq<EchoSample>,
    b: u64,
    from_b: Seq<EchoSample>,
)
    requires
        l.wf(),
        a != b,
        fits(l, a, from_a),
        fits(l, b, from_b),
    ensures
        l.fed(a, from_a).wf(),
        fits(l.fed(a, from_a), b, from_b),
        l.fed(a, from_a).offsets[b] == l.offsets[b],
{
    lemma_feeding_keeps_wf(l, a, from_a);
    lemma_feeding_adds(l, a, from_a, 0);
}

/// Both transmit: what is heard at one place.
spec fn heard_together(
    l: LiveModel,
    a: u64,
    from_a: Seq<EchoSample>,
    b: u64,
    from_b: Seq<EchoSample>,
    at: int,
) -> EchoSample {
    let x = part_at(from_a, l.offsets[a] as int, at);
    let y = part_at(from_b, l.offsets[b] as int, at);
    EchoSample {
        i: (live_at(l, at).i + x.i + y.i) as i64,
        q: (live_at(l, at).q + x.q + y.q) as i64,
    }
}

proof fn lemma_place(
    l: LiveModel,
    a: u64,
    from_a: Seq<EchoSample>,
    b: u64,
    from_b: Seq<EchoSample>,
    at: int,
)
    requires
        l.wf(),
        a != b,
        fits(l, a, from_a),
        fits(l, b, from_b),
        all_moderate(l.data) && all_moderate(from_a) && all_moderate(from_b),
    ensures
        live_at(l.fed(a, from_a).fed(b, from_b), at) == heard_together(l, a, from_a, b, from_b, at),
        ({
            let n = live_at(l.fed(a, from_a).fed(b, from_b), at);
            let x = part_at(from_a, l.offsets[a] as int, at);
            let y = part_at(from_b, l.offsets[b] as int, at);
            &&& n.i == live_at(l, at).i + x.i + y.i
            &&& n.q == live_at(l, at).q + x.q + y.q
        }),
{
    lemma_next_fits(l, a, from_a, b, from_b);
    lemma_feeding_adds(l, a, from_a, at);
    lemma_feeding_adds(l.fed(a, from_a), b, from_b, at);
    assert(is_moderate(live_at(l, at)));
    assert(is_moderate(part_at(from_a, l.offsets[a] as int, at)));
    assert(is_moderate(part_at(from_b, l.offsets[b] as int, at)));
}

proof fn lemma_order_does_not_matter(
    l: LiveModel,
    a: u64,
    from_a: Seq<EchoSample>,
    b: u64,
    from_b: Seq<EchoSample>,
)
    requires
        l.wf(),
        a != b,
        fits(l, a, from_a),
        fits(l, b, from_b),
        all_moderate(l.data) && all_moderate(from_a) && all_moderate(from_b),
    ensures
        l.fed(a, from_a).fed(b, from_b) == l.fed(b, from_b).fed(a, from_a),
{
    let ab = l.fed(a, from_a).fed(b, from_b);
    let ba = l.fed(b, from_b).fed(a, from_a);
    lemma_next_fits(l, a, from_a, b, from_b);
    lemma_next_fits(l, b, from_b, a, from_a);
    lemma_feeding_adds(l, a, from_a, 0);
    lemma_feeding_adds(l, b, from_b, 0);
    lemma_feeding_adds(l.fed(a, from_a), b, from_b, 0);
    lemma_feeding_adds(l.fed(b, from_b), a, from_a, 0);
    assert(ab.data.len() == ba.data.len());
    assert forall|k: int| 0 <= k < ab.data.len() implies ab.data[k] == ba.data[k] by {
        let at = k + l.drained;
        lemma_place(l, a, from_a, b, from_b, at);
        lemma_place(l, b, from_b, a, from_a, at);
        assert(live_at(ab, at) == ab.data[k]);
        assert(live_at(ba, at) == ba.data[k]);
    }
    assert(ab.data =~= ba.data);
    assert(ab.offsets =~= ba.offsets);
}

/// Two clients that transmit at the same time are heard together: each place has
/// the sum of what was there and of what both transmit, whoever comes first, and
/// the buffer grows only as far as the longer of the two.
pub proof fn lemma_concurrent_transmitters_superimpose(
    l: LiveModel,
    a: u64,
    from_a: Seq<EchoSample>,
    b: u64,
    from_b: Seq<EchoSample>,
    at: int,
)
    requires
        l.wf(),
        a != b,
        fits(l, a, from_a),
        fits(l, b, from_b),
        all_moderate(l.data) && all_moderate(from_a) && all_moderate(from_b),
    ensures
        l.fed(a, from_a).fed(b, from_b) == l.fed(b, from_b).fed(a, from_a),
        ({
            let n = l.fed(a, from_a).fed(b, from_b);
            let end_a = l.offsets[a] + from_a.len();
            let end_b = l.offsets[b] + from_b.len();
            let x = part_at(from_a, l.offsets[a] as int, at);
            let y = part_at(from_b, l.offsets[b] as int, at);
            &&& n.drained == l.drained
            &&& n.tail() >= l.tail() && n.tail() >= end_a && n.tail() >= end_b
            &&& n.tail() == l.tail() || n.tail() == end_a || n.tail() == end_b
            &&& live_at(n, at).i == live_at(l, at).i + x.i + y.i
            &&& live_at(n, at).q == live_at(l, at).q + x.q + y.q
        }),
{
    lemma_order_does_not_matter(l, a, from_a, b, from_b);
    lemma_place(l, a, from_a, b, from_b, at);
    lemma_next_fits(l, a, from_a, b, from_b);
    lemma_feeding_adds(l, a, from_a, 0);
    lemma_feeding_adds(l.fed(a, from_a), b, from_b, 0);
}

/// A pause within the session is kept: what is transmitted after it follows what
/// was recorded before it, with silence for the pause between them.
pub proof fn lemma_short_pause_is_kept(
    m: EchoModel,
    freq: u32,
    client: u64,
    rate: u32,
    pause_ns: int,
    samples: Seq<EchoSample>,
)
    requires
        m.mode is Loop,
        m.recorders.contains_key(freq),
        m.recorders[freq].active == 0,
        m.recorders[freq].last_off is Some,
        0 <= pause_ns < LOOP_SESSION_GAP_NS,
        samples.len() > 0,
        m.recorders[freq].recording.len() + pause_samples(pause_ns, rate) + samples.len()
            <= m.max_samples(rate),
    ensures
        m.started(freq, client, rate, pause_ns).fed(
            freq,
            client,
            samples,
        ).recorders[freq].recording == m.recorders[freq].recording + quiet(
            pause_samples(pause_ns, rate) as nat,
        ) + samples,
{
}

/// A new buffer keeps ten seconds of samples.
pub proof fn lemma_ten_seconds_are_kept(mode: EchoMode, rate: u32)
    requires
        10 * rate <= usize::MAX,
    ensures
        EchoModel::fresh(mode).max_samples(rate) == 10 * rate,
{
    let ten = 10 * ONE as nat;
    lemma_ulp_of_whole(10);
    lemma_rounding_scales(ten, ulp(ten), 1000);
    let n = (10 * rate) as nat;
    lemma_whole_is_exact(n);
    assert(ten * rate as nat == n * ONE as nat) by (nonlinear_arith)
        requires
            ten == 10 * ONE as nat,
            n == 10 * rate as nat,
    ;
}

/// After a longer pause a recording starts anew.
pub proof fn lemma_long_pause_starts_anew(
    m: EchoModel,
    freq: u32,
    client: u64,
    rate: u32,
    pause_ns: int,
    samples: Seq<EchoSample>,
)
    requires
        m.mode is Loop,
        m.recorder(freq, rate).active == 0,
        pause_ns >= LOOP_SESSION_GAP_NS,
        0 < samples.len() <= m.max_samples(rate),
    ensures
        m.started(freq, client, rate, pause_ns).fed(
            freq,
            client,
            samples,
        ).recorders[freq].recording == samples,
{
    assert(Seq::<EchoSample>::empty() + samples =~= samples);
}

/// A recording stays when its loop is made, so that the next transmission can go
/// on with it.
pub proof fn lemma_recording_outlives_its_loop(
    m: EchoModel,
    freq: u32,
    client: u64,
    now: Instant,
)
    requires
        m.mode is Loop,
        freq != 0,
        m.is_recording_on(freq),
        m.recorders[freq].active == 1,
    ensures
        m.stopped(freq, client, now).recorders[freq] == (RecorderModel {
            active: 0,
            last_off: Some(now),
            ..m.recorders[freq]
        }),
{
}

} // verus!
