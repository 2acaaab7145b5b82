//! What becomes of the transmissions that the emulator hears.

use crate::emulator::echo::{
    mixed, silence, EchoBuffer, EchoMode, EchoModel, EchoSample, LiveModel,
};
use crate::emulator::echo_laws::live_at;
use crate::emulator::protocol1::{echo_follows, ClientModel};
use vstd::prelude::*;
use web_time::Instant;

verus! {

/// Samples of a client are added at its own place in the transmission; when there are
/// more than can be kept, the oldest give way, and nothing else of what is kept changes.
pub proof fn lemma_oldest_samples_give_way(
    l: LiveModel,
    client: u64,
    samples: Seq<EchoSample>,
    at: int,
)
    requires
        l.wf(),
        samples.len() > 0,
        l.offsets.contains_key(client),
        l.drained <= l.offsets[client],
        l.offsets[client] + samples.len() <= usize::MAX,
        l.max_samples > 0,
    ensures
        ({
            let n = l.fed(client, samples);
            let from = l.offsets[client] as int;
            let end = if l.tail() > from + samples.len() {
                l.tail()
            } else {
                from + samples.len()
            };
            &&& n.tail() == end
            &&& n.data.len() == if end - l.drained < l.max_samples {
                end - l.drained
            } else {
                l.max_samples
            }
            &&& n.offsets[client] == from + samples.len()
            &&& n.epoch == l.epoch
            &&& n.drained <= at < n.tail() && from <= at < from + samples.len() ==> live_at(n, at)
                == mixed(live_at(l, at), samples[at - from])
            &&& n.drained <= at < n.tail() && !(from <= at < from + samples.len()) ==> live_at(
                n,
                at,
            ) == live_at(l, at)
        }),
{
}

/// A client whose place has been dropped already loses its samples and goes on at the
/// oldest one that is left.
pub proof fn lemma_late_samples_are_dropped(l: LiveModel, client: u64, samples: Seq<EchoSample>)
    requires
        l.wf(),
        l.offsets.contains_key(client),
        l.offsets[client] < l.drained,
        samples.len() > 0,
    ensures
        l.fed(client, samples).data == l.data,
        l.fed(client, samples).drained == l.drained,
        l.fed(client, samples).offsets[client] == l.drained,
{
}

/// In live mode the first client on a frequency begins a new transmission with a number
/// of its own; clients that join write behind what is there. Other frequencies stay.
pub proof fn lemma_live_transmission_begins(
    e: &mut EchoBuffer,
    freq: u32,
    client: u64,
    rate: u32,
    since_ns: u128,
    other: u32,
)
    requires
        call_ensures(EchoBuffer::start_recording_after, (e, freq, client, rate, since_ns), ()),
        old(e)@.wf(),
        old(e)@.next_epoch < u64::MAX,
        old(e)@.mode is Live,
        old(e)@.recorders.contains_key(freq) ==> old(e)@.recorders[freq].active < u32::MAX,
    ensures
        ({
            let m = old(e)@;
            let n = final(e)@;
            let first = !m.recorders.contains_key(freq) || m.recorders[freq].active == 0;
            &&& first ==> n.live[freq].data.len() == 0 && n.live[freq].drained == 0
                && n.live[freq].epoch == m.next_epoch && n.next_epoch == m.next_epoch + 1
                && n.live[freq].offsets.contains_key(client) && n.live[freq].offsets[client] == 0
                && n.recorders[freq].active == 1
            &&& !first ==> n.next_epoch == m.next_epoch && n.recorders[freq].active
                == m.recorders[freq].active + 1
            &&& !first && m.live.contains_key(freq) ==> n.live[freq].data == m.live[freq].data
                && n.live[freq].offsets[client] == m.live[freq].drained + m.live[freq].data.len()
            &&& other != freq ==> n.live.contains_key(other) == m.live.contains_key(other)
                && n.recorders.contains_key(other) == m.recorders.contains_key(other)
            &&& other != freq && m.live.contains_key(other) ==> n.live[other] == m.live[other]
            &&& n.loops == m.loops
        }),
{
}

/// In loop mode what is transmitted is recorded in order, and the latest of it where
/// there is more than can be kept. Where nobody has started nothing is recorded.
pub proof fn lemma_transmission_is_recorded(
    e: &mut EchoBuffer,
    freq: u32,
    client: u64,
    samples: &[EchoSample],
    k: int,
)
    requires
        call_ensures(EchoBuffer::feed, (e, freq, client, samples), ()),
        old(e)@.wf(),
        old(e)@.mode is Loop,
        old(e)@.recorders.contains_key(freq),
        old(e)@.recorders[freq].active > 0,
        old(e)@.max_samples(old(e)@.recorders[freq].sample_rate) >= 0,
    ensures
        ({
            let was = old(e)@.recorders[freq].recording;
            let now = final(e)@.recorders[freq].recording;
            let all = was + samples@;
            let max = old(e)@.max_samples(old(e)@.recorders[freq].sample_rate);
            &&& samples@.len() > 0 ==> now.len() == if all.len() < max {
                all.len() as int
            } else {
                max
            }
            &&& samples@.len() > 0 && 0 <= k < now.len() ==> now[k] == all[all.len() - now.len()
                + k]
            &&& final(e)@.recorders[freq].active == old(e)@.recorders[freq].active
            &&& final(e)@.loops == old(e)@.loops
        }),
{
}

/// Nothing is recorded of a client on a frequency on which nobody has started.
pub proof fn lemma_unannounced_samples_are_ignored(
    m: EchoModel,
    freq: u32,
    client: u64,
    samples: Seq<EchoSample>,
)
    requires
        !m.recorders.contains_key(freq) || m.recorders[freq].active == 0,
    ensures
        m.fed(freq, client, samples) == m,
{
}

/// While others still transmit on a frequency, one that stops leaves the loops as they
/// are; the recording ends with the last one.
pub proof fn lemma_recording_ends_with_the_last_client(
    e: &mut EchoBuffer,
    freq: u32,
    client: u64,
    now: Instant,
)
    requires
        call_ensures(EchoBuffer::stop_recording_at, (e, freq, client, now), ()),
        old(e)@.wf(),
        old(e)@.recorders.contains_key(freq),
        old(e)@.recorders[freq].active > 0,
    ensures
        ({
            let m = old(e)@;
            let n = final(e)@;
            &&& n.recorders[freq].active == m.recorders[freq].active - 1
            &&& m.recorders[freq].active > 1 ==> n.loops == m.loops && n.recorders[freq].last_off
                == m.recorders[freq].last_off && n.recorders[freq].recording
                == m.recorders[freq].recording
            &&& m.recorders[freq].active == 1 ==> n.recorders[freq].last_off == Some(now)
            &&& m.mode is Live ==> n.loops == m.loops
            &&& m.mode is Live && m.live.contains_key(freq) ==> n.live[freq].data
                == m.live[freq].data && !n.live[freq].offsets.contains_key(client)
            &&& n.next_epoch == m.next_epoch
        }),
{
}

/// What a frame of the host does to the echoes in loop mode: while the transmit request
/// holds, its samples are at the end of the recording on the frequency where the
/// transmission is recorded; a request that ends ends the recording there; else nothing
/// changes.
pub proof fn lemma_frames_reach_the_recording(
    before: EchoModel,
    after: EchoModel,
    was: ClientModel,
    now: ClientModel,
    samples: Seq<EchoSample>,
)
    requires
        before.mode is Loop,
        echo_follows(before, after, was, now, samples),
        samples.len() > 0,
        now.ptt && !was.ptt ==> now.recording_freq == Some(now.tx_frequency),
        before.recorders.contains_key(now.tx_frequency)
            ==> before.recorders[now.tx_frequency].active < u32::MAX,
        now.ptt && was.ptt ==> now.recording_freq == was.recording_freq,
        now.recording_freq matches Some(f) ==> samples.len() <= before.max_samples(
            if was.ptt && before.recorders.contains_key(f) {
                before.recorders[f].sample_rate
            } else {
                now.sample_rate
            },
        ),
    ensures
        !now.ptt && !was.ptt ==> after == before,
        now.ptt && !was.ptt && (!before.recorders.contains_key(now.tx_frequency)
            || before.recorders[now.tx_frequency].active == 0) ==> {
            let rec = after.recorders[now.tx_frequency];
            &&& rec.active == 1
            &&& rec.recording.len() >= samples.len()
            &&& rec.recording.subrange(
                rec.recording.len() - samples.len(),
                rec.recording.len() as int,
            ) == samples
        },
        now.ptt && was.ptt && now.recording_freq is Some && before.recorders.contains_key(
            now.recording_freq->0,
        ) && before.recorders[now.recording_freq->0].active > 0 ==> {
            let rec = after.recorders[now.recording_freq->0];
            &&& rec.active == before.recorders[now.recording_freq->0].active
            &&& rec.recording.len() >= samples.len()
            &&& rec.recording.subrange(
                rec.recording.len() - samples.len(),
                rec.recording.len() as int,
            ) == samples
        },
        !now.ptt && was.ptt && was.recording_freq is Some && before.recorders.contains_key(
            was.recording_freq->0,
        ) && before.recorders[was.recording_freq->0].active > 0
            ==> after.recorders[was.recording_freq->0].active
            == before.recorders[was.recording_freq->0].active - 1,
{
    if now.ptt && !was.ptt {
        let f = now.tx_frequency;
        let ns = choose|ns: int|
            ns >= 0 && crate::emulator::protocol1::echo_fed(
                #[trigger] before.started(f, now.client, now.sample_rate, ns),
                after,
                now,
                samples,
            );
        let begun = before.started(f, now.client, now.sample_rate, ns);
        assert(after == begun.fed(f, now.client, samples));
        let rec = after.recorders[f];
        if !before.recorders.contains_key(f) || before.recorders[f].active == 0 {
            assert(begun.recorders[f].active == 1);
            assert(rec.recording.subrange(
                rec.recording.len() - samples.len(),
                rec.recording.len() as int,
            ) =~= samples);
        }
    } else if now.ptt && now.recording_freq is Some {
        let f = now.recording_freq->0;
        if before.recorders.contains_key(f) && before.recorders[f].active > 0 {
            let rec = after.recorders[f];
            assert(rec.recording.subrange(
                rec.recording.len() - samples.len(),
                rec.recording.len() as int,
            ) =~= samples);
        }
    }
}

/// A new buffer holds nothing and keeps recordings of ten seconds.
pub proof fn lemma_new_buffer_is_empty(mode: EchoMode, e: EchoBuffer, f: u32)
    requires
        call_ensures(EchoBuffer::new, (mode,), e),
    ensures
        e@.mode == mode,
        e@.max_duration_ms == 10 * 1000,
        !e@.loops.contains_key(f) && !e@.live.contains_key(f) && !e@.recorders.contains_key(f),
        e@.next_epoch == 1,
        silence().i == 0 && silence().q == 0,
{
}

/// In loop mode a client that joins others on a frequency leaves the recording as it is.
pub proof fn lemma_joining_leaves_the_recording(
    m: EchoModel,
    freq: u32,
    client: u64,
    rate: u32,
    since_ns: int,
)
    requires
        m.recorders.contains_key(freq),
        0 < m.recorders[freq].active < u32::MAX,
        m.mode is Loop,
    ensures
        ({
            let n = m.started(freq, client, rate, since_ns);
            &&& n.recorders[freq].recording == m.recorders[freq].recording
            &&& n.recorders[freq].sample_rate == m.recorders[freq].sample_rate
            &&& n.recorders[freq].active == m.recorders[freq].active + 1
            &&& n.live == m.live && n.loops == m.loops && n.next_epoch == m.next_epoch
        }),
{
}

/// In live mode the samples of a client reach the transmission on its frequency, and no
/// other.
pub proof fn lemma_live_samples_reach_the_transmission(
    m: EchoModel,
    freq: u32,
    client: u64,
    samples: Seq<EchoSample>,
    other: u32,
)
    requires
        m.mode is Live,
        samples.len() > 0,
        m.recorders.contains_key(freq) && m.recorders[freq].active > 0,
        m.live.contains_key(freq),
    ensures
        m.fed(freq, client, samples).live[freq] == m.live[freq].fed(client, samples),
        other != freq && m.live.contains_key(other) ==> m.fed(freq, client, samples).live[other]
            == m.live[other],
        m.fed(freq, client, samples).recorders == m.recorders,
{
}

/// A recording without a frequency is dropped when it ends.
pub proof fn lemma_recording_without_frequency_is_dropped(
    m: EchoModel,
    client: u64,
    now: Instant,
)
    requires
        m.mode is Loop,
        m.recorders.contains_key(0),
        m.recorders[0].active == 1,
    ensures
        m.stopped(0, client, now).loops == m.loops,
        m.stopped(0, client, now).recorders[0].recording.len() == 0,
{
}

} // verus!
