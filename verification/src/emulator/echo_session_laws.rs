//! What a whole transmission leads to: the loop that it becomes, and what a listener
//! hears of it while it goes on.

use crate::emulator::echo::{
    added_at, in_band, is_live_segment, lemma_loop_repeats, lemma_trim_end, lemma_trim_start,
    live_played, loop_of, quiet, silence, trim_end, trim_start, EchoMode, EchoModel, EchoSample,
    LiveModel, LiveSegment, LoopModel, PlaybackModel, RecorderModel, LIVE_DELAY,
};
use crate::protocol::iq_accumulator::last_of;
use vstd::prelude::*;
use web_time::Instant;

verus! {

/// Several runs of samples, one after the other.
pub open spec fn joined(parts: Seq<Seq<EchoSample>>) -> Seq<EchoSample>
    decreases parts.len(),
{
    if parts.len() == 0 {
        Seq::empty()
    } else {
        joined(parts.drop_last()) + parts.last()
    }
}

/// The echoes after a client has transmitted several runs of samples.
pub open spec fn fed_all(
    m: EchoModel,
    freq: u32,
    client: u64,
    parts: Seq<Seq<EchoSample>>,
) -> EchoModel
    decreases parts.len(),
{
    if parts.len() == 0 {
        m
    } else {
        fed_all(m, freq, client, parts.drop_last()).fed(freq, client, parts.last())
    }
}

/// Whether a run of samples holds anything but silence.
pub open spec fn has_sound(x: Seq<EchoSample>) -> bool {
    exists|k: int| 0 <= k < x.len() && #[trigger] x[k] != silence()
}

/// The samples of `x` from the first to the last that is not silence.
pub open spec fn is_sound_span(x: Seq<EchoSample>, first: int, last: int) -> bool {
    &&& 0 <= first <= last < x.len()
    &&& x[first] != silence()
    &&& x[last] != silence()
    &&& forall|k: int| 0 <= k < first || last < k < x.len() ==> #[trigger] x[k] == silence()
}

/// The loop of a sounding span: the span, half a second of silence as far as there is
/// room, and a fade of 40 ms or a quarter of the whole.
pub open spec fn is_loop_of_span(
    l: LoopModel,
    x: Seq<EchoSample>,
    first: int,
    last: int,
    sample_rate: u32,
    max: int,
) -> bool {
    let span = last + 1 - first;
    let half_second = (sample_rate as int + 1) / 2;
    let pad = if half_second < max - span {
        half_second
    } else {
        max - span
    };
    let quarter = (span + pad) / 4;
    let fade = sample_rate as int / 25;
    &&& l.samples == x.subrange(first, last + 1) + quiet(pad as nat)
    &&& l.fade == if fade < quarter {
        fade
    } else {
        quarter
    }
    &&& l.period() == span + pad - (if l.fade > 1 {
        l.fade
    } else {
        0
    })
}

proof fn lemma_first_sound(x: Seq<EchoSample>, k: int) -> (first: int)
    requires
        0 <= k < x.len(),
        x[k] != silence(),
    ensures
        0 <= first <= k,
        x[first] != silence(),
        forall|j: int| 0 <= j < first ==> #[trigger] x[j] == silence(),
    decreases k,
{
    if exists|j: int| 0 <= j < k && #[trigger] x[j] != silence() {
        let j = choose|j: int| 0 <= j < k && #[trigger] x[j] != silence();
        lemma_first_sound(x, j)
    } else {
        k
    }
}

proof fn lemma_last_sound(x: Seq<EchoSample>, k: int) -> (last: int)
    requires
        0 <= k < x.len(),
        x[k] != silence(),
    ensures
        k <= last < x.len(),
        x[last] != silence(),
        forall|j: int| last < j < x.len() ==> #[trigger] x[j] == silence(),
    decreases x.len() - k,
{
    if exists|j: int| k < j < x.len() && #[trigger] x[j] != silence() {
        let j = choose|j: int| k < j < x.len() && #[trigger] x[j] != silence();
        lemma_last_sound(x, j)
    } else {
        k
    }
}

proof fn lemma_span_of(x: Seq<EchoSample>) -> (span: (int, int))
    requires
        has_sound(x),
    ensures
        is_sound_span(x, span.0, span.1),
        trim_end(trim_start(x)) == x.subrange(span.0, span.1 + 1),
{
    let k = choose|k: int| 0 <= k < x.len() && #[trigger] x[k] != silence();
    let first = lemma_first_sound(x, k);
    let last = lemma_last_sound(x, k);
    lemma_trim_start(x, first);
    let s = x.skip(first);
    assert forall|j: int| last + 1 - first <= j < s.len() implies #[trigger] s[j] == silence() by {
        assert(x[first + j] == silence());
    }
    assert(s[last - first] == x[last]);
    lemma_trim_end(s, last + 1 - first);
    assert(s.take(last + 1 - first) =~= x.subrange(first, last + 1));
    (first, last)
}

proof fn lemma_quiet_is_trimmed(x: Seq<EchoSample>)
    requires
        !has_sound(x),
    ensures
        trim_end(trim_start(x)) == Seq::<EchoSample>::empty(),
{
    assert forall|k: int| 0 <= k < x.len() implies #[trigger] x[k] == silence() by {}
    lemma_trim_start(x, x.len() as int);
    assert(x.skip(x.len() as int) =~= Seq::empty());
}

proof fn lemma_recording_is_joined(
    freq: u32,
    client: u64,
    sample_rate: u32,
    since_ns: int,
    parts: Seq<Seq<EchoSample>>,
)
    requires
        joined(parts).len() <= EchoModel::fresh(EchoMode::Loop).max_samples(sample_rate),
    ensures
        ({
            let m = EchoModel::fresh(EchoMode::Loop);
            fed_all(m.started(freq, client, sample_rate, since_ns), freq, client, parts)
                == (EchoModel {
                recorders: m.recorders.insert(
                    freq,
                    RecorderModel {
                        active: 1,
                        sample_rate,
                        recording: joined(parts),
                        last_off: None,
                    },
                ),
                ..m
            })
        }),
    decreases parts.len(),
{
    let m = EchoModel::fresh(EchoMode::Loop);
    let begun = m.started(freq, client, sample_rate, since_ns);
    let target = EchoModel {
        recorders: m.recorders.insert(
            freq,
            RecorderModel { active: 1, sample_rate, recording: joined(parts), last_off: None },
        ),
        ..m
    };
    if parts.len() == 0 {
        assert(begun.recorders =~= target.recorders);
    } else {
        lemma_recording_is_joined(freq, client, sample_rate, since_ns, parts.drop_last());
        let before = fed_all(begun, freq, client, parts.drop_last());
        let after = before.fed(freq, client, parts.last());
        if parts.last().len() == 0 {
            assert(joined(parts) =~= joined(parts.drop_last()));
        }
        assert(after.recorders =~= target.recorders);
    }
}

/// A transmission becomes a loop. A client that starts to transmit where nobody has,
/// transmits `parts` and stops leaves a loop exactly when it has a frequency and
/// something was not silence. The loop is what was transmitted from the first to the
/// last sample that is not silence, with half a second of silence behind it as far as
/// there is room; a fade of 40 ms or a quarter of the loop joins its ends; and what a
/// new listener hears repeats after the length without the fade.
pub proof fn lemma_transmission_becomes_loop(
    freq: u32,
    client: u64,
    sample_rate: u32,
    since_ns: int,
    parts: Seq<Seq<EchoSample>>,
    now: Instant,
)
    requires
        joined(parts).len() <= EchoModel::fresh(EchoMode::Loop).max_samples(sample_rate),
    ensures
        ({
            let m = EchoModel::fresh(EchoMode::Loop);
            let x = joined(parts);
            let heard = fed_all(
                m.started(freq, client, sample_rate, since_ns),
                freq,
                client,
                parts,
            );
            let after = heard.stopped(freq, client, now);
            let l = after.loops[freq];
            &&& forall|f: u32| #[trigger]
                after.loops.contains_key(f) <==> f == freq && freq != 0 && has_sound(x)
            &&& freq != 0 && has_sound(x) ==> {
                &&& l.wf()
                &&& exists|first: int, last: int| #[trigger]
                    is_sound_span(x, first, last) && is_loop_of_span(
                        l,
                        x,
                        first,
                        last,
                        sample_rate,
                        m.max_samples(sample_rate),
                    )
                &&& forall|n: nat, k: int|
                    0 <= k && k + l.period() < n ==> l.run(0, n)[k + l.period()]
                        == #[trigger] l.run(0, n)[k]
            }
        }),
{
    let m = EchoModel::fresh(EchoMode::Loop);
    let x = joined(parts);
    let max = m.max_samples(sample_rate);
    lemma_recording_is_joined(freq, client, sample_rate, since_ns, parts);
    let heard = fed_all(m.started(freq, client, sample_rate, since_ns), freq, client, parts);
    let after = heard.stopped(freq, client, now);
    if has_sound(x) {
        let (first, last) = lemma_span_of(x);
        if freq != 0 {
            assert(loop_of(x, sample_rate, max) is Some);
            let l = loop_of(x, sample_rate, max)->0;
            assert(after.loops == m.loops.insert(freq, l));
            assert(after.loops[freq] == l);
            assert(is_loop_of_span(l, x, first, last, sample_rate, max));
            assert forall|n: nat, k: int| 0 <= k && k + l.period() < n implies l.run(0, n)[k
                + l.period()] == #[trigger] l.run(0, n)[k] by {
                lemma_loop_repeats(l, 0, n, k);
            }
        }
    } else {
        lemma_quiet_is_trimmed(x);
    }
}

/// What happens on a frequency in live mode: the client transmits, or a listener asks
/// for the next `n` samples.
pub enum LiveEvent {
    Feed { samples: Seq<EchoSample> },
    Read { n: nat },
}

/// All samples that the client has transmitted.
pub open spec fn transmitted(events: Seq<LiveEvent>) -> Seq<EchoSample>
    decreases events.len(),
{
    if events.len() == 0 {
        Seq::empty()
    } else {
        match events.last() {
            LiveEvent::Feed { samples } => transmitted(events.drop_last()) + samples,
            LiveEvent::Read { .. } => transmitted(events.drop_last()),
        }
    }
}

/// Whether the listener has asked yet.
pub open spec fn has_read(events: Seq<LiveEvent>) -> bool {
    exists|k: int| 0 <= k < events.len() && (#[trigger] events[k]) is Read
}

/// Where the listener starts to hear the transmission: the delay behind what had been
/// transmitted when it first asked, or at the start.
pub open spec fn listens_from(events: Seq<LiveEvent>) -> int
    decreases events.len(),
{
    if events.len() == 0 {
        0
    } else if has_read(events.drop_last()) {
        listens_from(events.drop_last())
    } else if transmitted(events).len() > LIVE_DELAY {
        transmitted(events).len() - LIVE_DELAY
    } else {
        0
    }
}

/// A frequency, the client that transmits on it, its rate, and a listener.
pub struct LiveScene {
    pub freq: u32,
    pub client: u64,
    pub sample_rate: u32,
    pub rx_freq: u32,
    /// Reading of the clock when the client started.
    pub since_ns: int,
}

impl LiveScene {
    /// Most samples that are kept.
    pub open spec fn max(self) -> int {
        EchoModel::fresh(EchoMode::Live).max_samples(self.sample_rate)
    }

    /// The echoes when the client has started to transmit where nobody has.
    pub open spec fn begun(self) -> EchoModel {
        EchoModel::fresh(EchoMode::Live).started(
            self.freq,
            self.client,
            self.sample_rate,
            self.since_ns,
        )
    }

    /// The echoes after several events.
    pub open spec fn echoes(self, events: Seq<LiveEvent>) -> EchoModel
        decreases events.len(),
    {
        if events.len() == 0 {
            self.begun()
        } else {
            match events.last() {
                LiveEvent::Feed { samples } => self.echoes(events.drop_last()).fed(
                    self.freq,
                    self.client,
                    samples,
                ),
                LiveEvent::Read { .. } => self.echoes(events.drop_last()),
            }
        }
    }

    /// Where the listener's playback stands after several events.
    pub open spec fn playback(self, events: Seq<LiveEvent>) -> PlaybackModel
        decreases events.len(),
    {
        if events.len() == 0 {
            PlaybackModel::fresh()
        } else {
            let before = self.playback(events.drop_last());
            match events.last() {
                LiveEvent::Feed { .. } => before,
                LiveEvent::Read { n } => live_played(
                    self.echoes(events.drop_last()),
                    before,
                    self.rx_freq,
                    self.sample_rate,
                    n,
                ),
            }
        }
    }

    /// Number of samples that the next read of `n` gives before silence.
    pub open spec fn next_count(self, events: Seq<LiveEvent>, n: nat) -> int {
        self.echoes(events).live_count(self.playback(events), self.freq, n as int)
    }

    /// All samples that the reads have given, without the silence behind them.
    pub open spec fn given(self, events: Seq<LiveEvent>) -> Seq<EchoSample>
        decreases events.len(),
    {
        if events.len() == 0 {
            Seq::empty()
        } else {
            let before = events.drop_last();
            match events.last() {
                LiveEvent::Feed { .. } => self.given(before),
                LiveEvent::Read { n } => {
                    let count = self.next_count(before, n);
                    let live = self.echoes(before).live[self.freq];
                    let from = self.echoes(before).live_from(self.playback(before), self.freq)
                        - live.drained;
                    if count > 0 {
                        self.given(before) + live.data.subrange(from, from + count)
                    } else {
                        self.given(before)
                    }
                },
            }
        }
    }

    /// What the echoes and the listener's playback are after several events.
    spec fn is_at(self, events: Seq<LiveEvent>) -> bool {
        let m = self.echoes(events);
        let ps = self.playback(events);
        let x = transmitted(events);
        let from = listens_from(events);
        let given = self.given(events);
        &&& m.mode is Live
        &&& m.max_duration_ms == 10_000
        &&& m.is_recording_on(self.freq)
        &&& m.recorders[self.freq].sample_rate == self.sample_rate
        &&& m.live.contains_key(self.freq)
        &&& m.live[self.freq] == (LiveModel {
            data: x,
            drained: 0,
            epoch: 1,
            max_samples: self.max(),
            offsets: Map::<u64, usize>::empty().insert(self.client, x.len() as usize),
        })
        &&& 0 <= from
        &&& given.len() > 0 ==> from + given.len() + LIVE_DELAY <= x.len()
        &&& from + LIVE_DELAY <= x.len() || from == 0
        &&& given == if given.len() > 0 {
            x.subrange(from, from + given.len())
        } else {
            Seq::empty()
        }
        &&& if has_read(events) {
            &&& ps.live_epoch.contains_key(self.freq)
            &&& ps.live_epoch[self.freq] == 1
            &&& ps.live_pos.contains_key(self.freq)
            &&& ps.live_pos[self.freq] == from + given.len()
        } else {
            &&& !ps.live_epoch.contains_key(self.freq)
            &&& !ps.live_pos.contains_key(self.freq)
            &&& given.len() == 0
            &&& from == if x.len() > LIVE_DELAY {
                x.len() - LIVE_DELAY
            } else {
                0
            }
        }
    }
}

proof fn lemma_has_read_step(events: Seq<LiveEvent>)
    requires
        events.len() > 0,
    ensures
        has_read(events) == (has_read(events.drop_last()) || events.last() is Read),
{
    let init = events.drop_last();
    if has_read(init) {
        let k = choose|k: int| 0 <= k < init.len() && (#[trigger] init[k]) is Read;
        assert(events[k] is Read);
    }
    if events.last() is Read {
        assert(events[events.len() - 1] is Read);
    }
    if has_read(events) {
        let k = choose|k: int| 0 <= k < events.len() && (#[trigger] events[k]) is Read;
        if k < init.len() {
            assert(init[k] is Read);
        }
    }
}

proof fn lemma_live_data_grows(l: LiveModel, client: u64, samples: Seq<EchoSample>)
    requires
        l.drained == 0,
        l.offsets == Map::<u64, usize>::empty().insert(client, l.data.len() as usize),
        l.data.len() + samples.len() <= l.max_samples <= usize::MAX,
    ensures
        l.fed(client, samples) == (LiveModel {
            data: l.data + samples,
            offsets: Map::<u64, usize>::empty().insert(
                client,
                (l.data.len() + samples.len()) as usize,
            ),
            ..l
        }),
{
    let own = l.data.len() as int;
    assert(l.offsets.contains_key(client) && l.offsets[client] == own);
    if samples.len() == 0 {
        assert(l.data + samples =~= l.data);
    } else {
        let all = added_at(l.data, own, samples);
        assert(all =~= l.data + samples);
        assert(last_of(all, l.max_samples) == all);
        assert(l.offsets.insert(client, (own + samples.len()) as usize) =~= Map::<
            u64,
            usize,
        >::empty().insert(client, (own + samples.len()) as usize));
    }
}

proof fn lemma_scene_after_read(s: LiveScene, events: Seq<LiveEvent>, n: nat)
    requires
        events.len() > 0,
        events.last() == (LiveEvent::Read { n }),
        s.is_at(events.drop_last()),
        transmitted(events).len() <= s.max(),
        in_band(s.rx_freq, s.freq, s.sample_rate),
    ensures
        s.is_at(events),
{
    let before = events.drop_last();
    lemma_has_read_step(events);
    let m = s.echoes(before);
    let ps = s.playback(before);
    let x = transmitted(before);
    let from = listens_from(before);
    let given = s.given(before);
    assert(transmitted(events) == x);
    assert(s.echoes(events) == m);
    assert(listens_from(events) == from);
    assert(m.live_from(ps, s.freq) == from + given.len());
    let count = s.next_count(before, n);
    assert(count >= 0);
    assert(count > 0 ==> from + given.len() + count + LIVE_DELAY <= x.len());
    assert(s.playback(events).live_pos[s.freq] == from + given.len() + count);
    if count > 0 {
        assert(s.given(events) =~= x.subrange(from, from + given.len() + count));
    }
}

proof fn lemma_scene_after_feed(s: LiveScene, events: Seq<LiveEvent>, samples: Seq<EchoSample>)
    requires
        events.len() > 0,
        events.last() == (LiveEvent::Feed { samples }),
        s.is_at(events.drop_last()),
        transmitted(events).len() <= s.max(),
    ensures
        s.is_at(events),
{
    let before = events.drop_last();
    lemma_has_read_step(events);
    let m = s.echoes(before);
    let x = transmitted(before);
    let y = transmitted(events);
    let from = listens_from(before);
    let given = s.given(before);
    assert(y == x + samples);
    lemma_live_data_grows(m.live[s.freq], s.client, samples);
    if samples.len() == 0 {
        assert(y =~= x);
    }
    assert(s.echoes(events).live[s.freq].data =~= y);
    assert(s.given(events) == given);
    if given.len() > 0 {
        assert(y.subrange(from, from + given.len()) =~= x.subrange(from, from + given.len()));
        if !has_read(before) {
            assert(false);
        }
    }
}

proof fn lemma_scene(s: LiveScene, events: Seq<LiveEvent>)
    requires
        transmitted(events).len() <= s.max(),
        in_band(s.rx_freq, s.freq, s.sample_rate),
    ensures
        s.is_at(events),
    decreases events.len(),
{
    if events.len() == 0 {
        assert(s.begun().live[s.freq].offsets =~= Map::<u64, usize>::empty().insert(s.client, 0));
        assert(!has_read(events));
    } else {
        lemma_scene(s, events.drop_last());
        match events.last() {
            LiveEvent::Feed { samples } => lemma_scene_after_feed(s, events, samples),
            LiveEvent::Read { n } => lemma_scene_after_read(s, events, n),
        }
    }
}

/// Live playback gives the transmission as it was, a little later. However reads and
/// transmitted samples follow each other while the client transmits, the reads give
/// consecutive samples of the transmission, from the delay behind what had been
/// transmitted at the first read on, none skipped or repeated; no sample is given
/// before as many as the delay have followed it; and a read gives as many as there
/// are by then, then silence.
pub proof fn lemma_live_reads_are_consecutive(
    s: LiveScene,
    events: Seq<LiveEvent>,
    n: nat,
    seg: LiveSegment,
)
    requires
        transmitted(events).len() <= s.max(),
        in_band(s.rx_freq, s.freq, s.sample_rate),
        seg.freq == s.freq,
        is_live_segment(s.echoes(events), s.playback(events), seg, s.rx_freq, n),
    ensures
        ({
            let x = transmitted(events);
            let given = s.given(events);
            let from = listens_from(events);
            let pos = from + given.len();
            let left = x.len() - LIVE_DELAY - pos;
            let count = if left <= 0 {
                0
            } else if n < left {
                n as int
            } else {
                left
            };
            &&& given.len() > 0 ==> given == x.subrange(from, pos) && pos + LIVE_DELAY <= x.len()
            &&& seg.samples@ == (if count > 0 {
                x.subrange(pos, pos + count)
            } else {
                Seq::empty()
            }) + quiet((n - count) as nat)
            &&& s.next_count(events, n) == count
        }),
{
    lemma_scene(s, events);
    let m = s.echoes(events);
    let ps = s.playback(events);
    let x = transmitted(events);
    let pos = listens_from(events) + s.given(events).len();
    assert(m.live_from(ps, s.freq) == pos);
    let count = s.next_count(events, n);
    if count == 0 {
        assert(x.subrange(0, 0) =~= Seq::empty());
    }
}

} // verus!
