//! What the emulator plays back of what it has heard.
//!
//! In loop mode a transmission is recorded and repeated for ever once it is
//! over. In live mode it is played back while it goes on, a little later. Samples
//! are integers in units of 2^-15; scaling, blending and shifting in frequency
//! are left to the caller, which is told for each frequency in the band what to
//! play.

use crate::clock;
use crate::double::{
    double_times, nearest_double, nearest_double_spec, seconds, seconds_of, FINE_ONE, ONE,
};
use crate::protocol::iq_accumulator::last_of;
use crate::protocol::packets::TX_SAMPLES_PER_FRAME;
use crate::protocol::types::tx_sample_at;
use crate::protocol::wire::read_signed_be16;
use std::collections::HashMap;
use vstd::prelude::*;
use vstd::std_specs::hash::*;
use web_time::Instant;

verus! {

broadcast use vstd::std_specs::hash::group_hash_axioms;

/// A sample, or a sum of samples.
#[derive(Debug, Clone, Copy, PartialEq, Eq, Structural)]
pub struct EchoSample {
    pub i: i64,
    pub q: i64,
}

/// Silence.
pub open spec fn silence() -> EchoSample {
    EchoSample { i: 0, q: 0 }
}

/// A sum that stays within 64 bits.
pub open spec fn sum64(a: int, b: int) -> int {
    if a + b > i64::MAX {
        i64::MAX as int
    } else if a + b < i64::MIN {
        i64::MIN as int
    } else {
        a + b
    }
}

/// Two samples heard at once.
pub open spec fn mixed(a: EchoSample, b: EchoSample) -> EchoSample {
    EchoSample {
        i: sum64(a.i as int, b.i as int) as i64,
        q: sum64(a.q as int, b.q as int) as i64,
    }
}

fn sum_of(a: i64, b: i64) -> (r: i64)
    ensures
        r == sum64(a as int, b as int),
{
    match a.checked_add(b) {
        Some(s) => s,
        None => if b > 0 {
            i64::MAX
        } else {
            i64::MIN
        },
    }
}

fn mix(a: EchoSample, b: EchoSample) -> (r: EchoSample)
    ensures
        r == mixed(a, b),
{
    EchoSample { i: sum_of(a.i, b.i), q: sum_of(a.q, b.q) }
}

/// Number of samples by which live playback stays behind.
pub const LIVE_DELAY: usize = 1024;

/// Longest pause, in nanoseconds, after which a recording is resumed.
pub const LOOP_SESSION_GAP_NS: u128 = 30_000_000_000;

/// How transmissions are played back.
#[derive(Debug, Clone, Copy, PartialEq, Eq, Structural)]
pub enum EchoMode {
    Loop,
    Live,
}

/// Live playback of one frequency as mathematical values.
#[verifier::ext_equal]
pub struct LiveModel {
    /// What can still be played, oldest sample first.
    pub data: Seq<EchoSample>,
    /// Number of samples that came before `data`.
    pub drained: int,
    /// Number of the transmission.
    pub epoch: u64,
    /// Most samples that are kept.
    pub max_samples: int,
    /// Where each client goes on writing, counted from the start.
    pub offsets: Map<u64, usize>,
}

/// `data` with `samples` added to it from `at` on.
pub open spec fn added_at(
    data: Seq<EchoSample>,
    at: int,
    samples: Seq<EchoSample>,
) -> Seq<EchoSample> {
    let end = at + samples.len();
    Seq::new(
        if data.len() > end {
            data.len()
        } else {
            end as nat
        },
        |k: int|
            {
                let base = if k < data.len() {
                    data[k]
                } else {
                    silence()
                };
                if at <= k < end {
                    mixed(base, samples[k - at])
                } else {
                    base
                }
            },
    )
}

impl LiveModel {
    /// Counted from the start, the number of the next sample behind all others.
    pub open spec fn tail(self) -> int {
        self.drained + self.data.len()
    }

    /// Invariant: clients write within what there is or right behind it.
    pub open spec fn wf(self) -> bool {
        &&& 0 <= self.drained
        &&& 0 <= self.max_samples
        &&& self.tail() <= usize::MAX
        &&& forall|c: u64| #[trigger] self.offsets.contains_key(c) ==> self.offsets[c] <= self.tail()
    }

    /// A buffer that holds at most `max_samples`.
    pub open spec fn fresh(max_samples: int) -> LiveModel {
        LiveModel {
            data: Seq::empty(),
            drained: 0,
            epoch: 0,
            max_samples,
            offsets: Map::empty(),
        }
    }

    /// A client starts to write behind all that is there.
    pub open spec fn client_started(self, client: u64) -> LiveModel {
        LiveModel { offsets: self.offsets.insert(client, self.tail() as usize), ..self }
    }

    /// A client stops writing.
    pub open spec fn client_stopped(self, client: u64) -> LiveModel {
        LiveModel { offsets: self.offsets.remove(client), ..self }
    }

    /// A client writes samples: they are added to what others have written at
    /// the same time, and the oldest samples beyond the limit are dropped. A
    /// client that was to write before the oldest sample that is left is too
    /// late: its samples are dropped, and it goes on at that oldest sample.
    pub open spec fn fed(self, client: u64, samples: Seq<EchoSample>) -> LiveModel {
        if samples.len() == 0 || !self.offsets.contains_key(client) {
            self
        } else if self.offsets[client] < self.drained {
            LiveModel { offsets: self.offsets.insert(client, self.drained as usize), ..self }
        } else {
            let own = self.offsets[client] as int;
            let all = added_at(self.data, own - self.drained, samples);
            LiveModel {
                data: last_of(all, self.max_samples),
                drained: self.drained + if all.len() > self.max_samples {
                    all.len() - self.max_samples
                } else {
                    0
                },
                offsets: self.offsets.insert(client, (own + samples.len()) as usize),
                ..self
            }
        }
    }
}

struct LiveBuffer {
    data: Vec<EchoSample>,
    drained: usize,
    epoch: u64,
    max_samples: usize,
    client_offsets: HashMap<u64, usize>,
}

impl View for LiveBuffer {
    type V = LiveModel;

    closed spec fn view(&self) -> LiveModel {
        LiveModel {
            data: self.data@,
            drained: self.drained as int,
            epoch: self.epoch,
            max_samples: self.max_samples as int,
            offsets: self.client_offsets@,
        }
    }
}

impl LiveBuffer {
    fn new(max_samples: usize) -> (b: Self)
        ensures
            b@ == LiveModel::fresh(max_samples as int),
            b@.wf(),
    {
        LiveBuffer {
            data: Vec::new(),
            drained: 0,
            epoch: 0,
            max_samples,
            client_offsets: HashMap::new(),
        }
    }

    fn start_client(&mut self, client: u64)
        requires
            old(self)@.wf(),
        ensures
            final(self)@ == old(self)@.client_started(client),
            final(self)@.wf(),
    {
        let ghost m = self@;
        let tail: usize = self.drained + self.data.len();
        self.client_offsets.insert(client, tail);
        assert forall|c: u64| #[trigger] self@.offsets.contains_key(c) implies self@.offsets[c]
            <= self@.tail() by {
            if c != client {
                assert(m.offsets.contains_key(c));
            }
        }
    }

    fn stop_client(&mut self, client: u64)
        requires
            old(self)@.wf(),
        ensures
            final(self)@ == old(self)@.client_stopped(client),
            final(self)@.wf(),
    {
        let ghost m = self@;
        self.client_offsets.remove(&client);
        assert forall|c: u64| #[trigger] self@.offsets.contains_key(c) implies self@.offsets[c]
            <= self@.tail() by {
            assert(m.offsets.contains_key(c));
        }
    }

    fn feed_from(&mut self, client: u64, samples: &[EchoSample])
        requires
            old(self)@.wf(),
            old(self)@.tail() + samples@.len() <= usize::MAX,
        ensures
            final(self)@ == old(self)@.fed(client, samples@),
            final(self)@.wf(),
    {
        let ghost m = self@;
        if samples.len() == 0 {
            return;
        }
        let own: usize = match self.client_offsets.get(&client) {
            Some(o) => *o,
            None => {
                return;
            },
        };
        assert(m.offsets.contains_key(client));
        if own < self.drained {
            self.client_offsets.insert(client, self.drained);
            return;
        }
        let rel: usize = own - self.drained;
        let needed: usize = rel + samples.len();
        let ghost data0 = self.data@;
        while self.data.len() < needed
            invariant
                data0.len() <= self.data@.len(),
                self.data@.len() <= needed || self.data@ == data0,
                self.data@.take(data0.len() as int) == data0,
                forall|k: int| data0.len() <= k < self.data@.len() ==> #[trigger] self.data@[k]
                    == silence(),
                self.drained == m.drained,
                self.epoch == m.epoch,
                self.max_samples == m.max_samples,
                self.client_offsets@ == m.offsets,
            decreases needed - self.data@.len(),
        {
            self.data.push(EchoSample { i: 0, q: 0 });
            assert(self.data@.take(data0.len() as int) =~= data0);
        }
        let ghost grown = self.data@;
        assert forall|k: int| 0 <= k < data0.len() implies grown[k] == data0[k] by {
            assert(grown.take(data0.len() as int)[k] == data0[k]);
        }
        let mut i: usize = 0;
        while i < samples.len()
            invariant
                i <= samples@.len(),
                needed == rel + samples@.len(),
                needed <= grown.len(),
                self.data@.len() == grown.len(),
                forall|k: int|
                    0 <= k < grown.len() ==> #[trigger] self.data@[k] == if rel <= k < rel + i {
                        mixed(grown[k], samples@[k - rel])
                    } else {
                        grown[k]
                    },
                self.drained == m.drained,
                self.epoch == m.epoch,
                self.max_samples == m.max_samples,
                self.client_offsets@ == m.offsets,
            decreases samples@.len() - i,
        {
            let at: usize = rel + i;
            let s: EchoSample = mix(self.data[at], samples[i]);
            self.data.set(at, s);
            i = i + 1;
        }
        let ghost all = added_at(data0, rel as int, samples@);
        assert(self.data@ =~= all);
        self.client_offsets.insert(client, own + samples.len());
        if self.data.len() > self.max_samples {
            let excess: usize = self.data.len() - self.max_samples;
            self.data = self.data.split_off(excess);
            self.drained = self.drained + excess;
            assert(self.data@ =~= last_of(all, m.max_samples));
        }
        assert(self@ =~= m.fed(client, samples@));
    }
}

/// A recording of one frequency as mathematical values.
#[verifier::ext_equal]
pub struct RecorderModel {
    /// Number of clients that transmit.
    pub active: u32,
    pub sample_rate: u32,
    pub recording: Seq<EchoSample>,
    /// When the last client stopped.
    pub last_off: Option<Instant>,
}

struct FreqRecorder {
    active_count: u32,
    sample_rate: u32,
    recording: Vec<EchoSample>,
    last_ptt_off: Option<Instant>,
}

impl View for FreqRecorder {
    type V = RecorderModel;

    closed spec fn view(&self) -> RecorderModel {
        RecorderModel {
            active: self.active_count,
            sample_rate: self.sample_rate,
            recording: self.recording@,
            last_off: self.last_ptt_off,
        }
    }
}

/// A recording that is repeated, as mathematical values. The last `fade` samples
/// are blended into the first ones, so that the loop has no seam.
#[verifier::ext_equal]
pub struct LoopModel {
    pub samples: Seq<EchoSample>,
    pub fade: int,
}

impl LoopModel {
    /// Number of samples until the loop repeats.
    pub open spec fn period(self) -> int {
        if self.fade > 1 {
            self.samples.len() - self.fade
        } else {
            self.samples.len() as int
        }
    }

    /// Invariant: there is something to repeat.
    pub open spec fn wf(self) -> bool {
        self.samples.len() > 0 && 0 <= self.fade <= self.samples.len() / 4
    }

    /// The sample at a place of the loop, and what is blended into it: step
    /// `pos` of `fade` steps from `tail` to `head`.
    pub open spec fn at(self, pos: int) -> LoopSample {
        LoopSample {
            head: self.samples[pos],
            tail: if self.fade > 1 && pos < self.fade {
                Some(self.samples[self.period() + pos])
            } else {
                None
            },
            pos: pos as usize,
            fade: self.fade as usize,
        }
    }

    /// `n` samples of the loop from `pos` on.
    pub open spec fn run(self, pos: int, n: nat) -> Seq<LoopSample> {
        Seq::new(n, |k: int| self.at((pos + k) % self.period()))
    }
}

/// A sample of a loop.
#[derive(Debug, Clone, Copy, PartialEq, Eq, Structural)]
pub struct LoopSample {
    pub head: EchoSample,
    /// Sample that fades out while `head` fades in.
    pub tail: Option<EchoSample>,
    pub pos: usize,
    pub fade: usize,
}

struct LoopRecording {
    samples: Vec<EchoSample>,
    fade: usize,
}

impl View for LoopRecording {
    type V = LoopModel;

    closed spec fn view(&self) -> LoopModel {
        LoopModel { samples: self.samples@, fade: self.fade as int }
    }
}

/// A sequence without the silence at its start.
pub open spec fn trim_start(s: Seq<EchoSample>) -> Seq<EchoSample>
    decreases s.len(),
{
    if s.len() > 0 && s[0] == silence() {
        trim_start(s.drop_first())
    } else {
        s
    }
}

/// A sequence without the silence at its end.
pub open spec fn trim_end(s: Seq<EchoSample>) -> Seq<EchoSample>
    decreases s.len(),
{
    if s.len() > 0 && s.last() == silence() {
        trim_end(s.drop_last())
    } else {
        s
    }
}

/// `n` samples of silence.
pub open spec fn quiet(n: nat) -> Seq<EchoSample> {
    Seq::new(n, |k: int| silence())
}

/// The loop that a recording becomes, if there is anything in it: at most
/// `max` samples, without the silence at its ends, with half a second of silence
/// behind it as far as there is room, and with a fade of 40 ms or a quarter of
/// the loop.
pub open spec fn loop_of(recording: Seq<EchoSample>, sample_rate: u32, max: int) -> Option<
    LoopModel,
> {
    let kept = if recording.len() > max {
        recording.take(max)
    } else {
        recording
    };
    let body = trim_end(trim_start(kept));
    if body.len() == 0 {
        None
    } else {
        let half_second = (sample_rate as int + 1) / 2;
        let room = max - body.len();
        let pad = if half_second < room {
            half_second
        } else {
            room
        };
        let samples = body + quiet(pad as nat);
        let fade = sample_rate as int / 25;
        Some(
            LoopModel {
                samples,
                fade: if fade < samples.len() as int / 4 {
                    fade
                } else {
                    samples.len() as int / 4
                },
            },
        )
    }
}

pub(crate) proof fn lemma_trim_start(s: Seq<EchoSample>, f: int)
    requires
        0 <= f <= s.len(),
        forall|k: int| 0 <= k < f ==> #[trigger] s[k] == silence(),
        f < s.len() ==> s[f] != silence(),
    ensures
        trim_start(s) == s.skip(f),
    decreases f,
{
    if f == 0 {
        assert(s.skip(0) == s);
    } else {
        let t = s.drop_first();
        assert forall|k: int| 0 <= k < f - 1 implies #[trigger] t[k] == silence() by {
            assert(s[k + 1] == silence());
        }
        lemma_trim_start(t, f - 1);
        assert(t.skip(f - 1) =~= s.skip(f));
        assert(s[0] == silence());
    }
}

pub(crate) proof fn lemma_trim_end(s: Seq<EchoSample>, l: int)
    requires
        0 <= l <= s.len(),
        forall|k: int| l <= k < s.len() ==> #[trigger] s[k] == silence(),
        0 < l ==> s[l - 1] != silence(),
    ensures
        trim_end(s) == s.take(l),
    decreases s.len() - l,
{
    if l == s.len() {
        assert(s.take(l) == s);
    } else {
        let t = s.drop_last();
        assert forall|k: int| l <= k < t.len() implies #[trigger] t[k] == silence() by {
            assert(s[k] == silence());
        }
        if 0 < l {
            assert(t[l - 1] == s[l - 1]);
        }
        lemma_trim_end(t, l);
        assert(t.take(l) =~= s.take(l));
        assert(s[s.len() - 1] == silence());
    }
}

/// The echoes as mathematical values.
#[verifier::ext_equal]
pub struct EchoModel {
    pub mode: EchoMode,
    pub max_duration_ms: u32,
    pub loops: Map<u32, LoopModel>,
    pub recorders: Map<u32, RecorderModel>,
    pub live: Map<u32, LiveModel>,
    pub next_epoch: u64,
}

/// Number of whole samples in a pause, reckoned in doubles.
pub open spec fn pause_samples(ns: int, sample_rate: u32) -> int {
    double_times(seconds(ns as nat), sample_rate as nat) as int / FINE_ONE as int
}

/// Whether a frequency lies within the band around `rx_freq`.
pub open spec fn in_band(rx_freq: u32, freq: u32, sample_rate: u32) -> bool {
    -sample_rate <= 2 * (rx_freq - freq) <= sample_rate
}

impl EchoModel {
    /// No echoes, and recordings of at most ten seconds.
    pub open spec fn fresh(mode: EchoMode) -> EchoModel {
        EchoModel {
            mode,
            max_duration_ms: 10_000,
            loops: Map::empty(),
            recorders: Map::empty(),
            live: Map::empty(),
            next_epoch: 1,
        }
    }

    /// Most samples that are kept at a rate: those of the longest duration in seconds,
    /// reckoned in doubles.
    pub open spec fn max_samples(self, sample_rate: u32) -> int {
        let duration = nearest_double_spec(self.max_duration_ms as nat * ONE as nat, 1000);
        let n = double_times(duration, sample_rate as nat) as int / ONE as int;
        if n > usize::MAX {
            usize::MAX as int
        } else {
            n
        }
    }

    /// Invariant of the echoes.
    pub open spec fn wf(self) -> bool {
        &&& forall|f: u32| #[trigger] self.loops.contains_key(f) ==> self.loops[f].wf()
        &&& forall|f: u32| #[trigger] self.live.contains_key(f) ==> self.live[f].wf()
    }

    /// The recorder of a frequency, or a new one.
    pub open spec fn recorder(self, freq: u32, sample_rate: u32) -> RecorderModel {
        if self.recorders.contains_key(freq) {
            self.recorders[freq]
        } else {
            RecorderModel { active: 0, sample_rate, recording: Seq::empty(), last_off: None }
        }
    }

    /// The recorder of a frequency on which nobody transmits, when a client
    /// starts to: within the session gap a loop recording is resumed with
    /// silence for the pause, as far as there is room; else it starts anew.
    pub open spec fn resumed(
        self,
        rec: RecorderModel,
        sample_rate: u32,
        since_off_ns: int,
    ) -> RecorderModel {
        let resume = self.mode is Loop && rec.last_off is Some && since_off_ns
            < LOOP_SESSION_GAP_NS;
        let gap = pause_samples(since_off_ns, sample_rate);
        let room = self.max_samples(sample_rate) - rec.recording.len();
        let pad = if room < 0 {
            0
        } else if gap < room {
            gap
        } else {
            room
        };
        RecorderModel {
            sample_rate,
            recording: if resume {
                rec.recording + quiet(pad as nat)
            } else {
                Seq::empty()
            },
            ..rec
        }
    }

    /// A client starts to transmit, `since_off_ns` after the last one stopped.
    pub open spec fn started(
        self,
        freq: u32,
        client: u64,
        sample_rate: u32,
        since_off_ns: int,
    ) -> EchoModel {
        let rec = self.recorder(freq, sample_rate);
        let first = rec.active == 0;
        let ready = if first {
            self.resumed(rec, sample_rate, since_off_ns)
        } else {
            rec
        };
        let anew = LiveModel {
            epoch: self.next_epoch,
            ..LiveModel::fresh(self.max_samples(sample_rate))
        };
        EchoModel {
            recorders: self.recorders.insert(
                freq,
                RecorderModel { active: (ready.active + 1) as u32, ..ready },
            ),
            live: if !(self.mode is Live) {
                self.live
            } else if first {
                self.live.insert(freq, anew.client_started(client))
            } else if self.live.contains_key(freq) {
                self.live.insert(freq, self.live[freq].client_started(client))
            } else {
                self.live
            },
            next_epoch: if self.mode is Live && first {
                (self.next_epoch + 1) as u64
            } else {
                self.next_epoch
            },
            ..self
        }
    }

    /// Somebody transmits on a frequency.
    pub open spec fn is_recording_on(self, freq: u32) -> bool {
        self.recorders.contains_key(freq) && self.recorders[freq].active > 0
    }

    /// A client transmits samples.
    pub open spec fn fed(self, freq: u32, client: u64, samples: Seq<EchoSample>) -> EchoModel {
        if samples.len() == 0 || !self.is_recording_on(freq) {
            self
        } else if self.mode is Live {
            let max = self.max_samples(self.recorders[freq].sample_rate);
            let live = if self.live.contains_key(freq) {
                self.live[freq]
            } else {
                LiveModel::fresh(max)
            };
            EchoModel { live: self.live.insert(freq, live.fed(client, samples)), ..self }
        } else {
            let rec = self.recorders[freq];
            EchoModel {
                recorders: self.recorders.insert(
                    freq,
                    RecorderModel {
                        recording: last_of(
                            rec.recording + samples,
                            self.max_samples(rec.sample_rate),
                        ),
                        ..rec
                    },
                ),
                ..self
            }
        }
    }

    /// The recording of a frequency becomes its loop. A recording without a
    /// frequency is dropped.
    pub open spec fn committed(self, freq: u32) -> EchoModel {
        let rec = self.recorders[freq];
        let max = self.max_samples(rec.sample_rate);
        if !self.recorders.contains_key(freq) || rec.recording.len() == 0 {
            self
        } else if freq == 0 {
            EchoModel {
                recorders: self.recorders.insert(
                    freq,
                    RecorderModel { recording: Seq::empty(), ..rec },
                ),
                ..self
            }
        } else {
            match loop_of(rec.recording, rec.sample_rate, max) {
                Some(l) => EchoModel { loops: self.loops.insert(freq, l), ..self },
                None => self,
            }
        }
    }

    /// A client stops transmitting at `now`.
    pub open spec fn stopped(self, freq: u32, client: u64, now: Instant) -> EchoModel {
        if !self.is_recording_on(freq) {
            self
        } else {
            let rec = self.recorders[freq];
            let left = (rec.active - 1) as u32;
            let quieter = EchoModel {
                recorders: self.recorders.insert(
                    freq,
                    RecorderModel {
                        active: left,
                        last_off: if left == 0 {
                            Some(now)
                        } else {
                            rec.last_off
                        },
                        ..rec
                    },
                ),
                live: if self.mode is Live && self.live.contains_key(freq) {
                    self.live.insert(freq, self.live[freq].client_stopped(client))
                } else {
                    self.live
                },
                ..self
            };
            if left == 0 && self.mode is Loop {
                quieter.committed(freq)
            } else {
                quieter
            }
        }
    }

    /// Index in a live buffer up to which it may be played: all of it when
    /// nobody transmits, else all but the delay.
    pub open spec fn readable_end(self, freq: u32) -> int {
        let len = self.live[freq].data.len() as int;
        if !self.is_recording_on(freq) {
            len
        } else if len > LIVE_DELAY {
            len - LIVE_DELAY
        } else {
            0
        }
    }

    /// Where live playback of a frequency goes on: where it was, but within what
    /// is still there; a new transmission starts the delay behind its end.
    pub open spec fn live_from(self, ps: PlaybackModel, freq: u32) -> int {
        let live = self.live[freq];
        let behind = if live.tail() > LIVE_DELAY {
            live.tail() - LIVE_DELAY
        } else {
            0
        };
        let kept = ps.live_epoch.contains_key(freq) && ps.live_epoch[freq] == live.epoch
            || !ps.live_epoch.contains_key(freq) && live.epoch == 0;
        let pos = if kept && ps.live_pos.contains_key(freq) {
            ps.live_pos[freq] as int
        } else {
            behind
        };
        if pos < live.drained {
            live.drained
        } else {
            pos
        }
    }

    /// Number of samples that live playback of a frequency can give of `n`.
    pub open spec fn live_count(self, ps: PlaybackModel, freq: u32, n: int) -> int {
        let from = self.live_from(ps, freq) - self.live[freq].drained;
        let end = self.readable_end(freq);
        if from >= end {
            0
        } else if n < end - from {
            n
        } else {
            end - from
        }
    }
}

/// Where a listener's playback stands, as mathematical values.
#[verifier::ext_equal]
pub struct PlaybackModel {
    pub loop_pos: Map<u32, usize>,
    pub live_pos: Map<u32, usize>,
    pub live_epoch: Map<u32, u64>,
}

impl PlaybackModel {
    /// Nothing has been played.
    pub open spec fn fresh() -> PlaybackModel {
        PlaybackModel { loop_pos: Map::empty(), live_pos: Map::empty(), live_epoch: Map::empty() }
    }
}

/// Where a listener's playback stands.
pub struct EchoPlaybackState {
    playback_pos: HashMap<u32, usize>,
    live_pos: HashMap<u32, usize>,
    live_epoch: HashMap<u32, u64>,
}

impl View for EchoPlaybackState {
    type V = PlaybackModel;

    closed spec fn view(&self) -> PlaybackModel {
        PlaybackModel {
            loop_pos: self.playback_pos@,
            live_pos: self.live_pos@,
            live_epoch: self.live_epoch@,
        }
    }
}

impl EchoPlaybackState {
    /// Nothing has been played.
    pub fn new() -> (ps: Self)
        ensures
            ps@ == PlaybackModel::fresh(),
    {
        EchoPlaybackState {
            playback_pos: HashMap::new(),
            live_pos: HashMap::new(),
            live_epoch: HashMap::new(),
        }
    }
}

/// What a loop gives to a listener.
pub struct LoopSegment {
    /// Frequency of the loop.
    pub freq: u32,
    /// By how much the listener's frequency lies above it.
    pub offset_hz: i64,
    pub samples: Vec<LoopSample>,
}

/// What a live transmission gives to a listener.
pub struct LiveSegment {
    /// Frequency of the transmission.
    pub freq: u32,
    /// By how much the listener's frequency lies above it.
    pub offset_hz: i64,
    /// The transmission is a new one for the listener.
    pub restarted: bool,
    /// The samples, followed by silence in place of what is not there yet.
    pub samples: Vec<EchoSample>,
}

/// Echoes of what clients have transmitted.
pub struct EchoBuffer {
    pub max_duration_ms: u32,
    mode: EchoMode,
    echoes: HashMap<u32, LoopRecording>,
    recorders: HashMap<u32, FreqRecorder>,
    live: HashMap<u32, LiveBuffer>,
    next_epoch: u64,
}

impl View for EchoBuffer {
    type V = EchoModel;

    closed spec fn view(&self) -> EchoModel {
        EchoModel {
            mode: self.mode,
            max_duration_ms: self.max_duration_ms,
            loops: self.echoes@.map_values(|l: LoopRecording| l@),
            recorders: self.recorders@.map_values(|r: FreqRecorder| r@),
            live: self.live@.map_values(|l: LiveBuffer| l@),
            next_epoch: self.next_epoch,
        }
    }
}

impl EchoBuffer {
    /// No echoes, and recordings of at most ten seconds.
    pub fn new(mode: EchoMode) -> (e: Self)
        ensures
            e@ == EchoModel::fresh(mode),
            e@.wf(),
    {
        let e: EchoBuffer = EchoBuffer {
            max_duration_ms: 10_000,
            mode,
            echoes: HashMap::new(),
            recorders: HashMap::new(),
            live: HashMap::new(),
            next_epoch: 1,
        };
        assert(e@.loops =~= Map::empty());
        assert(e@.recorders =~= Map::empty());
        assert(e@.live =~= Map::empty());
        e
    }

    /// How transmissions are played back.
    pub fn mode(&self) -> (m: EchoMode)
        ensures
            m == self@.mode,
    {
        self.mode
    }

    /// Whether there is anything to play.
    pub fn has_data(&self) -> (r: bool)
        ensures
            r == match self@.mode {
                EchoMode::Loop => exists|f: u32| #[trigger] self@.loops.contains_key(f),
                EchoMode::Live => exists|f: u32| #[trigger] self@.live.contains_key(f),
            },
    {
        match self.mode {
            EchoMode::Loop => {
                let empty: bool = self.echoes.is_empty();
                proof {
                    lemma_empty_or_key(self.echoes@);
                    if exists|f: u32| #[trigger] self@.loops.contains_key(f) {
                        let f = choose|f: u32| #[trigger] self@.loops.contains_key(f);
                        assert(self.echoes@.contains_key(f));
                    } else if exists|f: u32| #[trigger] self.echoes@.contains_key(f) {
                        let f = choose|f: u32| #[trigger] self.echoes@.contains_key(f);
                        assert(self@.loops.contains_key(f));
                    }
                }
                !empty
            },
            EchoMode::Live => {
                let empty: bool = self.live.is_empty();
                proof {
                    lemma_empty_or_key(self.live@);
                    if exists|f: u32| #[trigger] self@.live.contains_key(f) {
                        let f = choose|f: u32| #[trigger] self@.live.contains_key(f);
                        assert(self.live@.contains_key(f));
                    } else if exists|f: u32| #[trigger] self.live@.contains_key(f) {
                        let f = choose|f: u32| #[trigger] self.live@.contains_key(f);
                        assert(self@.live.contains_key(f));
                    }
                }
                !empty
            },
        }
    }

    fn max_samples(&self, sample_rate: u32) -> (n: usize)
        ensures
            n == self@.max_samples(sample_rate),
    {
        let rate: u128 = sample_rate as u128;
        let duration: u128 = nearest_double(self.max_duration_ms as u128 * ONE, 1000);
        assert(duration * rate <= 0x100_0000_0000_0000_0000_0000 * 0x1_0000_0000)
            by (nonlinear_arith)
            requires
                duration <= 0x100_0000_0000_0000_0000_0000,
                rate <= 0x1_0000_0000,
        ;
        let n: u128 = nearest_double(duration * rate, 1) / ONE;
        if n > usize::MAX as u128 {
            usize::MAX
        } else {
            n as usize
        }
    }

    /// A client starts to transmit.
    pub fn start_recording(&mut self, freq: u32, client: u64, sample_rate: u32)
        requires
            old(self)@.wf(),
            old(self)@.next_epoch < u64::MAX,
            old(self)@.recorder(freq, sample_rate).active < u32::MAX,
        ensures
            exists|ns: int|
                ns >= 0 && final(self)@ == #[trigger] old(self)@.started(
                    freq,
                    client,
                    sample_rate,
                    ns,
                ),
            final(self)@.wf(),
    {
        let off: Option<Instant> = match self.recorders.get(&freq) {
            Some(r) => r.last_ptt_off,
            None => None,
        };
        let since: u128 = match off {
            Some(t) => clock::elapsed_nanos(&t),
            None => 0,
        };
        self.start_recording_after(freq, client, sample_rate, since);
        assert(self@ == old(self)@.started(freq, client, sample_rate, since as int));
    }

    /// A client starts to transmit, `since_off_ns` after the last one stopped.
    pub fn start_recording_after(
        &mut self,
        freq: u32,
        client: u64,
        sample_rate: u32,
        since_off_ns: u128,
    )
        requires
            old(self)@.wf(),
            old(self)@.next_epoch < u64::MAX,
            old(self)@.recorder(freq, sample_rate).active < u32::MAX,
        ensures
            final(self)@ == old(self)@.started(freq, client, sample_rate, since_off_ns as int),
            final(self)@.wf(),
    {
        let ghost m = self@;
        let max: usize = self.max_samples(sample_rate);
        let taken: Option<FreqRecorder> = self.recorders.remove(&freq);
        let mut rec: FreqRecorder = match taken {
            Some(r) => r,
            None => FreqRecorder {
                active_count: 0,
                sample_rate,
                recording: Vec::new(),
                last_ptt_off: None,
            },
        };
        assert(rec@ == m.recorder(freq, sample_rate));
        let first: bool = rec.active_count == 0;
        if first {
            rec.sample_rate = sample_rate;
            let resume: bool = self.mode == EchoMode::Loop && rec.last_ptt_off.is_some()
                && since_off_ns < LOOP_SESSION_GAP_NS;
            if resume {
                let pause: u128 = seconds_of(since_off_ns as u64);
                let rate: u128 = sample_rate as u128;
                assert(pause * rate <= 65 * FINE_ONE * 0x1_0000_0000) by (nonlinear_arith)
                    requires
                        pause <= 65 * FINE_ONE,
                        rate <= 0x1_0000_0000,
                ;
                let gap: u128 = nearest_double(pause * rate, 1) / FINE_ONE;
                let room: usize = max.saturating_sub(rec.recording.len());
                let pad: usize = if gap < room as u128 {
                    gap as usize
                } else {
                    room
                };
                extend_quiet(&mut rec.recording, pad);
            } else {
                rec.recording = Vec::new();
            }
            assert(rec@ =~= m.resumed(
                m.recorder(freq, sample_rate),
                sample_rate,
                since_off_ns as int,
            ));
            if self.mode == EchoMode::Live {
                let mut live: LiveBuffer = LiveBuffer::new(max);
                live.epoch = self.next_epoch;
                live.start_client(client);
                self.next_epoch = self.next_epoch + 1;
                self.live.insert(freq, live);
            }
        } else if self.mode == EchoMode::Live {
            let old_live: Option<LiveBuffer> = self.live.remove(&freq);
            if let Some(buffer) = old_live {
                let mut live: LiveBuffer = buffer;
                assert(live@ == m.live[freq]);
                assert(m.live.contains_key(freq));
                live.start_client(client);
                self.live.insert(freq, live);
            }
        }
        rec.active_count = rec.active_count + 1;
        self.recorders.insert(freq, rec);
        proof {
            let target = m.started(freq, client, sample_rate, since_off_ns as int);
            assert(self@.recorders =~= target.recorders);
            assert(self@.live =~= target.live);
            assert(self@.loops =~= target.loops);
            assert(self@ =~= target);
        }
    }

    /// A client transmits samples.
    pub fn feed(&mut self, freq: u32, client: u64, samples: &[EchoSample])
        requires
            old(self)@.wf(),
            old(self)@.live.contains_key(freq) ==> old(self)@.live[freq].tail() + samples@.len()
                <= usize::MAX,
        ensures
            final(self)@ == old(self)@.fed(freq, client, samples@),
            final(self)@.wf(),
    {
        let ghost m = self@;
        if samples.len() == 0 {
            return;
        }
        let rate: u32 = match self.recorders.get(&freq) {
            Some(r) => {
                assert(m.recorders[freq] == r@);
                if r.active_count == 0 {
                    return;
                }
                r.sample_rate
            },
            None => {
                assert(!m.recorders.contains_key(freq));
                return;
            },
        };
        let max: usize = self.max_samples(rate);
        if self.mode == EchoMode::Live {
            let taken: Option<LiveBuffer> = self.live.remove(&freq);
            let mut live: LiveBuffer = match taken {
                Some(l) => {
                    assert(m.live.contains_key(freq) && m.live[freq] == l@);
                    l
                },
                None => LiveBuffer::new(max),
            };
            live.feed_from(client, samples);
            self.live.insert(freq, live);
            assert(self@.live =~= m.fed(freq, client, samples@).live);
        } else {
            let taken: Option<FreqRecorder> = self.recorders.remove(&freq);
            if let Some(recorder) = taken {
                let mut rec: FreqRecorder = recorder;
                let ghost all = rec.recording@ + samples@;
                extend_samples(&mut rec.recording, samples);
                if rec.recording.len() > max {
                    let excess: usize = rec.recording.len() - max;
                    rec.recording = rec.recording.split_off(excess);
                }
                assert(rec.recording@ =~= last_of(all, max as int));
                self.recorders.insert(freq, rec);
            }
            assert(self@.recorders =~= m.fed(freq, client, samples@).recorders);
        }
        assert(self@ =~= m.fed(freq, client, samples@));
    }

    /// A client stops transmitting.
    pub fn stop_recording(&mut self, freq: u32, client: u64)
        requires
            old(self)@.wf(),
        ensures
            exists|now: Instant| final(self)@ == #[trigger] old(self)@.stopped(freq, client, now),
            final(self)@.wf(),
    {
        let now: Instant = clock::now();
        self.stop_recording_at(freq, client, now);
        assert(self@ == old(self)@.stopped(freq, client, now));
    }

    /// A client stops transmitting at `now`.
    pub fn stop_recording_at(&mut self, freq: u32, client: u64, now: Instant)
        requires
            old(self)@.wf(),
        ensures
            final(self)@ == old(self)@.stopped(freq, client, now),
            final(self)@.wf(),
    {
        let ghost m = self@;
        let taken: Option<FreqRecorder> = self.recorders.remove(&freq);
        let mut rec: FreqRecorder = match taken {
            Some(r) => r,
            None => {
                assert(self@.recorders =~= m.recorders);
                return;
            },
        };
        assert(m.recorders.contains_key(freq) && m.recorders[freq] == rec@);
        if rec.active_count == 0 {
            self.recorders.insert(freq, rec);
            assert(self@.recorders =~= m.recorders);
            assert(self@ =~= m);
            return;
        }
        rec.active_count = rec.active_count - 1;
        let left: u32 = rec.active_count;
        if left == 0 {
            rec.last_ptt_off = Some(now);
        }
        self.recorders.insert(freq, rec);
        if self.mode == EchoMode::Live {
            let old_live: Option<LiveBuffer> = self.live.remove(&freq);
            if let Some(buffer) = old_live {
                let mut live: LiveBuffer = buffer;
                assert(m.live.contains_key(freq) && m.live[freq] == live@);
                live.stop_client(client);
                self.live.insert(freq, live);
            } else {
                assert(!m.live.contains_key(freq));
            }
        }
        let ghost quieter = EchoModel {
            recorders: m.recorders.insert(
                freq,
                RecorderModel {
                    active: left,
                    last_off: if left == 0 {
                        Some(now)
                    } else {
                        m.recorders[freq].last_off
                    },
                    ..m.recorders[freq]
                },
            ),
            live: if m.mode is Live && m.live.contains_key(freq) {
                m.live.insert(freq, m.live[freq].client_stopped(client))
            } else {
                m.live
            },
            ..m
        };
        proof {
            assert(self@.recorders =~= quieter.recorders);
            assert(self@.live =~= quieter.live);
            assert(self@.loops =~= quieter.loops);
            assert(self@ =~= quieter);
        }
        if left == 0 && self.mode == EchoMode::Loop {
            self.commit_freq(freq);
        }
    }

    fn commit_freq(&mut self, freq: u32)
        requires
            old(self)@.wf(),
        ensures
            final(self)@ == old(self)@.committed(freq),
            final(self)@.wf(),
    {
        let ghost m = self@;
        let taken: Option<FreqRecorder> = self.recorders.remove(&freq);
        let mut rec: FreqRecorder = match taken {
            Some(r) => r,
            None => {
                assert(self@.recorders =~= m.recorders);
                return;
            },
        };
        assert(m.recorders.contains_key(freq) && m.recorders[freq] == rec@);
        let made: Option<LoopRecording> = if rec.recording.len() == 0 {
            None
        } else if freq == 0 {
            rec.recording = Vec::new();
            None
        } else {
            let max: usize = self.max_samples(rec.sample_rate);
            make_loop(&rec.recording, rec.sample_rate, max)
        };
        self.recorders.insert(freq, rec);
        if let Some(l) = made {
            self.echoes.insert(freq, l);
        }
        proof {
            let target = m.committed(freq);
            assert(self@.recorders =~= target.recorders);
            assert(self@.loops =~= target.loops);
            assert(self@.live =~= target.live);
            assert(self@ =~= target);
        }
    }

    /// Whether somebody transmits on a frequency.
    pub fn is_recording_on(&self, freq: u32) -> (r: bool)
        ensures
            r == self@.is_recording_on(freq),
    {
        match self.recorders.get(&freq) {
            Some(rec) => {
                assert(self@.recorders[freq] == rec@);
                rec.active_count > 0
            },
            None => {
                assert(!self@.recorders.contains_key(freq));
                false
            },
        }
    }
}

/// Room for `starts` more transmissions and `feeds` more frames of samples, as
/// far as numbers and counters go.
pub open spec fn echo_room(m: EchoModel, starts: int, feeds: int) -> bool {
    &&& m.next_epoch + starts <= u64::MAX
    &&& forall|f: u32| #[trigger]
        m.recorders.contains_key(f) ==> m.recorders[f].active + starts <= u32::MAX
    &&& forall|f: u32| #[trigger]
        m.live.contains_key(f) ==> m.live[f].tail() + TX_SAMPLES_PER_FRAME * feeds <= usize::MAX
}

impl EchoBuffer {
    /// Whether a client may start to transmit on a frequency: the numbers of
    /// transmissions and of clients can still be counted.
    pub fn can_start(&self, freq: u32) -> (r: bool)
        ensures
            r == (self@.next_epoch < u64::MAX && (self@.recorders.contains_key(freq)
                ==> self@.recorders[freq].active < u32::MAX)),
    {
        let active: u32 = match self.recorders.get(&freq) {
            Some(rec) => {
                assert(self@.recorders[freq] == rec@);
                rec.active_count
            },
            None => {
                assert(!self@.recorders.contains_key(freq));
                0
            },
        };
        self.next_epoch < u64::MAX && active < u32::MAX
    }

    /// Whether a client may transmit `n` samples on a frequency: the samples of
    /// the transmission can still be counted.
    pub fn can_feed(&self, freq: u32, n: usize) -> (r: bool)
        requires
            self@.wf(),
        ensures
            r == (self@.live.contains_key(freq) ==> self@.live[freq].tail() + n <= usize::MAX),
    {
        match self.live.get(&freq) {
            Some(live) => {
                assert(self@.live.contains_key(freq) && self@.live[freq] == live@);
                n <= usize::MAX - (live.drained + live.data.len())
            },
            None => {
                assert(!self@.live.contains_key(freq));
                true
            },
        }
    }

    /// Whether a packet of two frames can be taken in.
    pub fn has_room(&self) -> (r: bool)
        requires
            self@.wf(),
        ensures
            r == echo_room(self@, 2, 2),
    {
        if self.next_epoch > u64::MAX - 2 {
            return false;
        }
        let recorded: Vec<u32> = keys_of(&self.recorders);
        let mut i: usize = 0;
        while i < recorded.len()
            invariant
                i <= recorded@.len(),
                forall|k: int|
                    0 <= k < recorded@.len() ==> self.recorders@.contains_key(
                        #[trigger] recorded@[k],
                    ),
                forall|k: int|
                    0 <= k < i ==> self@.recorders[#[trigger] recorded@[k]].active + 2 <= u32::MAX,
            decreases recorded@.len() - i,
        {
            let freq: u32 = recorded[i];
            if let Some(rec) = self.recorders.get(&freq) {
                assert(self@.recorders.contains_key(freq) && self@.recorders[freq] == rec@);
                if rec.active_count > u32::MAX - 2 {
                    return false;
                }
            }
            i = i + 1;
        }
        let heard: Vec<u32> = keys_of(&self.live);
        let mut i: usize = 0;
        while i < heard.len()
            invariant
                i <= heard@.len(),
                self@.wf(),
                forall|k: int|
                    0 <= k < heard@.len() ==> self.live@.contains_key(#[trigger] heard@[k]),
                forall|k: int|
                    0 <= k < i ==> self@.live[#[trigger] heard@[k]].tail() + 2
                        * TX_SAMPLES_PER_FRAME <= usize::MAX,
            decreases heard@.len() - i,
        {
            let freq: u32 = heard[i];
            assert(self@.live.contains_key(freq));
            if !self.can_feed(freq, 2 * TX_SAMPLES_PER_FRAME) {
                return false;
            }
            i = i + 1;
        }
        proof {
            assert forall|f: u32| #[trigger] self@.recorders.contains_key(f) implies self@.recorders[f].active
                + 2 <= u32::MAX by {
                assert(self.recorders@.contains_key(f));
                let k = recorded@.index_of(f);
                assert(recorded@[k] == f);
            }
            assert forall|f: u32| #[trigger] self@.live.contains_key(f) implies self@.live[f].tail()
                + TX_SAMPLES_PER_FRAME * 2 <= usize::MAX by {
                assert(self.live@.contains_key(f));
                let k = heard@.index_of(f);
                assert(heard@[k] == f);
            }
        }
        true
    }
}

/// A segment is what a loop gives to a listener on `rx_freq`.
pub open spec fn is_loop_segment(
    m: EchoModel,
    ps: PlaybackModel,
    seg: LoopSegment,
    rx_freq: u32,
    n: nat,
) -> bool {
    &&& seg.offset_hz == rx_freq - seg.freq
    &&& seg.samples@ == m.loops[seg.freq].run(loop_from(m, ps, seg.freq), n)
}

/// Where playback of a loop goes on.
pub open spec fn loop_from(m: EchoModel, ps: PlaybackModel, freq: u32) -> int {
    if ps.loop_pos.contains_key(freq) {
        ps.loop_pos[freq] as int % m.loops[freq].period()
    } else {
        0
    }
}

/// Playback of the loops in the band of a listener after `n` samples.
pub open spec fn loops_played(
    m: EchoModel,
    ps: PlaybackModel,
    rx_freq: u32,
    sample_rate: u32,
    n: nat,
) -> PlaybackModel {
    let played = |f: u32| m.loops.contains_key(f) && in_band(rx_freq, f, sample_rate);
    PlaybackModel {
        loop_pos: Map::new(
            |f: u32| ps.loop_pos.contains_key(f) || played(f),
            |f: u32|
                if played(f) {
                    ((loop_from(m, ps, f) + n) % m.loops[f].period()) as usize
                } else {
                    ps.loop_pos[f]
                },
        ),
        ..ps
    }
}

/// A segment is what a live transmission gives to a listener on `rx_freq`.
pub open spec fn is_live_segment(
    m: EchoModel,
    ps: PlaybackModel,
    seg: LiveSegment,
    rx_freq: u32,
    n: nat,
) -> bool {
    let live = m.live[seg.freq];
    let from = m.live_from(ps, seg.freq) - live.drained;
    let count = m.live_count(ps, seg.freq, n as int);
    &&& seg.offset_hz == rx_freq - seg.freq
    &&& seg.restarted == (live_epoch_of(ps, seg.freq) != live.epoch)
    &&& seg.samples@ == live.data.subrange(
        if count > 0 {
            from
        } else {
            0
        },
        (if count > 0 {
            from
        } else {
            0
        }) + count,
    ) + quiet((n - count) as nat)
}

/// Transmission that a listener last heard on a frequency.
pub open spec fn live_epoch_of(ps: PlaybackModel, freq: u32) -> u64 {
    if ps.live_epoch.contains_key(freq) {
        ps.live_epoch[freq]
    } else {
        0
    }
}

/// Playback of the live transmissions in the band of a listener after `n`
/// samples.
pub open spec fn live_played(
    m: EchoModel,
    ps: PlaybackModel,
    rx_freq: u32,
    sample_rate: u32,
    n: nat,
) -> PlaybackModel {
    let played = |f: u32| m.live.contains_key(f) && in_band(rx_freq, f, sample_rate);
    PlaybackModel {
        live_pos: Map::new(
            |f: u32| ps.live_pos.contains_key(f) || played(f),
            |f: u32|
                if played(f) {
                    (m.live_from(ps, f) + m.live_count(ps, f, n as int)) as usize
                } else {
                    ps.live_pos[f]
                },
        ),
        live_epoch: Map::new(
            |f: u32| ps.live_epoch.contains_key(f) || played(f),
            |f: u32|
                if played(f) {
                    m.live[f].epoch
                } else {
                    ps.live_epoch[f]
                },
        ),
        ..ps
    }
}

/// Whether a frequency lies within the band around `rx_freq`.
pub fn is_in_band(rx_freq: u32, freq: u32, sample_rate: u32) -> (r: bool)
    ensures
        r == in_band(rx_freq, freq, sample_rate),
{
    let offset: i64 = rx_freq as i64 - freq as i64;
    let rate: i64 = sample_rate as i64;
    -rate <= 2 * offset && 2 * offset <= rate
}

impl LoopRecording {
    /// The sample at a place of the loop.
    fn at(&self, pos: usize, period: usize) -> (s: LoopSample)
        requires
            self@.wf(),
            period == self@.period(),
            pos < period,
        ensures
            s == self@.at(pos as int),
    {
        assert(self.fade > 1 && pos < self.fade ==> period + pos < self.samples.len());
        let tail: Option<EchoSample> = if self.fade > 1 && pos < self.fade {
            Some(self.samples[period + pos])
        } else {
            None
        };
        LoopSample { head: self.samples[pos], tail, pos, fade: self.fade }
    }

    /// `n` samples of the loop from `start` on, and the place behind them.
    fn play(&self, start: usize, n: usize) -> (r: (Vec<LoopSample>, usize))
        requires
            self@.wf(),
            start < self@.period(),
        ensures
            r.0@ == self@.run(start as int, n as nat),
            r.1 == (start + n) % self@.period(),
    {
        let period: usize = if self.fade > 1 {
            self.samples.len() - self.fade
        } else {
            self.samples.len()
        };
        let mut out: Vec<LoopSample> = Vec::new();
        let mut pos: usize = start;
        let mut k: usize = 0;
        proof {
            vstd::arithmetic::div_mod::lemma_small_mod(start as nat, period as nat);
        }
        while k < n
            invariant
                k <= n,
                self@.wf(),
                period == self@.period(),
                pos < period,
                pos == (start + k) % period as int,
                out@ == self@.run(start as int, k as nat),
            decreases n - k,
        {
            out.push(self.at(pos, period));
            proof {
                lemma_mod_step((start + k) as nat, period as nat);
            }
            pos = if pos + 1 == period {
                0
            } else {
                pos + 1
            };
            k = k + 1;
            assert(out@ =~= self@.run(start as int, k as nat));
        }
        (out, pos)
    }
}

proof fn lemma_mod_step(x: nat, d: nat)
    requires
        d > 0,
    ensures
        (x + 1) % d == if x % d + 1 == d {
            0
        } else {
            x % d + 1
        },
{
    assert((x + 1) % d == if x % d + 1 == d {
        0
    } else {
        x % d + 1
    }) by (nonlinear_arith)
        requires
            d > 0,
    {
        let q = x / d;
        let r = x % d;
        assert(x == q * d + r);
        if r + 1 == d {
            assert(x + 1 == (q + 1) * d);
            vstd::arithmetic::div_mod::lemma_mod_multiples_basic((q + 1) as int, d as int);
        } else {
            assert(x + 1 == q * d + (r + 1));
            vstd::arithmetic::div_mod::lemma_fundamental_div_mod_converse(
                (x + 1) as int,
                d as int,
                q as int,
                (r + 1) as int,
            );
        }
    }
}

impl EchoBuffer {
    fn loop_segment(
        &self,
        ps: &mut EchoPlaybackState,
        freq: u32,
        n: usize,
        rx_freq: u32,
    ) -> (seg: LoopSegment)
        requires
            self@.wf(),
            self@.loops.contains_key(freq),
        ensures
            seg.freq == freq,
            is_loop_segment(self@, old(ps)@, seg, rx_freq, n as nat),
            final(ps)@ == (PlaybackModel {
                loop_pos: old(ps)@.loop_pos.insert(
                    freq,
                    ((loop_from(self@, old(ps)@, freq) + n) % self@.loops[freq].period()) as usize,
                ),
                ..old(ps)@
            }),
    {
        let offset_hz: i64 = rx_freq as i64 - freq as i64;
        match self.echoes.get(&freq) {
            Some(l) => {
                assert(self@.loops[freq] == l@);
                assert(l@.wf());
                let period: usize = if l.fade > 1 {
                    l.samples.len() - l.fade
                } else {
                    l.samples.len()
                };
                let start: usize = match ps.playback_pos.get(&freq) {
                    Some(p) => *p % period,
                    None => 0,
                };
                let (samples, next) = l.play(start, n);
                ps.playback_pos.insert(freq, next);
                LoopSegment { freq, offset_hz, samples }
            },
            None => {
                assert(false);
                LoopSegment { freq, offset_hz, samples: Vec::new() }
            },
        }
    }

    /// What the loops in the band around `rx_freq` give for the next `n_samples`.
    pub fn generate_echo_into(
        &self,
        ps: &mut EchoPlaybackState,
        n_samples: usize,
        rx_freq: u32,
        sample_rate: u32,
    ) -> (segments: Vec<LoopSegment>)
        requires
            self@.wf(),
        ensures
            final(ps)@ == loops_played(self@, old(ps)@, rx_freq, sample_rate, n_samples as nat),
            forall|k: int|
                0 <= k < segments@.len() ==> is_loop_segment(
                    self@,
                    old(ps)@,
                    #[trigger] segments@[k],
                    rx_freq,
                    n_samples as nat,
                ),
            loop_freqs(segments@).no_duplicates(),
            forall|f: u32| #[trigger]
                loop_freqs(segments@).contains(f) <==> self@.loops.contains_key(f) && in_band(
                    rx_freq,
                    f,
                    sample_rate,
                ),
    {
        let ghost m = self@;
        let ghost ps0 = ps@;
        let ghost n = n_samples as nat;
        let freqs: Vec<u32> = keys_in_band(&self.echoes, rx_freq, sample_rate);
        let mut segments: Vec<LoopSegment> = Vec::new();
        let mut i: usize = 0;
        assert(freqs@.take(0) =~= Seq::empty());
        while i < freqs.len()
            invariant
                i <= freqs@.len(),
                m == self@,
                m.wf(),
                n == n_samples,
                freqs@.no_duplicates(),
                forall|f: u32| #[trigger]
                    freqs@.contains(f) <==> m.loops.contains_key(f) && in_band(
                        rx_freq,
                        f,
                        sample_rate,
                    ),
                loop_freqs(segments@) == freqs@.take(i as int),
                forall|k: int|
                    0 <= k < segments@.len() ==> is_loop_segment(
                        m,
                        ps0,
                        #[trigger] segments@[k],
                        rx_freq,
                        n,
                    ),
                ps@.live_pos == ps0.live_pos,
                ps@.live_epoch == ps0.live_epoch,
                forall|f: u32| #[trigger]
                    ps@.loop_pos.contains_key(f) <==> ps0.loop_pos.contains_key(f) || freqs@.take(
                        i as int,
                    ).contains(f),
                forall|f: u32| #[trigger]
                    ps@.loop_pos.contains_key(f) ==> ps@.loop_pos[f] == if freqs@.take(
                        i as int,
                    ).contains(f) {
                        ((loop_from(m, ps0, f) + n) % m.loops[f].period()) as usize
                    } else {
                        ps0.loop_pos[f]
                    },
            decreases freqs@.len() - i,
        {
            let freq: u32 = freqs[i];
            let ghost ps1 = ps@;
            proof {
                assert(freqs@.contains(freqs@[i as int]));
                lemma_not_before(freqs@, i as int);
                assert(ps1.loop_pos.contains_key(freq) == ps0.loop_pos.contains_key(freq));
            }
            let ghost segs0 = segments@;
            let seg: LoopSegment = self.loop_segment(ps, freq, n_samples, rx_freq);
            segments.push(seg);
            i = i + 1;
            proof {
                assert(loop_freqs(segs0).len() == segs0.len());
                assert(segs0.len() == i - 1);
                assert forall|k: int| 0 <= k < i implies loop_freqs(segments@)[k] == freqs@[k] by {
                    if k < i - 1 {
                        assert(loop_freqs(segs0)[k] == freqs@.take(i - 1)[k]);
                        assert(segments@[k] == segs0[k]);
                    }
                }
                assert(loop_freqs(segments@) =~= freqs@.take(i as int));
                assert forall|f: u32| freqs@.take(i as int).contains(f) == (freqs@.take(
                    i - 1,
                ).contains(f) || f == freq) by {
                    lemma_take_contains(freqs@, i - 1, f);
                }
                assert forall|f: u32| #[trigger] ps@.loop_pos.contains_key(f) implies ps@.loop_pos[f]
                    == if freqs@.take(i as int).contains(f) {
                    ((loop_from(m, ps0, f) + n) % m.loops[f].period()) as usize
                } else {
                    ps0.loop_pos[f]
                } by {
                    if f != freq {
                        assert(ps1.loop_pos.contains_key(f));
                    }
                }
            }
        }
        proof {
            assert(freqs@.take(freqs@.len() as int) =~= freqs@);
            assert(ps@.loop_pos =~= loops_played(m, ps0, rx_freq, sample_rate, n).loop_pos);
            assert(ps@ =~= loops_played(m, ps0, rx_freq, sample_rate, n));
        }
        segments
    }

    fn live_segment(
        &self,
        ps: &mut EchoPlaybackState,
        freq: u32,
        n: usize,
        rx_freq: u32,
    ) -> (seg: LiveSegment)
        requires
            self@.wf(),
            self@.live.contains_key(freq),
        ensures
            seg.freq == freq,
            is_live_segment(self@, old(ps)@, seg, rx_freq, n as nat),
            final(ps)@ == (PlaybackModel {
                live_pos: old(ps)@.live_pos.insert(
                    freq,
                    (self@.live_from(old(ps)@, freq) + self@.live_count(
                        old(ps)@,
                        freq,
                        n as int,
                    )) as usize,
                ),
                live_epoch: old(ps)@.live_epoch.insert(freq, self@.live[freq].epoch),
                ..old(ps)@
            }),
    {
        let ghost m = self@;
        let ghost ps0 = ps@;
        let offset_hz: i64 = rx_freq as i64 - freq as i64;
        let recording: bool = self.is_recording_on(freq);
        match self.live.get(&freq) {
            Some(live) => {
                assert(m.live[freq] == live@);
                assert(live@.wf());
                let len: usize = live.data.len();
                let tail: usize = live.drained + len;
                let heard: u64 = match ps.live_epoch.get(&freq) {
                    Some(e) => *e,
                    None => 0,
                };
                let restarted: bool = heard != live.epoch;
                let behind: usize = tail.saturating_sub(LIVE_DELAY);
                let stored: usize = if restarted {
                    behind
                } else {
                    match ps.live_pos.get(&freq) {
                        Some(p) => *p,
                        None => behind,
                    }
                };
                let from: usize = if stored < live.drained {
                    live.drained
                } else {
                    stored
                };
                assert(from == m.live_from(ps0, freq));
                let idx: usize = from - live.drained;
                let end: usize = if recording {
                    len.saturating_sub(LIVE_DELAY)
                } else {
                    len
                };
                let count: usize = if idx >= end {
                    0
                } else if n < end - idx {
                    n
                } else {
                    end - idx
                };
                assert(count == m.live_count(ps0, freq, n as int));
                let mut samples: Vec<EchoSample> = Vec::new();
                let ghost low = if count > 0 {
                    idx as int
                } else {
                    0
                };
                let mut k: usize = 0;
                while k < count
                    invariant
                        k <= count,
                        count > 0 ==> low == idx && idx + count <= live.data@.len(),
                        count == 0 ==> low == 0,
                        live.data@.len() <= usize::MAX,
                        samples@ == live.data@.subrange(low, low + k),
                    decreases count - k,
                {
                    samples.push(live.data[idx + k]);
                    k = k + 1;
                    assert(samples@ =~= live.data@.subrange(low, low + k));
                }
                extend_quiet(&mut samples, n - count);
                ps.live_epoch.insert(freq, live.epoch);
                ps.live_pos.insert(freq, from + count);
                LiveSegment { freq, offset_hz, restarted, samples }
            },
            None => {
                assert(false);
                LiveSegment { freq, offset_hz, restarted: false, samples: Vec::new() }
            },
        }
    }

    /// What the live transmissions in the band around `rx_freq` give for the next
    /// `n_samples`.
    pub fn generate_live_echo_into(
        &self,
        ps: &mut EchoPlaybackState,
        n_samples: usize,
        rx_freq: u32,
        sample_rate: u32,
    ) -> (segments: Vec<LiveSegment>)
        requires
            self@.wf(),
        ensures
            final(ps)@ == live_played(self@, old(ps)@, rx_freq, sample_rate, n_samples as nat),
            forall|k: int|
                0 <= k < segments@.len() ==> is_live_segment(
                    self@,
                    old(ps)@,
                    #[trigger] segments@[k],
                    rx_freq,
                    n_samples as nat,
                ),
            live_freqs(segments@).no_duplicates(),
            forall|f: u32| #[trigger]
                live_freqs(segments@).contains(f) <==> self@.live.contains_key(f) && in_band(
                    rx_freq,
                    f,
                    sample_rate,
                ),
    {
        let ghost m = self@;
        let ghost ps0 = ps@;
        let ghost n = n_samples as nat;
        let freqs: Vec<u32> = keys_in_band(&self.live, rx_freq, sample_rate);
        let mut segments: Vec<LiveSegment> = Vec::new();
        let mut i: usize = 0;
        assert(freqs@.take(0) =~= Seq::empty());
        while i < freqs.len()
            invariant
                i <= freqs@.len(),
                m == self@,
                m.wf(),
                n == n_samples,
                freqs@.no_duplicates(),
                forall|f: u32| #[trigger]
                    freqs@.contains(f) <==> m.live.contains_key(f) && in_band(
                        rx_freq,
                        f,
                        sample_rate,
                    ),
                live_freqs(segments@) == freqs@.take(i as int),
                forall|k: int|
                    0 <= k < segments@.len() ==> is_live_segment(
                        m,
                        ps0,
                        #[trigger] segments@[k],
                        rx_freq,
                        n,
                    ),
                ps@.loop_pos == ps0.loop_pos,
                forall|f: u32| #[trigger]
                    ps@.live_pos.contains_key(f) <==> ps0.live_pos.contains_key(f) || freqs@.take(
                        i as int,
                    ).contains(f),
                forall|f: u32| #[trigger]
                    ps@.live_epoch.contains_key(f) <==> ps0.live_epoch.contains_key(f)
                        || freqs@.take(i as int).contains(f),
                forall|f: u32| #[trigger]
                    ps@.live_pos.contains_key(f) ==> ps@.live_pos[f] == if freqs@.take(
                        i as int,
                    ).contains(f) {
                        (m.live_from(ps0, f) + m.live_count(ps0, f, n as int)) as usize
                    } else {
                        ps0.live_pos[f]
                    },
                forall|f: u32| #[trigger]
                    ps@.live_epoch.contains_key(f) ==> ps@.live_epoch[f] == if freqs@.take(
                        i as int,
                    ).contains(f) {
                        m.live[f].epoch
                    } else {
                        ps0.live_epoch[f]
                    },
            decreases freqs@.len() - i,
        {
            let freq: u32 = freqs[i];
            let ghost ps1 = ps@;
            proof {
                assert(freqs@.contains(freqs@[i as int]));
                lemma_not_before(freqs@, i as int);
                assert(ps1.live_pos.contains_key(freq) == ps0.live_pos.contains_key(freq));
                assert(ps1.live_epoch.contains_key(freq) == ps0.live_epoch.contains_key(freq));
                assert(m.live_from(ps1, freq) == m.live_from(ps0, freq));
            }
            let ghost segs0 = segments@;
            let seg: LiveSegment = self.live_segment(ps, freq, n_samples, rx_freq);
            segments.push(seg);
            i = i + 1;
            proof {
                assert(live_freqs(segs0).len() == segs0.len());
                assert(segs0.len() == i - 1);
                assert forall|k: int| 0 <= k < i implies live_freqs(segments@)[k] == freqs@[k] by {
                    if k < i - 1 {
                        assert(live_freqs(segs0)[k] == freqs@.take(i - 1)[k]);
                        assert(segments@[k] == segs0[k]);
                    }
                }
                assert(live_freqs(segments@) =~= freqs@.take(i as int));
                assert forall|f: u32| freqs@.take(i as int).contains(f) == (freqs@.take(
                    i - 1,
                ).contains(f) || f == freq) by {
                    lemma_take_contains(freqs@, i - 1, f);
                }
                assert forall|f: u32| #[trigger] ps@.live_pos.contains_key(f) implies ps@.live_pos[f]
                    == if freqs@.take(i as int).contains(f) {
                    (m.live_from(ps0, f) + m.live_count(ps0, f, n as int)) as usize
                } else {
                    ps0.live_pos[f]
                } by {
                    if f != freq {
                        assert(ps1.live_pos.contains_key(f));
                    }
                }
                assert forall|f: u32| #[trigger]
                    ps@.live_epoch.contains_key(f) implies ps@.live_epoch[f] == if freqs@.take(
                    i as int,
                ).contains(f) {
                    m.live[f].epoch
                } else {
                    ps0.live_epoch[f]
                } by {
                    if f != freq {
                        assert(ps1.live_epoch.contains_key(f));
                    }
                }
            }
        }
        proof {
            let target = live_played(m, ps0, rx_freq, sample_rate, n);
            assert(freqs@.take(freqs@.len() as int) =~= freqs@);
            assert(ps@.live_pos =~= target.live_pos);
            assert(ps@.live_epoch =~= target.live_epoch);
            assert(ps@ =~= target);
        }
        segments
    }
}

/// Frequencies of a run of segments.
pub open spec fn loop_freqs(segments: Seq<LoopSegment>) -> Seq<u32> {
    segments.map_values(|s: LoopSegment| s.freq)
}

/// Frequencies of a run of segments.
pub open spec fn live_freqs(segments: Seq<LiveSegment>) -> Seq<u32> {
    segments.map_values(|s: LiveSegment| s.freq)
}

proof fn lemma_not_before(s: Seq<u32>, i: int)
    requires
        s.no_duplicates(),
        0 <= i < s.len(),
    ensures
        !s.take(i).contains(s[i]),
{
    if s.take(i).contains(s[i]) {
        let k = s.take(i).index_of(s[i]);
        assert(s.take(i)[k] == s[k]);
    }
}

proof fn lemma_take_contains(s: Seq<u32>, i: int, f: u32)
    requires
        0 <= i < s.len(),
    ensures
        s.take(i + 1).contains(f) == (s.take(i).contains(f) || f == s[i]),
{
    let a = s.take(i);
    let b = s.take(i + 1);
    assert(b[i] == s[i]);
    if a.contains(f) {
        let k = a.index_of(f);
        assert(b[k] == f);
    }
    if b.contains(f) && f != s[i] {
        let k = b.index_of(f);
        assert(b[k] == f);
        assert(a[k] == f);
    }
}

proof fn lemma_empty_or_key<K, V>(m: Map<K, V>)
    requires
        m.dom().finite(),
    ensures
        m.is_empty() <==> !(exists|k: K| #[trigger] m.contains_key(k)),
        m.len() == 0 <==> !(exists|k: K| #[trigger] m.contains_key(k)),
{
    if m.len() == 0 {
        assert forall|k: K| !#[trigger] m.contains_key(k) by {
            if m.contains_key(k) {
                assert(m.dom().len() == 0);
                assert(m.dom().contains(k));
                vstd::set_lib::lemma_set_empty_equivalency_len(m.dom());
            }
        }
    } else {
        vstd::set_lib::lemma_set_empty_equivalency_len(m.dom());
        let k = m.dom().choose();
        assert(m.contains_key(k));
    }
}

/// The keys of a map, each once.
fn keys_of<V>(m: &HashMap<u32, V>) -> (keys: Vec<u32>)
    ensures
        keys@.no_duplicates(),
        forall|k: int| 0 <= k < keys@.len() ==> m@.contains_key(#[trigger] keys@[k]),
        forall|f: u32| #[trigger] m@.contains_key(f) ==> keys@.contains(f),
{
    let mut keys: Vec<u32> = Vec::new();
    for key in it: m.keys()
        invariant
            keys@ == it.seq().unref().take(it.index()),
            it.seq().unref().to_set() == m@.dom(),
            it.seq().no_duplicates(),
            forall|f: u32| #[trigger]
                m@.contains_key(f) ==> keys@.contains(f) || exists|j: int|
                    it.index() <= j < it.seq().len() && *(#[trigger] it.seq()[j]) == f,
    {
        let ghost before = keys@;
        keys.push(*key);
        proof {
            assert(keys@ =~= it.seq().unref().take(it.index() + 1));
            assert forall|f: u32| #[trigger] m@.contains_key(f) implies keys@.contains(f)
                || exists|j: int|
                it.index() + 1 <= j < it.seq().len() && *(#[trigger] it.seq()[j]) == f by {
                if before.contains(f) {
                    let k = before.index_of(f);
                    assert(keys@[k] == f);
                } else {
                    let j = choose|j: int|
                        it.index() <= j < it.seq().len() && *(#[trigger] it.seq()[j]) == f;
                    if j == it.index() {
                        assert(keys@[before.len() as int] == f);
                    } else {
                        assert(*it.seq()[j] == f);
                    }
                }
            }
        }
    }
    keys
}

/// The frequencies of a map that lie within the band around `rx_freq`, each once.
fn keys_in_band<V>(m: &HashMap<u32, V>, rx_freq: u32, sample_rate: u32) -> (keys: Vec<u32>)
    ensures
        keys@.no_duplicates(),
        forall|f: u32| #[trigger]
            keys@.contains(f) <==> m@.contains_key(f) && in_band(rx_freq, f, sample_rate),
{
    let all: Vec<u32> = keys_of(m);
    let mut keys: Vec<u32> = Vec::new();
    let mut i: usize = 0;
    assert(all@.take(0) =~= Seq::empty());
    while i < all.len()
        invariant
            i <= all@.len(),
            all@.no_duplicates(),
            keys@.no_duplicates(),
            forall|f: u32| #[trigger]
                keys@.contains(f) <==> all@.take(i as int).contains(f) && in_band(
                    rx_freq,
                    f,
                    sample_rate,
                ),
        decreases all@.len() - i,
    {
        let ghost before = keys@;
        let key: u32 = all[i];
        proof {
            lemma_not_before(all@, i as int);
            assert(!before.contains(key));
        }
        let hit: bool = is_in_band(rx_freq, key, sample_rate);
        if hit {
            keys.push(key);
        }
        i = i + 1;
        proof {
            assert forall|f: u32| #[trigger] keys@.contains(f) <==> (all@.take(i as int).contains(f)
                && in_band(rx_freq, f, sample_rate)) by {
                lemma_take_contains(all@, i - 1, f);
                assert(before.contains(f) <==> all@.take(i - 1).contains(f) && in_band(
                    rx_freq,
                    f,
                    sample_rate,
                ));
                if hit {
                    assert(keys@.take(before.len() as int) =~= before);
                    assert(keys@.take(keys@.len() as int) =~= keys@);
                    lemma_take_contains(keys@, before.len() as int, f);
                }
            }
        }
    }
    assert(all@.take(all@.len() as int) =~= all@);
    assert forall|f: u32| all@.contains(f) implies m@.contains_key(f) by {
        let k = all@.index_of(f);
        assert(m@.contains_key(all@[k]));
    }
    keys
}

fn extend_quiet(v: &mut Vec<EchoSample>, n: usize)
    ensures
        final(v)@ == old(v)@ + quiet(n as nat),
{
    let ghost before = v@;
    let mut i: usize = 0;
    while i < n
        invariant
            i <= n,
            v@ == before + quiet(i as nat),
        decreases n - i,
    {
        v.push(EchoSample { i: 0, q: 0 });
        i = i + 1;
        assert(v@ =~= before + quiet(i as nat));
    }
}

fn extend_samples(v: &mut Vec<EchoSample>, samples: &[EchoSample])
    ensures
        final(v)@ == old(v)@ + samples@,
{
    let ghost before = v@;
    let mut i: usize = 0;
    while i < samples.len()
        invariant
            i <= samples@.len(),
            v@ == before + samples@.take(i as int),
        decreases samples@.len() - i,
    {
        v.push(samples[i]);
        i = i + 1;
        assert(v@ =~= before + samples@.take(i as int));
    }
    assert(samples@.take(samples@.len() as int) == samples@);
}

fn is_silent(s: EchoSample) -> (r: bool)
    ensures
        r == (s == silence()),
{
    s.i == 0 && s.q == 0
}

fn make_loop(recording: &Vec<EchoSample>, sample_rate: u32, max: usize) -> (r: Option<LoopRecording>)
    ensures
        r is Some <==> loop_of(recording@, sample_rate, max as int) is Some,
        r matches Some(l) ==> l@ == loop_of(recording@, sample_rate, max as int)->0 && l@.wf(),
{
    let n: usize = if recording.len() > max {
        max
    } else {
        recording.len()
    };
    let ghost kept = if recording@.len() > max {
        recording@.take(max as int)
    } else {
        recording@
    };
    let mut first: usize = 0;
    while first < n && is_silent(recording[first])
        invariant
            first <= n,
            n <= recording@.len(),
            n == kept.len(),
            forall|k: int| 0 <= k < n ==> #[trigger] kept[k] == recording@[k],
            forall|k: int| 0 <= k < first ==> #[trigger] kept[k] == silence(),
        decreases n - first,
    {
        assert(kept[first as int] == silence());
        first = first + 1;
    }
    proof {
        if first < n {
            assert(kept[first as int] == recording@[first as int]);
        }
        lemma_trim_start(kept, first as int);
    }
    let ghost front = kept.skip(first as int);
    let mut end: usize = n;
    while end > first && is_silent(recording[end - 1])
        invariant
            first <= end <= n,
            n <= recording@.len(),
            n == kept.len(),
            front == kept.skip(first as int),
            forall|k: int| 0 <= k < n ==> #[trigger] kept[k] == recording@[k],
            forall|k: int| end - first <= k < front.len() ==> #[trigger] front[k] == silence(),
        decreases end,
    {
        assert(front[end - 1 - first] == kept[end - 1]);
        end = end - 1;
    }
    proof {
        if end > first {
            assert(front[end - 1 - first] == kept[end - 1]);
        }
        lemma_trim_end(front, end - first);
    }
    let ghost body = front.take(end - first);
    assert(body == trim_end(trim_start(kept)));
    if end == first {
        return None;
    }
    let mut samples: Vec<EchoSample> = Vec::new();
    let mut k: usize = first;
    while k < end
        invariant
            first <= k <= end,
            end <= n,
            n <= recording@.len(),
            n == kept.len(),
            front == kept.skip(first as int),
            body == front.take(end - first),
            forall|j: int| 0 <= j < n ==> #[trigger] kept[j] == recording@[j],
            samples@ == body.take(k - first),
        decreases end - k,
    {
        assert(body[k - first] == kept[k as int]);
        samples.push(recording[k]);
        k = k + 1;
        assert(samples@ =~= body.take(k - first));
    }
    assert(body.take(end - first) =~= body);
    let half_second: usize = ((sample_rate as u64 + 1) / 2) as usize;
    let room: usize = max - samples.len();
    let pad: usize = if half_second < room {
        half_second
    } else {
        room
    };
    extend_quiet(&mut samples, pad);
    let quarter: usize = samples.len() / 4;
    let forty_ms: usize = (sample_rate / 25) as usize;
    let fade: usize = if forty_ms < quarter {
        forty_ms
    } else {
        quarter
    };
    let l: LoopRecording = LoopRecording { samples, fade };
    assert(l@ =~= loop_of(recording@, sample_rate, max as int)->0);
    Some(l)
}

/// Reads transmit samples of eight-byte blocks into `out`, as many as fit, and
/// returns their number.
pub fn unpack_tx_iq_16bit_into(data: &[u8], out: &mut [EchoSample]) -> (n: usize)
    ensures
        n == if data@.len() / 8 < old(out)@.len() {
            data@.len() / 8
        } else {
            old(out)@.len()
        },
        final(out)@ == Seq::new(n as nat, |k: int| echo_sample_at(data@, 8 * k)) + old(out)@.skip(
            n as int,
        ),
{
    let blocks: usize = data.len() / 8;
    let n: usize = if blocks < out.len() {
        blocks
    } else {
        out.len()
    };
    let ghost before = out@;
    let mut k: usize = 0;
    while k < n
        invariant
            k <= n,
            8 * n <= data@.len() <= usize::MAX,
            n <= before.len(),
            out@ == Seq::new(k as nat, |j: int| echo_sample_at(data@, 8 * j)) + before.skip(
                k as int,
            ),
        decreases n - k,
    {
        let off: usize = 8 * k;
        let i: i64 = read_signed_be16(data, off + 4) as i64;
        let q: i64 = read_signed_be16(data, off + 6) as i64;
        out[k] = EchoSample { i, q };
        k = k + 1;
        assert(out@ =~= Seq::new(k as nat, |j: int| echo_sample_at(data@, 8 * j)) + before.skip(
            k as int,
        ));
    }
    n
}

/// The transmit sample in the eight-byte block at `at`.
pub open spec fn echo_sample_at(data: Seq<u8>, at: int) -> EchoSample {
    EchoSample { i: tx_sample_at(data, at).i as i64, q: tx_sample_at(data, at).q as i64 }
}

/// Playing a loop for `a` samples and then for `b` gives what playing it for
/// `a + b` samples gives: the loop goes on where it was.
pub proof fn lemma_loop_goes_on(l: LoopModel, pos: int, a: nat, b: nat)
    requires
        l.wf(),
        0 <= pos < l.period(),
    ensures
        l.run(pos, a) + l.run((pos + a) % l.period(), b) == l.run(pos, a + b),
{
    let p = l.period();
    let left = l.run(pos, a) + l.run((pos + a) % p, b);
    let right = l.run(pos, a + b);
    assert forall|k: int| 0 <= k < a + b implies left[k] == right[k] by {
        if k >= a {
            vstd::arithmetic::div_mod::lemma_add_mod_noop_right(k - a, pos + a, p);
            assert(((k - a) + (pos + a) % p) % p == ((k - a) + (pos + a)) % p);
        }
    }
    assert(left =~= right);
}

/// A loop repeats after its period.
pub proof fn lemma_loop_repeats(l: LoopModel, pos: int, n: nat, k: int)
    requires
        l.wf(),
        0 <= pos < l.period(),
        0 <= k,
        k + l.period() < n,
    ensures
        l.run(pos, n)[k + l.period()] == l.run(pos, n)[k],
{
    let p = l.period();
    vstd::arithmetic::div_mod::lemma_mod_add_multiples_vanish(pos + k, p);
    assert((p + (pos + k)) % p == (pos + k) % p);
}

/// While somebody transmits, live playback stays the delay behind the end of
/// what has been heard; it never plays what may still be added to.
pub proof fn lemma_live_stays_behind(m: EchoModel, ps: PlaybackModel, freq: u32, n: int)
    requires
        m.wf(),
        m.live.contains_key(freq),
        m.is_recording_on(freq),
        n >= 0,
        m.live_count(ps, freq, n) > 0,
    ensures
        m.live_from(ps, freq) + m.live_count(ps, freq, n) + LIVE_DELAY <= m.live[freq].tail(),
{
}

/// Live playback goes on without a gap: within one transmission, and as long as
/// nothing unplayed has been dropped, it continues where it stopped.
pub proof fn lemma_live_goes_on(
    m: EchoModel,
    later: EchoModel,
    ps: PlaybackModel,
    rx_freq: u32,
    sample_rate: u32,
    freq: u32,
    n: nat,
)
    requires
        m.wf(),
        m.live.contains_key(freq),
        in_band(rx_freq, freq, sample_rate),
        later.live.contains_key(freq),
        later.live[freq].epoch == m.live[freq].epoch,
        m.live_from(ps, freq) + m.live_count(ps, freq, n as int) <= usize::MAX,
        later.live[freq].drained <= m.live_from(ps, freq) + m.live_count(ps, freq, n as int),
    ensures
        later.live_from(live_played(m, ps, rx_freq, sample_rate, n), freq) == m.live_from(ps, freq)
            + m.live_count(ps, freq, n as int),
{
}

/// A recording never grows beyond the most that is kept.
pub proof fn lemma_recording_is_bounded(
    m: EchoModel,
    freq: u32,
    client: u64,
    samples: Seq<EchoSample>,
)
    requires
        m.mode is Loop,
        m.is_recording_on(freq),
        samples.len() > 0,
    ensures
        m.fed(freq, client, samples).recorders[freq].recording.len() <= m.max_samples(
            m.recorders[freq].sample_rate,
        ),
{
}

/// Samples that are heard at once are added up, in either order, and silence adds
/// nothing.
pub proof fn lemma_mixing_commutes(a: EchoSample, b: EchoSample)
    ensures
        mixed(a, b) == mixed(b, a),
        mixed(a, silence()) == a,
{
}

/// Stopping a client that does not transmit changes nothing.
pub proof fn lemma_idle_stop_is_ignored(m: EchoModel, freq: u32, client: u64, now: Instant)
    requires
        !m.is_recording_on(freq),
    ensures
        m.stopped(freq, client, now) == m,
{
}

} // verus!
