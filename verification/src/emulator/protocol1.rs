//! A client's connection as the emulated radio sees it.

use crate::emulator::echo::{
    echo_room, echo_sample_at, in_band, is_live_segment, is_loop_segment, live_freqs, live_played,
    loop_freqs, loops_played, unpack_tx_iq_16bit_into, EchoBuffer, EchoMode, EchoModel,
    EchoPlaybackState, EchoSample, LiveSegment, LoopSegment, PlaybackModel,
};
use crate::emulator::radio::HwInfo;
use crate::double::{span_ns, span_of};
use crate::protocol::packets::{
    data_header, frame_at, is_synced, push_data_header, row_len,
    rows_per_frame, FRAME_LEN, HEADER_LEN, PACKET_LEN, SYNC, TX_SAMPLES_PER_FRAME,
};
use crate::protocol::protocol1::with_mox;
use crate::protocol::types::{
    iq24_bytes, p1_code_to_sample_rate, pack_iq_24bit_into, rate_of_code, IqSample,
};
use crate::protocol::wire::{be16_bytes, be32_value, pad_to, push_all, push_be16, zeros};
use vstd::prelude::*;
use vstd::slice::slice_subrange;

verus! {

/// Number of kinds of telemetry that take turns.
pub const RESPONSE_KINDS: u8 = 4;

/// Supply voltage that the emulated radio reports.
pub const SUPPLY_READING: u16 = 3200;

/// Readings of the power sensors while transmitting.
#[derive(Debug, Clone, Copy, PartialEq, Eq, Structural)]
pub struct PowerReading {
    pub exciter: u16,
    pub forward: u16,
    pub reverse: u16,
}

/// A client's state as mathematical values.
#[verifier::ext_equal]
pub struct ClientModel {
    pub client: u64,
    pub sample_rate: u32,
    pub nddc: u8,
    pub rx_frequencies: Seq<u32>,
    pub tx_frequency: u32,
    pub ptt: bool,
    pub tx_drive: u8,
    pub oc_outputs: u8,
    pub pa_enabled: bool,
    /// Number of the next packet to the client.
    pub data_seq: u32,
    /// Next kind of telemetry.
    pub control_idx: int,
    pub playback: PlaybackModel,
    /// Frequency on which the client is being recorded.
    pub recording_freq: Option<u32>,
}

impl ClientModel {
    /// Invariant of a client.
    pub open spec fn wf(self) -> bool {
        &&& self.rx_frequencies.len() == 12
        &&& 1 <= self.nddc <= 8
        &&& 0 <= self.control_idx < RESPONSE_KINDS
    }

    /// The client after five control bytes from the host: C0 holds the address
    /// and the transmit request, the rest what the address is for.
    pub open spec fn controlled(self, c: Seq<u8>) -> ClientModel {
        let addr = c[0] - c[0] % 2;
        let keyed = ClientModel { ptt: c[0] % 2 == 1, ..self };
        let freq = be32_value(c, 1) as u32;
        if addr == 0x00 {
            ClientModel {
                sample_rate: rate_of_code(c[1] as int % 4)->0,
                nddc: (c[4] / 8 % 8 + 1) as u8,
                oc_outputs: c[2] / 2,
                ..keyed
            }
        } else if addr == 0x02 {
            ClientModel { tx_frequency: freq, ..keyed }
        } else if 0x04 <= addr < 0x12 {
            ClientModel {
                rx_frequencies: self.rx_frequencies.update((addr - 0x04) / 2, freq),
                ..keyed
            }
        } else if addr == 0x12 {
            ClientModel { tx_drive: c[1], pa_enabled: c[2] / 8 % 2 == 1, ..keyed }
        } else {
            keyed
        }
    }

    /// Address of a kind of telemetry.
    pub open spec fn response_addr(self) -> u8 {
        (8 * self.control_idx) as u8
    }

    /// The next telemetry: versions, exciter and forward power, reverse power
    /// and supply, or current and supply.
    pub open spec fn telemetry(self, hw: HwInfo, power: PowerReading) -> Seq<u8> {
        let on = self.ptt && self.tx_drive > 0;
        let reading = |r: u16|
            if on {
                r
            } else {
                0
            };
        if self.control_idx == 0 {
            seq![0u8, hw.firmware_version, hw.penny_version, 0u8]
        } else if self.control_idx == 1 {
            be16_bytes(reading(power.exciter)) + be16_bytes(reading(power.forward))
        } else if self.control_idx == 2 {
            be16_bytes(reading(power.reverse)) + be16_bytes(SUPPLY_READING)
        } else {
            be16_bytes(
                if self.ptt {
                    (self.tx_drive * 5) as u16
                } else {
                    0
                },
            ) + be16_bytes(SUPPLY_READING)
        }
    }

    /// The next frame to the client.
    pub open spec fn frame(
        self,
        hw: HwInfo,
        power: PowerReading,
        samples: Seq<Vec<IqSample>>,
    ) -> Seq<u8> {
        let body = rows_bytes(samples, self.nddc as int, rows_per_frame(self.nddc as int) as nat);
        seq![SYNC, SYNC, SYNC, with_mox(self.response_addr(), self.ptt)] + self.telemetry(
            hw,
            power,
        ) + body + zeros((504 - body.len()) as nat)
    }

    /// The client after a frame.
    pub open spec fn framed(self) -> ClientModel {
        ClientModel { control_idx: (self.control_idx + 1) % RESPONSE_KINDS as int, ..self }
    }

    /// The client after a packet has taken its number.
    pub open spec fn numbered(self) -> ClientModel {
        ClientModel { data_seq: ((self.data_seq + 1) % 0x1_0000_0000) as u32, ..self }
    }

    /// The client after a frame from the host, with or without an echo buffer: a
    /// transmission is recorded on the frequency on which it starts.
    pub open spec fn heard(self, c: Seq<u8>, echo: bool) -> ClientModel {
        let next = self.controlled(c);
        let changed = next.ptt != self.ptt;
        if echo && changed {
            ClientModel {
                recording_freq: if next.ptt {
                    Some(next.tx_frequency)
                } else {
                    None
                },
                ..next
            }
        } else {
            next
        }
    }
}

/// One row of a frame: a sample of each receiver and two bytes of audio.
pub open spec fn row_bytes(samples: Seq<Vec<IqSample>>, row: int, nddc: nat) -> Seq<u8>
    decreases nddc,
{
    if nddc == 0 {
        Seq::empty()
    } else {
        row_bytes(samples, row, (nddc - 1) as nat) + iq24_bytes(samples[nddc - 1]@[row], false)
    }
}

/// The rows of a frame.
pub open spec fn rows_bytes(samples: Seq<Vec<IqSample>>, nddc: int, rows: nat) -> Seq<u8>
    decreases rows,
{
    if rows == 0 {
        Seq::empty()
    } else {
        rows_bytes(samples, nddc, (rows - 1) as nat) + (row_bytes(
            samples,
            rows - 1,
            nddc as nat,
        ) + zeros(2))
    }
}

proof fn lemma_row_len(samples: Seq<Vec<IqSample>>, row: int, nddc: nat)
    ensures
        row_bytes(samples, row, nddc).len() == 6 * nddc,
    decreases nddc,
{
    if nddc > 0 {
        lemma_row_len(samples, row, (nddc - 1) as nat);
    }
}

proof fn lemma_rows_len(samples: Seq<Vec<IqSample>>, nddc: int, rows: nat)
    requires
        nddc >= 0,
    ensures
        rows_bytes(samples, nddc, rows).len() == rows * row_len(nddc),
    decreases rows,
{
    if rows > 0 {
        lemma_rows_len(samples, nddc, (rows - 1) as nat);
        lemma_row_len(samples, rows - 1, nddc as nat);
        assert((rows - 1) * row_len(nddc) + row_len(nddc) == rows * row_len(nddc))
            by (nonlinear_arith);
    } else {
        assert(0 * row_len(nddc) == 0) by (nonlinear_arith);
    }
}

/// The transmit samples of the frame at `at`.
pub open spec fn host_samples(data: Seq<u8>, at: int) -> Seq<EchoSample> {
    Seq::new(TX_SAMPLES_PER_FRAME as nat, |k: int| echo_sample_at(data, at + 8 + 8 * k))
}

/// The control bytes of the frame at `at`.
pub open spec fn host_control(data: Seq<u8>, at: int) -> Seq<u8> {
    seq![data[at + 3], data[at + 4], data[at + 5], data[at + 6], data[at + 7]]
}

/// Square of the amplitude of a sample.
pub open spec fn power_of(s: EchoSample) -> int {
    s.i * s.i + s.q * s.q
}

/// Largest square of an amplitude among samples, 0 without any.
pub open spec fn peak_power(s: Seq<EchoSample>) -> int
    decreases s.len(),
{
    if s.len() == 0 {
        0
    } else {
        let rest = peak_power(s.drop_last());
        if power_of(s.last()) > rest {
            power_of(s.last())
        } else {
            rest
        }
    }
}

/// What a frame from the host does to the echoes: a transmission that starts,
/// goes on or ends.
pub open spec fn echo_follows(
    before: EchoModel,
    after: EchoModel,
    old_client: ClientModel,
    new_client: ClientModel,
    samples: Seq<EchoSample>,
) -> bool {
    let changed = new_client.ptt != old_client.ptt;
    let id = new_client.client;
    let freq = new_client.tx_frequency;
    let rate = new_client.sample_rate;
    if new_client.ptt && changed {
        exists|ns: int|
            ns >= 0 && echo_fed(
                #[trigger] before.started(freq, id, rate, ns),
                after,
                new_client,
                samples,
            )
    } else if new_client.ptt {
        echo_fed(before, after, new_client, samples)
    } else if changed && old_client.recording_freq is Some {
        exists|now: web_time::Instant|
            after == #[trigger] before.stopped(old_client.recording_freq->0, id, now)
    } else {
        after == before
    }
}

/// The echoes take in what a client transmits.
pub open spec fn echo_fed(
    before: EchoModel,
    after: EchoModel,
    client: ClientModel,
    samples: Seq<EchoSample>,
) -> bool {
    after == match client.recording_freq {
        Some(f) => before.fed(f, client.client, samples),
        None => before,
    }
}

proof fn lemma_room_after_start(
    m: EchoModel,
    freq: u32,
    client: u64,
    rate: u32,
    ns: int,
    starts: int,
    feeds: int,
)
    requires
        echo_room(m, starts, feeds),
        1 <= starts <= 2,
        0 <= feeds <= 2,
    ensures
        echo_room(m.started(freq, client, rate, ns), starts - 1, feeds),
{
    let n = m.started(freq, client, rate, ns);
    assert forall|f: u32| #[trigger] n.recorders.contains_key(f) implies n.recorders[f].active
        + starts - 1 <= u32::MAX by {
        if f != freq {
            assert(m.recorders.contains_key(f));
        } else if m.recorders.contains_key(freq) {
        }
    }
    assert forall|f: u32| #[trigger] n.live.contains_key(f) implies n.live[f].tail()
        + TX_SAMPLES_PER_FRAME * feeds <= usize::MAX by {
        if f != freq || !(m.mode is Live) {
            assert(m.live.contains_key(f));
        }
    }
}

proof fn lemma_room_after_feed(
    m: EchoModel,
    freq: u32,
    client: u64,
    samples: Seq<EchoSample>,
    starts: int,
    feeds: int,
)
    requires
        m.wf(),
        echo_room(m, starts, feeds),
        samples.len() <= TX_SAMPLES_PER_FRAME,
        0 <= starts <= 2,
        1 <= feeds <= 2,
    ensures
        echo_room(m.fed(freq, client, samples), starts, feeds - 1),
{
    let n = m.fed(freq, client, samples);
    assert forall|f: u32| #[trigger] n.recorders.contains_key(f) implies n.recorders[f].active
        + starts <= u32::MAX by {
        assert(m.recorders.contains_key(f));
    }
    assert forall|f: u32| #[trigger] n.live.contains_key(f) implies n.live[f].tail()
        + TX_SAMPLES_PER_FRAME * (feeds - 1) <= usize::MAX by {
        if m.live.contains_key(f) {
            let l = m.live[f];
            assert(l.wf());
            if l.offsets.contains_key(client) {
                assert(l.offsets[client] <= l.tail());
            }
            assert(l.fed(client, samples).tail() <= l.tail() + samples.len());
        }
    }
}

proof fn lemma_room_after_stop(
    m: EchoModel,
    freq: u32,
    client: u64,
    now: web_time::Instant,
    starts: int,
    feeds: int,
)
    requires
        echo_room(m, starts, feeds),
        0 <= starts <= 2,
        0 <= feeds <= 2,
    ensures
        echo_room(m.stopped(freq, client, now), starts, feeds),
{
    let n = m.stopped(freq, client, now);
    assert forall|f: u32| #[trigger] n.recorders.contains_key(f) implies n.recorders[f].active
        + starts <= u32::MAX by {
        assert(m.recorders.contains_key(f));
    }
    assert forall|f: u32| #[trigger] n.live.contains_key(f) implies n.live[f].tail()
        + TX_SAMPLES_PER_FRAME * feeds <= usize::MAX by {
        assert(m.live.contains_key(f));
    }
}

/// How strong a frame from the host was.
#[derive(Debug, Clone, Copy, PartialEq, Eq, Structural)]
pub enum TxLevel {
    /// The host was not transmitting.
    Quiet,
    /// Largest square of an amplitude in the frame, in units of 2^-30.
    Peak(u64),
}

/// What a receiver plays.
pub enum DdcEcho {
    /// Nothing.
    Silent,
    Loop(Vec<LoopSegment>),
    Live(Vec<LiveSegment>),
}

/// A client's connection.
pub struct ClientState {
    client: u64,
    sample_rate: u32,
    nddc: u8,
    rx_frequencies: [u32; 12],
    tx_frequency: u32,
    ptt: bool,
    tx_drive: u8,
    oc_outputs: u8,
    pa_enabled: bool,
    data_seq: u32,
    control_idx: u8,
    echo_playback: EchoPlaybackState,
    recording_freq: Option<u32>,
}

impl View for ClientState {
    type V = ClientModel;

    closed spec fn view(&self) -> ClientModel {
        ClientModel {
            client: self.client,
            sample_rate: self.sample_rate,
            nddc: self.nddc,
            rx_frequencies: self.rx_frequencies@,
            tx_frequency: self.tx_frequency,
            ptt: self.ptt,
            tx_drive: self.tx_drive,
            oc_outputs: self.oc_outputs,
            pa_enabled: self.pa_enabled,
            data_seq: self.data_seq,
            control_idx: self.control_idx as int,
            playback: self.echo_playback@,
            recording_freq: self.recording_freq,
        }
    }
}

/// What the pace of packets to a client depends on.
#[derive(Debug, Clone, Copy, PartialEq, Eq, Structural)]
pub struct StreamParams {
    pub nddc: u8,
    pub sample_rate: u32,
}

impl ClientState {
    /// A client that has just started.
    pub fn new(client: u64, sample_rate: u32) -> (cs: Self)
        ensures
            cs@ == (ClientModel {
                client,
                sample_rate,
                nddc: 1,
                rx_frequencies: Seq::new(12, |k: int| 7_074_000u32),
                tx_frequency: 7_074_000,
                ptt: false,
                tx_drive: 0,
                oc_outputs: 0,
                pa_enabled: false,
                data_seq: 0,
                control_idx: 0,
                playback: PlaybackModel {
                    loop_pos: Map::empty(),
                    live_pos: Map::empty(),
                    live_epoch: Map::empty(),
                },
                recording_freq: None,
            }),
            cs@.wf(),
    {
        let cs: ClientState = ClientState {
            client,
            sample_rate,
            nddc: 1,
            rx_frequencies: [7_074_000; 12],
            tx_frequency: 7_074_000,
            ptt: false,
            tx_drive: 0,
            oc_outputs: 0,
            pa_enabled: false,
            data_seq: 0,
            control_idx: 0,
            echo_playback: EchoPlaybackState::new(),
            recording_freq: None,
        };
        assert(cs.rx_frequencies@ =~= Seq::new(12, |k: int| 7_074_000u32));
        cs
    }

    /// The number of the next packet.
    pub fn next_seq(&mut self) -> (n: u32)
        ensures
            n == old(self)@.data_seq,
            final(self)@ == old(self)@.numbered(),
    {
        let n: u32 = self.data_seq;
        self.data_seq = self.data_seq.wrapping_add(1);
        n
    }

    /// Whether the client transmits.
    pub fn is_transmitting(&self) -> (r: bool)
        ensures
            r == self@.ptt,
    {
        self.ptt
    }

    /// Transmit drive.
    pub fn tx_drive(&self) -> (d: u8)
        ensures
            d == self@.tx_drive,
    {
        self.tx_drive
    }

    /// What the pace of packets depends on.
    pub fn stream_params(&self) -> (p: StreamParams)
        ensures
            p.nddc == self@.nddc,
            p.sample_rate == self@.sample_rate,
    {
        StreamParams { nddc: self.nddc, sample_rate: self.sample_rate }
    }

    /// Number of samples of each receiver in a frame.
    pub fn samples_per_frame(&self) -> (n: usize)
        requires
            self@.wf(),
        ensures
            n == rows_per_frame(self@.nddc as int),
            n <= 63,
    {
        rows_of(self.nddc as usize)
    }

    /// Takes the recording that is going on away from the client.
    pub fn take_recording(&mut self) -> (freq: Option<u32>)
        ensures
            freq == old(self)@.recording_freq,
            final(self)@ == (ClientModel { recording_freq: None, ..old(self)@ }),
    {
        let freq: Option<u32> = self.recording_freq;
        self.recording_freq = None;
        freq
    }
}

fn rows_of(nddc: usize) -> (rows: usize)
    requires
        1 <= nddc <= 8,
    ensures
        rows == rows_per_frame(nddc as int),
        rows <= 63,
        rows * row_len(nddc as int) <= 504,
{
    let row: usize = 6 * nddc + 2;
    assert(504usize as int / row as int <= 63 && (504usize as int / row as int) * row <= 504)
        by (nonlinear_arith)
        requires
            row >= 8,
    ;
    504 / row
}

/// Time between two packets to a client.
pub fn packet_interval_ns(p: &StreamParams) -> (ns: u64)
    requires
        1 <= p.nddc <= 8,
        p.sample_rate > 0,
    ensures
        ns == span_ns((2 * rows_per_frame(p.nddc as int)) as nat, p.sample_rate as nat),
{
    let samples: u32 = 2 * rows_of(p.nddc as usize) as u32;
    span_of(samples, p.sample_rate)
}

/// Takes in the five control bytes of a frame from the host. Returns whether the
/// transmit request changed.
pub fn process_control(cs: &mut ClientState, c0: u8, c1: u8, c2: u8, c3: u8, c4: u8) -> (changed:
    bool)
    requires
        old(cs)@.wf(),
    ensures
        final(cs)@ == old(cs)@.controlled(seq![c0, c1, c2, c3, c4]),
        changed == (final(cs)@.ptt != old(cs)@.ptt),
        final(cs)@.wf(),
{
    let ghost m = cs@;
    let mox: bool = c0 % 2 == 1;
    let addr: u8 = c0 - c0 % 2;
    let changed: bool = mox != cs.ptt;
    cs.ptt = mox;
    let freq: u32 = c1 as u32 * 0x100_0000 + c2 as u32 * 0x1_0000 + c3 as u32 * 0x100 + c4 as u32;
    if addr == 0x00 {
        if let Some(rate) = p1_code_to_sample_rate(c1 % 4) {
            cs.sample_rate = rate;
        }
        cs.nddc = c4 / 8 % 8 + 1;
        cs.oc_outputs = c2 / 2;
    } else if addr == 0x02 {
        cs.tx_frequency = freq;
    } else if addr >= 0x04 && addr < 0x12 {
        let ddc: usize = ((addr - 0x04) / 2) as usize;
        cs.rx_frequencies[ddc] = freq;
    } else if addr == 0x12 {
        cs.tx_drive = c1;
        cs.pa_enabled = c2 / 8 % 2 == 1;
    }
    proof {
        let c = seq![c0, c1, c2, c3, c4];
        assert(be32_value(c, 1) == freq);
        assert(cs@ =~= m.controlled(c));
    }
    changed
}

fn peak_of(samples: &[EchoSample; 63]) -> (p: u64)
    requires
        forall|k: int|
            0 <= k < 63 ==> -0x8000 <= (#[trigger] samples@[k]).i <= 0x8000 && -0x8000
                <= samples@[k].q <= 0x8000,
    ensures
        p == peak_power(samples@),
{
    let mut p: u64 = 0;
    let mut k: usize = 0;
    while k < 63
        invariant
            k <= 63,
            samples@.len() == 63,
            forall|j: int|
                0 <= j < 63 ==> -0x8000 <= (#[trigger] samples@[j]).i <= 0x8000 && -0x8000
                    <= samples@[j].q <= 0x8000,
            p == peak_power(samples@.take(k as int)),
        decreases 63 - k,
    {
        let s: EchoSample = samples[k];
        assert(0 <= s.i * s.i <= 0x4000_0000 && 0 <= s.q * s.q <= 0x4000_0000) by (nonlinear_arith)
            requires
                -0x8000 <= s.i <= 0x8000,
                -0x8000 <= s.q <= 0x8000,
        ;
        let power: u64 = (s.i * s.i + s.q * s.q) as u64;
        proof {
            let next = samples@.take(k + 1);
            assert(next.drop_last() == samples@.take(k as int));
            assert(next.last() == s);
        }
        if power > p {
            p = power;
        }
        k = k + 1;
    }
    assert(samples@.take(63) =~= samples@);
    p
}

/// Takes in the frame at `at`, which is in sync: its control bytes, and its
/// samples while the host transmits.
pub fn process_host_subframe(
    cs: &mut ClientState,
    data: &[u8],
    at: usize,
    echo: &mut Option<EchoBuffer>,
) -> (level: TxLevel)
    requires
        old(cs)@.wf(),
        at + FRAME_LEN <= data.len(),
        *old(echo) matches Some(e) ==> e@.wf() && echo_room(e@, 1, 1),
    ensures
        final(cs)@ == old(cs)@.heard(host_control(data@, at as int), *old(echo) is Some),
        final(cs)@.wf(),
        level == (if final(cs)@.ptt {
            TxLevel::Peak(peak_power(host_samples(data@, at as int)) as u64)
        } else {
            TxLevel::Quiet
        }),
        *old(echo) is Some <==> *final(echo) is Some,
        *old(echo) is Some ==> final(echo)->0@.wf() && echo_follows(
            old(echo)->0@,
            final(echo)->0@,
            old(cs)@,
            final(cs)@,
            host_samples(data@, at as int),
        ),
{
    let ghost m = cs@;
    let ghost d = data@;
    let changed: bool = process_control(
        cs,
        data[at + 3],
        data[at + 4],
        data[at + 5],
        data[at + 6],
        data[at + 7],
    );
    if cs.ptt {
        let mut buf: [EchoSample; 63] = [EchoSample { i: 0, q: 0 };63];
        let body: &[u8] = slice_subrange(data, at + 8, at + 512);
        let n: usize = unpack_tx_iq_16bit_into(body, &mut buf);
        proof {
            assert(n == 63);
            let want = host_samples(d, at as int);
            assert forall|k: int| 0 <= k < 63 implies buf@[k] == want[k] by {
                assert(echo_sample_at(body@, 8 * k) == echo_sample_at(d, at + 8 + 8 * k));
            }
            assert(buf@ =~= want);
        }
        let level: TxLevel = TxLevel::Peak(peak_of(&buf));
        if let Some(e) = echo {
            let ghost e0 = e@;
            if changed {
                cs.recording_freq = Some(cs.tx_frequency);
                proof {
                    assert(e0.recorders.contains_key(cs.tx_frequency) ==> e0.recorders[cs.tx_frequency].active
                        + 1 <= u32::MAX);
                }
                e.start_recording(cs.tx_frequency, cs.client, cs.sample_rate);
                proof {
                    let ns = choose|ns: int|
                        ns >= 0 && e@ == #[trigger] e0.started(
                            cs.tx_frequency,
                            cs.client,
                            cs.sample_rate,
                            ns,
                        );
                    lemma_room_after_start(
                        e0,
                        cs.tx_frequency,
                        cs.client,
                        cs.sample_rate,
                        ns,
                        1,
                        1,
                    );
                }
            }
            if let Some(freq) = cs.recording_freq {
                e.feed(freq, cs.client, &buf);
            }
        }
        level
    } else {
        if let Some(e) = echo {
            if changed {
                if let Some(freq) = cs.recording_freq {
                    cs.recording_freq = None;
                    e.stop_recording(freq, cs.client);
                }
            }
        }
        TxLevel::Quiet
    }
}

/// A packet of samples from the host.
pub open spec fn is_host_data(data: Seq<u8>) -> bool {
    data.len() >= PACKET_LEN && data[0] == 0xef && data[1] == 0xfe && data[2] == 0x01
}

/// The echoes after one frame of a packet, which counts only if it is in sync.
pub open spec fn echo_after_frame(
    before: EchoModel,
    after: EchoModel,
    client: ClientModel,
    data: Seq<u8>,
    at: int,
) -> bool {
    if is_synced(data, at) {
        echo_follows(
            before,
            after,
            client,
            client.heard(host_control(data, at), true),
            host_samples(data, at),
        )
    } else {
        after == before
    }
}

/// The client after one frame of a packet, which counts only if it is in sync.
pub open spec fn client_after_frame(
    m: ClientModel,
    data: Seq<u8>,
    at: int,
    echo: bool,
) -> ClientModel {
    if is_synced(data, at) {
        m.heard(host_control(data, at), echo)
    } else {
        m
    }
}

/// How strong one frame of a packet was, if it is in sync.
pub open spec fn level_of_frame(
    m: ClientModel,
    data: Seq<u8>,
    at: int,
    echo: bool,
) -> Seq<TxLevel> {
    if !is_synced(data, at) {
        Seq::empty()
    } else if client_after_frame(m, data, at, echo).ptt {
        seq![TxLevel::Peak(peak_power(host_samples(data, at)) as u64)]
    } else {
        seq![TxLevel::Quiet]
    }
}

/// Takes in a packet from the host. Returns how strong each of its frames was.
pub fn process_host_frame(
    cs: &mut ClientState,
    data: &[u8],
    echo: &mut Option<EchoBuffer>,
) -> (levels: Vec<TxLevel>)
    requires
        old(cs)@.wf(),
        *old(echo) matches Some(e) ==> e@.wf() && echo_room(e@, 2, 2),
    ensures
        !is_host_data(data@) ==> final(cs)@ == old(cs)@ && *final(echo) == *old(echo)
            && levels@.len() == 0,
        is_host_data(data@) ==> host_packet_taken(
            old(cs)@,
            final(cs)@,
            *old(echo),
            *final(echo),
            data@,
            levels@,
        ),
        final(cs)@.wf(),
        *final(echo) matches Some(e) ==> e@.wf(),
{
    if data.len() < PACKET_LEN || data[0] != 0xef || data[1] != 0xfe || data[2] != 0x01 {
        return Vec::new();
    }
    handle_host_data(cs, data, echo)
}

/// What a packet of samples does to the client and to the echoes, and how
/// strong its frames are.
pub open spec fn host_packet_taken(
    before: ClientModel,
    after: ClientModel,
    echo_before: Option<EchoBuffer>,
    echo_after: Option<EchoBuffer>,
    data: Seq<u8>,
    levels: Seq<TxLevel>,
) -> bool {
    let on = echo_before is Some;
    let mid = client_after_frame(before, data, frame_at(0), on);
    &&& after == client_after_frame(mid, data, frame_at(1), on)
    &&& levels == level_of_frame(before, data, frame_at(0), on) + level_of_frame(
        mid,
        data,
        frame_at(1),
        on,
    )
    &&& echo_after is Some <==> on
    &&& on ==> exists|e: EchoModel|
        {
            &&& #[trigger] echo_after_frame(echo_before->0@, e, before, data, frame_at(0))
            &&& echo_after_frame(e, echo_after->0@, mid, data, frame_at(1))
        }
}

proof fn lemma_room_after_frame(
    before: EchoModel,
    after: EchoModel,
    old_client: ClientModel,
    new_client: ClientModel,
    samples: Seq<EchoSample>,
)
    requires
        before.wf(),
        echo_room(before, 2, 2),
        samples.len() == TX_SAMPLES_PER_FRAME,
        echo_follows(before, after, old_client, new_client, samples),
        new_client.ptt && new_client.ptt != old_client.ptt ==> forall|ns: int|
            ns >= 0 ==> #[trigger] before.started(
                new_client.tx_frequency,
                new_client.client,
                new_client.sample_rate,
                ns,
            ).wf(),
    ensures
        echo_room(after, 1, 1),
{
    let id = new_client.client;
    let freq = new_client.tx_frequency;
    let rate = new_client.sample_rate;
    if new_client.ptt {
        if new_client.ptt != old_client.ptt {
            let ns = choose|ns: int|
                ns >= 0 && echo_fed(
                    #[trigger] before.started(freq, id, rate, ns),
                    after,
                    new_client,
                    samples,
                );
            lemma_room_after_start(before, freq, id, rate, ns, 2, 2);
            let begun = before.started(freq, id, rate, ns);
            if new_client.recording_freq is Some {
                lemma_room_after_feed(begun, new_client.recording_freq->0, id, samples, 1, 2);
            }
        } else if new_client.recording_freq is Some {
            lemma_room_after_feed(before, new_client.recording_freq->0, id, samples, 2, 2);
        }
    } else if new_client.ptt != old_client.ptt && old_client.recording_freq is Some {
        let now = choose|now: web_time::Instant|
            after == #[trigger] before.stopped(old_client.recording_freq->0, id, now);
        lemma_room_after_stop(before, old_client.recording_freq->0, id, now, 2, 2);
    }
}

/// Takes in a packet that is known to be one of samples. Returns how strong each
/// of its frames was. A shorter packet is ignored.
pub fn handle_host_data(
    cs: &mut ClientState,
    data: &[u8],
    echo: &mut Option<EchoBuffer>,
) -> (levels: Vec<TxLevel>)
    requires
        old(cs)@.wf(),
        *old(echo) matches Some(e) ==> e@.wf() && echo_room(e@, 2, 2),
    ensures
        data@.len() < PACKET_LEN ==> final(cs)@ == old(cs)@ && *final(echo) == *old(echo)
            && levels@.len() == 0,
        data@.len() >= PACKET_LEN ==> host_packet_taken(
            old(cs)@,
            final(cs)@,
            *old(echo),
            *final(echo),
            data@,
            levels@,
        ),
        final(cs)@.wf(),
        *final(echo) matches Some(e) ==> e@.wf(),
{
    let mut levels: Vec<TxLevel> = Vec::new();
    if data.len() < PACKET_LEN {
        return levels;
    }
    let ghost before = cs@;
    let ghost echo0 = *echo;
    let ghost on = echo0 is Some;
    let first: usize = HEADER_LEN;
    let second: usize = HEADER_LEN + FRAME_LEN;
    if data[first] == SYNC && data[first + 1] == SYNC && data[first + 2] == SYNC {
        let level: TxLevel = process_host_subframe(cs, data, first, echo);
        levels.push(level);
        proof {
            if on {
                lemma_room_after_frame(
                    echo0->0@,
                    echo->0@,
                    before,
                    cs@,
                    host_samples(data@, frame_at(0)),
                );
            }
        }
    }
    let ghost mid = cs@;
    let ghost echo1 = *echo;
    proof {
        assert(mid == client_after_frame(before, data@, frame_at(0), on));
        assert(levels@ =~= level_of_frame(before, data@, frame_at(0), on));
        if on {
            assert(echo_after_frame(echo0->0@, echo1->0@, before, data@, frame_at(0)));
        }
    }
    if data[second] == SYNC && data[second + 1] == SYNC && data[second + 2] == SYNC {
        let level: TxLevel = process_host_subframe(cs, data, second, echo);
        levels.push(level);
    }
    proof {
        assert(cs@ == client_after_frame(mid, data@, frame_at(1), on));
        assert(levels@ =~= level_of_frame(before, data@, frame_at(0), on) + level_of_frame(
            mid,
            data@,
            frame_at(1),
            on,
        ));
        if on {
            assert(echo_after_frame(echo1->0@, echo->0@, mid, data@, frame_at(1)));
        }
    }
    levels
}

/// Where playback stands after `k` receivers have been served with `n` samples.
pub open spec fn playback_after(
    m: EchoModel,
    ps: PlaybackModel,
    freqs: Seq<u32>,
    rate: u32,
    n: nat,
    k: nat,
) -> PlaybackModel
    decreases k,
{
    if k == 0 {
        ps
    } else {
        let before = playback_after(m, ps, freqs, rate, n, (k - 1) as nat);
        match m.mode {
            EchoMode::Loop => loops_played(m, before, freqs[k - 1], rate, n),
            EchoMode::Live => live_played(m, before, freqs[k - 1], rate, n),
        }
    }
}

/// There is something to play.
pub open spec fn has_echo(m: EchoModel) -> bool {
    match m.mode {
        EchoMode::Loop => exists|f: u32| #[trigger] m.loops.contains_key(f),
        EchoMode::Live => exists|f: u32| #[trigger] m.live.contains_key(f),
    }
}

/// A receiver plays what is in its band, each frequency once.
pub open spec fn plays(
    m: EchoModel,
    ps: PlaybackModel,
    echo: DdcEcho,
    rx_freq: u32,
    rate: u32,
    n: nat,
) -> bool {
    match echo {
        DdcEcho::Silent => false,
        DdcEcho::Loop(segments) => {
            &&& m.mode is Loop
            &&& forall|k: int|
                0 <= k < segments@.len() ==> is_loop_segment(
                    m,
                    ps,
                    #[trigger] segments@[k],
                    rx_freq,
                    n,
                )
            &&& loop_freqs(segments@).no_duplicates()
            &&& forall|f: u32| #[trigger]
                loop_freqs(segments@).contains(f) <==> m.loops.contains_key(f) && in_band(
                    rx_freq,
                    f,
                    rate,
                )
        },
        DdcEcho::Live(segments) => {
            &&& m.mode is Live
            &&& forall|k: int|
                0 <= k < segments@.len() ==> is_live_segment(
                    m,
                    ps,
                    #[trigger] segments@[k],
                    rx_freq,
                    n,
                )
            &&& live_freqs(segments@).no_duplicates()
            &&& forall|f: u32| #[trigger]
                live_freqs(segments@).contains(f) <==> m.live.contains_key(f) && in_band(
                    rx_freq,
                    f,
                    rate,
                )
        },
    }
}

/// What each receiver of a client plays in the next frame.
pub fn plan_subframe(cs: &mut ClientState, echo: &Option<EchoBuffer>) -> (plan: Vec<DdcEcho>)
    requires
        old(cs)@.wf(),
        *echo matches Some(e) ==> e@.wf(),
    ensures
        ({
            let m = old(cs)@;
            let n = rows_per_frame(m.nddc as int) as nat;
            let on = *echo is Some && has_echo(echo->0@);
            &&& plan@.len() == m.nddc
            &&& !on ==> final(cs)@ == m && forall|k: int|
                0 <= k < plan@.len() ==> #[trigger] plan@[k] is Silent
            &&& on ==> final(cs)@ == (ClientModel {
                playback: playback_after(
                    echo->0@,
                    m.playback,
                    m.rx_frequencies,
                    m.sample_rate,
                    n,
                    m.nddc as nat,
                ),
                ..m
            })
            &&& on ==> forall|k: int|
                0 <= k < plan@.len() ==> plays(
                    echo->0@,
                    playback_after(
                        echo->0@,
                        m.playback,
                        m.rx_frequencies,
                        m.sample_rate,
                        n,
                        k as nat,
                    ),
                    #[trigger] plan@[k],
                    m.rx_frequencies[k],
                    m.sample_rate,
                    n,
                )
        }),
        final(cs)@.wf(),
{
    let ghost m = cs@;
    let nddc: usize = cs.nddc as usize;
    let rows: usize = rows_of(nddc);
    let ghost n = rows as nat;
    let mut plan: Vec<DdcEcho> = Vec::new();
    let mut k: usize = 0;
    match echo {
        Some(e) if e.has_data() => {
            while k < nddc
                invariant
                    k <= nddc,
                    nddc == m.nddc,
                    n == rows,
                    m.wf(),
                    e@.wf(),
                    plan@.len() == k,
                    cs@ == (ClientModel {
                        playback: playback_after(
                            e@,
                            m.playback,
                            m.rx_frequencies,
                            m.sample_rate,
                            n,
                            k as nat,
                        ),
                        ..m
                    }),
                    forall|j: int|
                        0 <= j < k ==> plays(
                            e@,
                            playback_after(
                                e@,
                                m.playback,
                                m.rx_frequencies,
                                m.sample_rate,
                                n,
                                j as nat,
                            ),
                            #[trigger] plan@[j],
                            m.rx_frequencies[j],
                            m.sample_rate,
                            n,
                        ),
                decreases nddc - k,
            {
                let freq: u32 = cs.rx_frequencies[k];
                let rate: u32 = cs.sample_rate;
                let part: DdcEcho = match e.mode() {
                    EchoMode::Live => DdcEcho::Live(
                        e.generate_live_echo_into(&mut cs.echo_playback, rows, freq, rate),
                    ),
                    EchoMode::Loop => DdcEcho::Loop(
                        e.generate_echo_into(&mut cs.echo_playback, rows, freq, rate),
                    ),
                };
                plan.push(part);
                k = k + 1;
            }
        },
        _ => {
            while k < nddc
                invariant
                    k <= nddc,
                    cs@ == m,
                    plan@.len() == k,
                    forall|j: int| 0 <= j < k ==> #[trigger] plan@[j] is Silent,
                decreases nddc - k,
            {
                plan.push(DdcEcho::Silent);
                k = k + 1;
            }
        },
    }
    plan
}

/// One run of samples for each receiver, long enough for a frame.
pub open spec fn fills_frame(m: ClientModel, samples: Seq<Vec<IqSample>>) -> bool {
    &&& samples.len() >= m.nddc
    &&& forall|d: int|
        0 <= d < m.nddc ==> (#[trigger] samples[d])@.len() >= rows_per_frame(m.nddc as int)
}

/// Appends the next frame to the client: telemetry and samples, in units of
/// 1/8388607.
pub fn fill_subframe_sync(
    cs: &mut ClientState,
    hw: &HwInfo,
    power: &PowerReading,
    samples: &Vec<Vec<IqSample>>,
    out: &mut Vec<u8>,
)
    requires
        old(cs)@.wf(),
        fills_frame(old(cs)@, samples@),
        old(out)@.len() + FRAME_LEN <= usize::MAX,
    ensures
        final(out)@ == old(out)@ + old(cs)@.frame(*hw, *power, samples@),
        final(out)@.len() == old(out)@.len() + FRAME_LEN,
        final(cs)@ == old(cs)@.framed(),
        final(cs)@.wf(),
{
    let ghost m = cs@;
    let ghost start = out@;
    let end: usize = out.len() + FRAME_LEN;
    let idx: u8 = cs.control_idx;
    cs.control_idx = (idx + 1) % RESPONSE_KINDS;
    let on: bool = cs.ptt && cs.tx_drive > 0;
    out.push(SYNC);
    out.push(SYNC);
    out.push(SYNC);
    out.push(
        8 * idx + if cs.ptt {
            1
        } else {
            0
        },
    );
    if idx == 0 {
        out.push(0);
        out.push(hw.firmware_version);
        out.push(hw.penny_version);
        out.push(0);
    } else if idx == 1 {
        push_be16(
            out,
            if on {
                power.exciter
            } else {
                0
            },
        );
        push_be16(
            out,
            if on {
                power.forward
            } else {
                0
            },
        );
    } else if idx == 2 {
        push_be16(
            out,
            if on {
                power.reverse
            } else {
                0
            },
        );
        push_be16(out, SUPPLY_READING);
    } else {
        push_be16(
            out,
            if cs.ptt {
                cs.tx_drive as u16 * 5
            } else {
                0
            },
        );
        push_be16(out, SUPPLY_READING);
    }
    let ghost head = out@;
    assert(head =~= start + (seq![SYNC, SYNC, SYNC, with_mox(m.response_addr(), m.ptt)]
        + m.telemetry(*hw, *power)));
    let nddc: usize = cs.nddc as usize;
    let rows: usize = rows_of(nddc);
    push_rows(out, samples, nddc, rows);
    proof {
        lemma_rows_len(samples@, nddc as int, rows as nat);
    }
    pad_to(out, end);
    assert(out@ =~= start + m.frame(*hw, *power, samples@));
}

fn push_rows(out: &mut Vec<u8>, samples: &Vec<Vec<IqSample>>, nddc: usize, rows: usize)
    requires
        1 <= nddc <= 8,
        rows <= 63,
        samples@.len() >= nddc,
        forall|d: int| 0 <= d < nddc ==> (#[trigger] samples@[d])@.len() >= rows,
    ensures
        final(out)@ == old(out)@ + rows_bytes(samples@, nddc as int, rows as nat),
{
    let ghost start = out@;
    let mut row: usize = 0;
    while row < rows
        invariant
            row <= rows,
            1 <= nddc <= 8,
            samples@.len() >= nddc,
            forall|d: int| 0 <= d < nddc ==> (#[trigger] samples@[d])@.len() >= rows,
            out@ == start + rows_bytes(samples@, nddc as int, row as nat),
        decreases rows - row,
    {
        let ghost before = out@;
        let mut ddc: usize = 0;
        while ddc < nddc
            invariant
                ddc <= nddc,
                row < rows,
                samples@.len() >= nddc,
                forall|d: int| 0 <= d < nddc ==> (#[trigger] samples@[d])@.len() >= rows,
                out@ == before + row_bytes(samples@, row as int, ddc as nat),
            decreases nddc - ddc,
        {
            let mut six: [u8; 6] = [0; 6];
            let s: IqSample = samples[ddc][row];
            let _ = pack_iq_24bit_into(&mut six, 0, s);
            assert(six@ =~= iq24_bytes(s, false));
            push_all(out, &six);
            ddc = ddc + 1;
            assert(out@ =~= before + row_bytes(samples@, row as int, ddc as nat));
        }
        out.push(0);
        out.push(0);
        row = row + 1;
        assert(out@ =~= start + rows_bytes(samples@, nddc as int, row as nat));
    }
}

/// Builds the next packet to the client from the samples of its two frames.
pub fn build_data_packet_sync(
    cs: &mut ClientState,
    hw: &HwInfo,
    power: &PowerReading,
    first: &Vec<Vec<IqSample>>,
    second: &Vec<Vec<IqSample>>,
) -> (packet: Vec<u8>)
    requires
        old(cs)@.wf(),
        fills_frame(old(cs)@, first@),
        fills_frame(old(cs)@, second@),
    ensures
        packet@ == data_header(0x06, old(cs)@.data_seq) + old(cs)@.frame(*hw, *power, first@) + old(
            cs,
        )@.framed().frame(*hw, *power, second@),
        packet@.len() == PACKET_LEN,
        final(cs)@ == old(cs)@.numbered().framed().framed(),
        final(cs)@.wf(),
{
    let ghost m = cs@;
    let mut packet: Vec<u8> = Vec::with_capacity(PACKET_LEN);
    let seq_no: u32 = cs.next_seq();
    push_data_header(&mut packet, 0x06, seq_no);
    fill_subframe_sync(cs, hw, power, first, &mut packet);
    fill_subframe_sync(cs, hw, power, second, &mut packet);
    proof {
        assert(m.numbered().frame(*hw, *power, first@) == m.frame(*hw, *power, first@));
        assert(m.numbered().framed().frame(*hw, *power, second@) == m.framed().frame(
            *hw,
            *power,
            second@,
        ));
    }
    packet
}

} // verus!
