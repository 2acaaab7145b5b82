//! The host side of Protocol 1.
//!
//! [`Protocol1Client`] holds what the host knows and wants of a radio. It makes
//! the packets that are sent, takes in those that arrive, and paces the
//! transmit stream.

use crate::double::{
    double_times, lemma_limit_is_double, lemma_rounds_at_least, lemma_rounds_at_most,
    nearest_double, nearest_double_spec, seconds, seconds_of, span_ns, span_of, FINE_LIMIT, FINE_ONE,
};
use crate::protocol::packets::{
    control_at, data_header, frame_at, frame_samples, is_synced,
    push_data_header, read_frame_samples, row_len, rows_per_frame, word, FRAME_LEN, HEADER_LEN,
    PACKET_LEN, SYNC, TX_SAMPLES_PER_FRAME,
};
use crate::protocol::tx_ring::{
    handed_over, known, lemma_nothing_starts, ring_limit, sink_stream, source_stream, starts,
    taken_out, tx_ring, TxSink, TxSource, TX_RING_LEN,
};
use crate::protocol::types::{
    alex_rx_hpf, alex_rx_hpf_for_freq, alex_tx_lpf, alex_tx_lpf_for_freq, limit_to, limited,
    n2adr_oc, n2adr_oc_for_freq, negate_limited, rate_of_code, sample_rate_to_p1_code, HpsdrHw,
    IqSample, RadioStatus, FULL_SCALE_16,
};
use crate::protocol::wire::{
    be16_bytes, be32_bytes, be32_value, bits16, pad_to, push_be16, read_be16, read_be32, to_bits16,
    zeros,
};
use std::collections::VecDeque;
use vstd::prelude::*;

verus! {

/// Number of receive frequencies that are kept.
pub const MAX_RECEIVERS: usize = 12;

/// Number of commands in the rotation of control bytes.
pub const CONTROL_ROTATION: u8 = 13;

/// A command to the client.
#[derive(Debug, Clone, Copy, PartialEq, Eq, Structural)]
pub enum P1Command {
    SetRxFrequency { ddc: usize, freq_hz: u32 },
    SetTxFrequency(u32),
    SetSampleRate(u32),
    SetNddc(u8),
    SetTxDrive(u8),
    SetPtt(bool),
    SetCwMode(bool),
    SetRxAttenuation(u8),
    Stop,
}

/// The client's state as mathematical values.
#[verifier::ext_equal]
pub struct P1Model {
    pub hw_type: HpsdrHw,
    pub running: bool,
    pub sample_rate: u32,
    pub nddc: u8,
    pub rx_frequencies: Seq<u32>,
    pub tx_frequency: u32,
    pub tx_drive: u8,
    pub ptt: bool,
    pub rx_attenuation: u8,
    /// Number of the next packet to the radio.
    pub tx_seq: u32,
    /// Number of the next packet from the radio.
    pub rx_seq: u32,
    /// Next command in the rotation of control bytes.
    pub control_idx: int,
    pub cw_mode: bool,
    /// Transmit samples that wait, oldest first.
    pub tx_queue: Seq<IqSample>,
    /// A ring hands over more transmit samples.
    pub connected: bool,
    /// All samples that have come out of the ring, oldest first.
    pub fetched: Seq<IqSample>,
    /// Number of samples that have been seen in the ring and not yet fetched.
    pub in_ring: nat,
    /// The samples that pass through the ring, by their place in the order in
    /// which they are handed over.
    pub stream: Map<int, IqSample>,
    /// Telemetry collected so far.
    pub status: RadioStatus,
    pub last_status_addr: Option<u8>,
    /// Estimated fill of the radio's transmit buffer, a double in units of 2^-82
    /// samples.
    pub fifo: int,
    /// Time of the last packet of transmit samples.
    pub last_send_ns: Option<u64>,
}

/// Protocol 1 code of a sample rate; 0 for a rate without one.
pub open spec fn rate_code(rate: u32) -> u8 {
    if rate == 96_000 {
        1
    } else if rate == 192_000 {
        2
    } else if rate == 384_000 {
        3
    } else {
        0
    }
}

/// Number of receivers as the control bytes state it, with the duplex bit.
pub open spec fn receivers_c4(nddc: u8) -> u8 {
    ((if nddc == 0 {
        0
    } else {
        nddc - 1
    }) % 8 * 8 + 4) as u8
}

/// A sample block with audio: four bytes of audio, two bytes I, two bytes Q with
/// Q of opposite sign. Keyed transmission has no audio.
pub open spec fn host_block(s: IqSample, cw: bool) -> Seq<u8> {
    let i = be16_bytes(bits16(limited(s.i as int, FULL_SCALE_16 as int)));
    let q = be16_bytes(bits16(limited(-s.q, FULL_SCALE_16 as int)));
    (if cw {
        zeros(4)
    } else {
        i + i
    }) + i + q
}

/// Sample blocks one after the other.
pub open spec fn host_blocks(samples: Seq<IqSample>, cw: bool) -> Seq<u8>
    decreases samples.len(),
{
    if samples.len() == 0 {
        Seq::empty()
    } else {
        host_blocks(samples.drop_last(), cw) + host_block(samples.last(), cw)
    }
}

/// C0 with the transmit request.
pub open spec fn with_mox(c0: u8, ptt: bool) -> u8 {
    if ptt && c0 % 2 == 0 {
        (c0 + 1) as u8
    } else {
        c0
    }
}

impl P1Model {
    /// Invariant of the client.
    pub open spec fn wf(self) -> bool {
        &&& self.rx_frequencies.len() == MAX_RECEIVERS
        &&& 0 <= self.control_idx < CONTROL_ROTATION
        &&& self.nddc >= 1
        &&& 0 <= self.fifo <= FINE_LIMIT
        &&& starts(self.stream, self.fetched)
        &&& !self.connected ==> self.in_ring == 0
    }

    /// Command `idx` of the rotation. The first carries rate, band filter and
    /// number of receivers, the next eight the transmit and receive
    /// frequencies, the rest drive, filters and attenuation.
    pub open spec fn control_command(self, idx: int) -> Seq<u8> {
        let lite = self.hw_type is HermesLite;
        let rx0 = self.rx_frequencies[0];
        if idx == 0 {
            let band = if self.ptt {
                self.tx_frequency
            } else {
                rx0
            };
            seq![
                0x00u8,
                rate_code(self.sample_rate),
                if lite {
                    (n2adr_oc(band as int) * 2) as u8
                } else {
                    0
                },
                0,
                receivers_c4(self.nddc),
            ]
        } else if idx == 1 {
            seq![0x02u8] + be32_bytes(self.tx_frequency)
        } else if 2 <= idx <= 8 {
            let ddc = idx - 2;
            seq![(0x04 + 2 * ddc) as u8] + be32_bytes(
                if ddc < self.nddc {
                    self.rx_frequencies[ddc]
                } else {
                    0
                },
            )
        } else if idx == 9 {
            if lite {
                seq![0x12u8, self.tx_drive, 0x08, 0, 0]
            } else {
                seq![
                    0x12u8,
                    self.tx_drive,
                    0,
                    alex_rx_hpf(rx0 as int),
                    alex_tx_lpf(self.tx_frequency as int),
                ]
            }
        } else if idx == 10 {
            seq![
                0x14u8,
                0,
                0,
                0,
                if lite {
                    self.rx_attenuation % 32
                } else if self.rx_attenuation >= 20 {
                    0x20
                } else {
                    0
                },
            ]
        } else if idx == 11 {
            seq![0x16u8, 0, 0, 0, 0]
        } else {
            seq![
                0x1cu8,
                0,
                0,
                if lite {
                    (0xc0 + self.rx_attenuation % 64) as u8
                } else {
                    0
                },
                0,
            ]
        }
    }

    /// Samples join the transmit queue.
    pub open spec fn queued(self, samples: Seq<IqSample>) -> P1Model {
        P1Model { tx_queue: self.tx_queue + samples, ..self }
    }

    /// Whether more transmit samples are to be fetched before the next frame.
    pub open spec fn wants(self) -> bool {
        self.ptt && self.tx_queue.len() < TX_SAMPLES_PER_FRAME
    }

    /// Samples that come out of the ring join the transmit queue as they are, and
    /// `left` are known to stay in the ring.
    pub open spec fn fetching(self, samples: Seq<IqSample>, left: nat) -> P1Model {
        P1Model { fetched: self.fetched + samples, in_ring: left, ..self.queued(samples) }
    }

    /// `full` is the client after it has fetched what the ring held: at least the
    /// samples that were seen there before, and in the order of the stream. Samples
    /// come only from a ring, and only when they are wanted.
    pub open spec fn refills_to(self, full: P1Model) -> bool {
        if self.connected && self.wants() {
            &&& starts(full.stream, full.fetched)
            &&& exists|got: Seq<IqSample>, left: nat|
                full == #[trigger] self.fetching(got, left) && got.len() >= self.in_ring
        } else {
            full == self
        }
    }

    /// `seen` is the client after it has looked how many samples the ring holds:
    /// none that were seen before are gone.
    pub open spec fn looks(self, seen: P1Model) -> bool {
        &&& seen == (P1Model { in_ring: seen.in_ring, ..self })
        &&& seen.in_ring >= self.in_ring
        &&& !self.connected ==> seen == self
    }

    /// Number of transmit samples that wait here or were seen in the ring, as far
    /// as a `usize` can tell.
    pub open spec fn available(self) -> int {
        let n = self.tx_queue.len() + self.in_ring;
        if n > usize::MAX {
            usize::MAX as int
        } else {
            n as int
        }
    }

    /// The rotation moves on.
    pub open spec fn control_advanced(self) -> P1Model {
        P1Model { control_idx: (self.control_idx + 1) % CONTROL_ROTATION as int, ..self }
    }

    /// Transmit samples that go into the next frame.
    pub open spec fn frame_tx(self) -> Seq<IqSample> {
        if !self.ptt {
            Seq::empty()
        } else if self.tx_queue.len() <= TX_SAMPLES_PER_FRAME {
            self.tx_queue
        } else {
            self.tx_queue.take(TX_SAMPLES_PER_FRAME as int)
        }
    }

    /// The next frame to the radio: sync bytes, a command of the rotation with
    /// the transmit request, and samples while transmitting; the rest is zero.
    pub open spec fn host_frame(self) -> Seq<u8> {
        let c = self.control_command(self.control_idx);
        let head = seq![SYNC, SYNC, SYNC, with_mox(c[0], self.ptt), c[1], c[2], c[3], c[4]];
        let body = host_blocks(self.frame_tx(), self.cw_mode);
        head + body + zeros((504 - body.len()) as nat)
    }

    /// The client after a frame to the radio.
    pub open spec fn after_host_frame(self) -> P1Model {
        P1Model {
            tx_queue: self.tx_queue.skip(self.frame_tx().len() as int),
            ..self.control_advanced()
        }
    }

    /// A packet takes the next number.
    pub open spec fn seq_advanced(self) -> P1Model {
        P1Model { tx_seq: ((self.tx_seq + 1) % 0x1_0000_0000) as u32, ..self }
    }

    /// A packet of transmit samples, and the client after it: a numbered header
    /// and two frames, each after what the ring held was fetched if it was
    /// wanted.
    pub open spec fn sends(self, packet: Seq<u8>, after: P1Model) -> bool {
        exists|a: P1Model, b: P1Model|
            {
                &&& #[trigger] self.seq_advanced().refills_to(a)
                &&& #[trigger] a.after_host_frame().refills_to(b)
                &&& packet == data_header(0x02, self.tx_seq) + a.host_frame() + b.host_frame()
                &&& after == b.after_host_frame()
            }
    }

    /// A control packet: one command in the first frame, the rate and the
    /// number of receivers in the second, no samples.
    pub open spec fn control_packet(self, c: Seq<u8>) -> Seq<u8> {
        data_header(0x02, self.tx_seq) + seq![
            SYNC,
            SYNC,
            SYNC,
            with_mox(c[0], self.ptt),
            c[1],
            c[2],
            c[3],
            c[4],
        ] + zeros(504) + seq![
            SYNC,
            SYNC,
            SYNC,
            with_mox(0, self.ptt),
            rate_code(self.sample_rate),
            0,
            0,
            receivers_c4(self.nddc),
        ] + zeros(504)
    }

    /// Number of receivers that a configuration sets a frequency for.
    pub open spec fn configured(self) -> int {
        if self.nddc > 8 {
            8
        } else {
            self.nddc as int
        }
    }

    /// Command `k` of a configuration: rate and receivers, transmit frequency,
    /// receive frequencies, drive.
    pub open spec fn config_command(self, k: int) -> Seq<u8> {
        if k == 0 {
            seq![0x00u8, rate_code(self.sample_rate), 0, 0, receivers_c4(self.nddc)]
        } else if k == 1 {
            seq![0x02u8] + be32_bytes(self.tx_frequency)
        } else if k < 2 + self.configured() {
            seq![(0x04 + 2 * (k - 2)) as u8] + be32_bytes(self.rx_frequencies[k - 2])
        } else {
            seq![
                0x12u8,
                self.tx_drive,
                if self.hw_type is HermesLite {
                    0x08
                } else {
                    0
                },
                0,
                0,
            ]
        }
    }

    /// The client after a command.
    pub open spec fn commanded(self, cmd: P1Command) -> P1Model {
        match cmd {
            P1Command::SetRxFrequency { ddc, freq_hz } => if ddc < MAX_RECEIVERS {
                P1Model {
                    rx_frequencies: self.rx_frequencies.update(ddc as int, freq_hz),
                    ..self
                }
            } else {
                self
            },
            P1Command::SetTxFrequency(hz) => P1Model { tx_frequency: hz, ..self },
            P1Command::SetSampleRate(rate) => P1Model { sample_rate: rate, ..self },
            P1Command::SetNddc(n) => P1Model {
                nddc: if n == 0 {
                    1
                } else {
                    n
                },
                ..self
            },
            P1Command::SetTxDrive(drive) => P1Model { tx_drive: drive, ..self },
            P1Command::SetPtt(on) => {
                let keyed = P1Model { ptt: on, ..self };
                if on && !self.ptt {
                    P1Model { fifo: 0, last_send_ns: None, ..keyed }
                } else if !on {
                    P1Model { tx_queue: Seq::empty(), ..keyed }
                } else {
                    keyed
                }
            },
            P1Command::SetCwMode(cw) => P1Model { cw_mode: cw, ..self },
            P1Command::SetRxAttenuation(db) => P1Model { rx_attenuation: db, ..self },
            P1Command::Stop => self,
        }
    }

    /// Telemetry with what the control bytes of a frame add.
    pub open spec fn status_with(self, c: Seq<u8>) -> RadioStatus {
        let addr = c[0] % 128 / 2 * 2;
        let seen = RadioStatus { ptt: c[0] % 2 == 1, ..self.status };
        if addr == 0x00 {
            RadioStatus { adc_overflow: c[1], ..seen }
        } else if addr == 0x08 {
            RadioStatus { exciter_power: word(c[1], c[2]), forward_power: word(c[3], c[4]), ..seen }
        } else if addr == 0x10 {
            RadioStatus { reverse_power: word(c[1], c[2]), supply_voltage: word(c[3], c[4]), ..seen }
        } else if addr == 0x18 {
            RadioStatus { pa_current: word(c[1], c[2]), ..seen }
        } else {
            seen
        }
    }

    /// Telemetry that is complete when a frame with these control bytes comes:
    /// the kinds of telemetry come in ascending order, so a kind that is not
    /// above the last one starts a new round.
    pub open spec fn status_due(self, c: Seq<u8>) -> Option<RadioStatus> {
        match self.last_status_addr {
            Some(prev) if c[0] % 128 / 2 * 2 <= prev => Some(
                RadioStatus { ptt: c[0] % 2 == 1, ..self.status },
            ),
            _ => None,
        }
    }

    /// The client after a frame with these control bytes.
    pub open spec fn after_response(self, c: Seq<u8>) -> P1Model {
        P1Model {
            status: self.status_with(c),
            last_status_addr: Some((c[0] % 128 / 2 * 2) as u8),
            ..self
        }
    }

    /// The client after the frame at `at`, which counts only if it is in sync.
    pub open spec fn after_frame(self, data: Seq<u8>, at: int) -> P1Model {
        if is_synced(data, at) {
            self.after_response(control_at(data, at))
        } else {
            self
        }
    }

    /// What a frame reports.
    pub open spec fn reports(self, data: Seq<u8>, at: int, r: SubframeReport) -> bool {
        &&& r.status == self.status_due(control_at(data, at))
        &&& r.samples@.len() == self.nddc
        &&& forall|d: int|
            0 <= d < self.nddc ==> (#[trigger] r.samples@[d])@ == frame_samples(
                data,
                at,
                self.nddc as int,
                d,
                rows_per_frame(self.nddc as int),
            )
    }

    /// The client after a packet from the radio.
    pub open spec fn after_packet(self, data: Seq<u8>) -> P1Model {
        if is_radio_data(data) {
            P1Model {
                rx_seq: ((be32_value(data, 4) + 1) % 0x1_0000_0000) as u32,
                ..self.after_frame(data, frame_at(0)).after_frame(data, frame_at(1))
            }
        } else {
            self
        }
    }

    /// Fill of the radio's transmit buffer at `now_ns`, when it has drained
    /// since the last packet, as doubles.
    pub open spec fn drained(self, now_ns: int) -> int {
        match self.last_send_ns {
            Some(last) => {
                let passed = if now_ns >= last {
                    now_ns - last
                } else {
                    0
                };
                let spent = double_times(seconds(passed as nat), self.sample_rate as nat);
                if self.fifo <= spent {
                    0
                } else {
                    nearest_double_spec((self.fifo - spent) as nat, 1) as int
                }
            },
            None => self.fifo,
        }
    }

    /// Whether voice is transmitted.
    pub open spec fn sends_voice(self) -> bool {
        self.ptt && !self.cw_mode
    }

    /// What is decided when a packet is due, and the client after it. Voice with
    /// too few samples for a packet waits a little; all else is sent.
    pub open spec fn decides(
        self,
        pace: TxPace,
        available: int,
        now_ns: u64,
        d: SendDecision,
        after: P1Model,
    ) -> bool {
        if self.sends_voice() && available < pace.samples_per_packet {
            d == (SendDecision::Wait { delay_ns: SHORT_DELAY_NS }) && after == self
        } else {
            d is Send && after == (P1Model {
                fifo: self.drained(now_ns as int),
                last_send_ns: Some(now_ns),
                ..self
            })
        }
    }

    /// Fill of the radio's transmit buffer with one more packet, as a double. It is
    /// kept from growing beyond 2^42 samples.
    pub open spec fn filled(self, pace: TxPace) -> int {
        let n = nearest_double_spec(
            (self.fifo + pace.samples_per_packet * FINE_ONE) as nat,
            1,
        );
        if n > FINE_LIMIT {
            FINE_LIMIT as int
        } else {
            n as int
        }
    }

    /// The samples of `num / den` seconds, as doubles.
    pub open spec fn cushion(self, num: nat, den: nat) -> int {
        double_times(
            nearest_double_spec(num * FINE_ONE as nat, den),
            self.sample_rate as nat,
        ) as int
    }

    /// Time until the next packet is due, once one has gone out: while voice is
    /// transmitted it depends on how well the radio's buffer is filled.
    pub open spec fn next_delay(self, pace: TxPace) -> u64 {
        if !self.sends_voice() {
            pace.wire_interval_ns
        } else if self.filled(pace) > self.cushion(30, 1000) {
            LONG_DELAY_NS
        } else if self.filled(pace) > self.cushion(6, 1000) {
            SHORT_DELAY_NS
        } else {
            0
        }
    }

    /// What is decided when a packet is due, with the samples that wait and those
    /// that a look into the ring shows, and the client after it.
    pub open spec fn decides_due(
        self,
        pace: TxPace,
        now_ns: u64,
        d: SendDecision,
        after: P1Model,
    ) -> bool {
        exists|seen: P1Model| #[trigger]
            self.looks(seen) && seen.decides(pace, seen.available(), now_ns, d, after)
    }

    /// The pace of packets for the rate and receivers that are set up: the time that
    /// the samples of a packet take.
    pub open spec fn paced(self, p: TxPace) -> bool {
        &&& p.samples_per_packet == 2 * rows_per_frame(self.configured())
        &&& p.wire_interval_ns == span_ns(p.samples_per_packet as nat, self.sample_rate as nat)
    }
}

/// A data packet from the radio.
pub open spec fn is_radio_data(data: Seq<u8>) -> bool {
    data.len() >= PACKET_LEN && data[0] == 0xef && data[1] == 0xfe && data[2] == 0x01
}

/// What one frame from the radio reports.
pub struct SubframeReport {
    /// Telemetry, when a round of it is complete.
    pub status: Option<RadioStatus>,
    /// One run of samples for each receiver.
    pub samples: Vec<Vec<IqSample>>,
}

/// Delay after an underrun, and between packets while the radio's buffer fills.
pub const SHORT_DELAY_NS: u64 = 500_000;

/// Delay while the radio's buffer is well filled.
pub const LONG_DELAY_NS: u64 = 2_000_000;

/// Time without a packet after which the connection is lost.
pub const RECV_TIMEOUT_MS: u64 = 10_000;

/// Pace of the packets to the radio, fixed when streaming starts.
#[derive(Debug, Clone, Copy, PartialEq, Eq, Structural)]
pub struct TxPace {
    /// Number of sample times that a packet stands for.
    pub samples_per_packet: u32,
    /// Time that a packet stands for.
    pub wire_interval_ns: u64,
}

/// What is to be done when a packet is due.
#[derive(Debug, Clone, Copy, PartialEq, Eq, Structural)]
pub enum SendDecision {
    /// A packet is to be sent.
    Send,
    /// Nothing is to be sent, and the packet is due again later.
    Wait { delay_ns: u64 },
}

/// The host side of a connection.
pub struct Protocol1Client {
    hw_type: HpsdrHw,
    running: bool,
    sample_rate: u32,
    nddc: u8,
    rx_frequencies: [u32; 12],
    tx_frequency: u32,
    tx_drive: u8,
    ptt: bool,
    rx_attenuation: u8,
    tx_seq: u32,
    rx_seq: u32,
    control_idx: u8,
    tx_cw_mode: bool,
    tx_iq_buffer: VecDeque<IqSample>,
    tx_iq_source: Option<TxSource>,
    accumulated_status: RadioStatus,
    last_status_addr: Option<u8>,
    tx_fifo_estimate: u128,
    tx_last_send_ns: Option<u64>,
}

impl View for Protocol1Client {
    type V = P1Model;

    closed spec fn view(&self) -> P1Model {
        P1Model {
            hw_type: self.hw_type,
            running: self.running,
            sample_rate: self.sample_rate,
            nddc: self.nddc,
            rx_frequencies: self.rx_frequencies@,
            tx_frequency: self.tx_frequency,
            tx_drive: self.tx_drive,
            ptt: self.ptt,
            rx_attenuation: self.rx_attenuation,
            tx_seq: self.tx_seq,
            rx_seq: self.rx_seq,
            control_idx: self.control_idx as int,
            cw_mode: self.tx_cw_mode,
            tx_queue: self.tx_iq_buffer@,
            connected: self.tx_iq_source is Some,
            fetched: match self.tx_iq_source {
                Some(source) => taken_out(source),
                None => Seq::empty(),
            },
            in_ring: match self.tx_iq_source {
                Some(source) => known(source),
                None => 0,
            },
            stream: match self.tx_iq_source {
                Some(source) => source_stream(source),
                None => Map::empty(),
            },
            status: self.accumulated_status,
            last_status_addr: self.last_status_addr,
            fifo: self.tx_fifo_estimate as int,
            last_send_ns: self.tx_last_send_ns,
        }
    }
}

fn mox(c0: u8, ptt: bool) -> (r: u8)
    ensures
        r == with_mox(c0, ptt),
{
    if ptt && c0 % 2 == 0 {
        c0 + 1
    } else {
        c0
    }
}

fn code_of_rate(rate: u32) -> (code: u8)
    ensures
        code == rate_code(rate),
{
    let code: u8 = sample_rate_to_p1_code(rate);
    assert(rate_of_code(0) == Some(48_000u32) && rate_of_code(1) == Some(96_000u32) && rate_of_code(
        2,
    ) == Some(192_000u32) && rate_of_code(3) == Some(384_000u32));
    assert(rate_of_code(1u8 as int) == Some(96_000u32) && rate_of_code(2u8 as int) == Some(
        192_000u32,
    ) && rate_of_code(3u8 as int) == Some(384_000u32));
    code
}

fn c4_of_receivers(nddc: u8) -> (c4: u8)
    ensures
        c4 == receivers_c4(nddc),
{
    nddc.saturating_sub(1) % 8 * 8 + 4
}

fn freq_command(addr: u8, hz: u32) -> (c: [u8; 5])
    ensures
        c@ == seq![addr] + be32_bytes(hz),
{
    let c: [u8; 5] = [
        addr,
        (hz / 0x100_0000) as u8,
        (hz / 0x1_0000 % 256) as u8,
        (hz / 0x100 % 256) as u8,
        (hz % 256) as u8,
    ];
    assert(c@ =~= seq![addr] + be32_bytes(hz));
    c
}

fn push_host_block(out: &mut Vec<u8>, s: IqSample, cw: bool)
    ensures
        final(out)@ == old(out)@ + host_block(s, cw),
{
    let i: u16 = to_bits16(limit_to(s.i, FULL_SCALE_16) as i16);
    let q: u16 = to_bits16(negate_limited(s.q, FULL_SCALE_16) as i16);
    let audio: u16 = if cw {
        0
    } else {
        i
    };
    push_be16(out, audio);
    push_be16(out, audio);
    push_be16(out, i);
    push_be16(out, q);
    assert(out@ =~= old(out)@ + host_block(s, cw));
}

proof fn lemma_host_blocks_len(samples: Seq<IqSample>, cw: bool)
    ensures
        host_blocks(samples, cw).len() == 8 * samples.len(),
    decreases samples.len(),
{
    if samples.len() > 0 {
        lemma_host_blocks_len(samples.drop_last(), cw);
    }
}

impl Protocol1Client {
    /// A client for a radio, with nothing set up yet.
    pub fn new(hw_type: HpsdrHw) -> (c: Self)
        ensures
            c@ == (P1Model {
                hw_type,
                running: false,
                sample_rate: 48_000,
                nddc: 1,
                rx_frequencies: Seq::new(12, |k: int| 7_074_000u32),
                tx_frequency: 7_074_000,
                tx_drive: 128,
                ptt: false,
                rx_attenuation: 0,
                tx_seq: 0,
                rx_seq: 0,
                control_idx: 0,
                cw_mode: false,
                tx_queue: Seq::empty(),
                connected: false,
                fetched: Seq::empty(),
                in_ring: 0,
                stream: Map::empty(),
                status: RadioStatus {
                    ptt: false,
                    adc_overflow: 0,
                    forward_power: 0,
                    reverse_power: 0,
                    exciter_power: 0,
                    supply_voltage: 0,
                    pa_current: 0,
                },
                last_status_addr: None,
                fifo: 0,
                last_send_ns: None,
            }),
            c@.wf(),
    {
        let c: Protocol1Client = Protocol1Client {
            hw_type,
            running: false,
            sample_rate: 48_000,
            nddc: 1,
            rx_frequencies: [7_074_000; 12],
            tx_frequency: 7_074_000,
            tx_drive: 128,
            ptt: false,
            rx_attenuation: 0,
            tx_seq: 0,
            rx_seq: 0,
            control_idx: 0,
            tx_cw_mode: false,
            tx_iq_buffer: VecDeque::new(),
            tx_iq_source: None,
            accumulated_status: RadioStatus::default(),
            last_status_addr: None,
            tx_fifo_estimate: 0,
            tx_last_send_ns: None,
        };
        assert(c.rx_frequencies@ =~= Seq::new(12, |k: int| 7_074_000u32));
        proof {
            lemma_nothing_starts(c@.stream);
        }
        c
    }

    /// The next packet to start streaming, when `sent` of them have gone out: the
    /// request to start, then the packets that set the radio up. The radio is
    /// streaming once the request has gone out.
    pub fn start(&mut self, sent: usize) -> (packet: Option<Vec<u8>>)
        requires
            old(self)@.wf(),
        ensures
            sent == 0 ==> {
                &&& packet matches Some(p) && p@ == seq![0xefu8, 0xfeu8, 0x04u8, 0x01u8] + zeros(60)
                &&& final(self)@ == old(self)@
            },
            1 <= sent <= 3 + old(self)@.configured() ==> {
                &&& packet matches Some(p) && p@ == old(self)@.control_packet(
                    old(self)@.config_command(sent - 1),
                )
                &&& final(self)@ == (P1Model { running: true, ..old(self)@.seq_advanced() })
            },
            sent > 3 + old(self)@.configured() ==> packet is None && final(self)@ == (P1Model {
                running: true,
                ..old(self)@
            }),
            final(self)@.wf(),
    {
        if sent == 0 {
            return Some(run_packet(0x01));
        }
        let ghost m = self@;
        self.running = true;
        let configured: usize = if self.nddc > 8 {
            8
        } else {
            self.nddc as usize
        };
        if sent > 3 + configured {
            return None;
        }
        let c: [u8; 5] = self.config_command(sent - 1);
        assert(self@.config_command(sent - 1) =~= m.config_command(sent - 1));
        assert(self@.control_packet(c@) =~= m.control_packet(c@));
        Some(self.control_packet(c))
    }

    /// The packet that stops streaming. The radio goes on until it has gone out.
    pub fn stop(&self) -> (packet: Vec<u8>)
        ensures
            packet@ == seq![0xefu8, 0xfeu8, 0x04u8, 0x00u8] + zeros(60),
    {
        run_packet(0x00)
    }

    /// Takes in that the packet which stops streaming has gone out.
    pub fn stopped(&mut self)
        ensures
            final(self)@ == (P1Model { running: false, ..old(self)@ }),
    {
        self.running = false;
    }

    /// Whether the radio is streaming.
    pub fn is_running(&self) -> (r: bool)
        ensures
            r == self@.running,
    {
        self.running
    }

    /// Sets a receive frequency; a receiver that does not exist is ignored.
    pub fn set_rx_frequency(&mut self, ddc: usize, freq_hz: u32)
        ensures
            final(self)@ == old(self)@.commanded(P1Command::SetRxFrequency { ddc, freq_hz }),
            old(self)@.wf() ==> final(self)@.wf(),
    {
        if ddc < MAX_RECEIVERS {
            self.rx_frequencies[ddc] = freq_hz;
        }
    }

    /// Sets the transmit frequency.
    pub fn set_tx_frequency(&mut self, freq_hz: u32)
        ensures
            final(self)@ == (P1Model { tx_frequency: freq_hz, ..old(self)@ }),
    {
        self.tx_frequency = freq_hz;
    }

    /// Sets the sample rate.
    pub fn set_sample_rate(&mut self, rate: u32)
        ensures
            final(self)@ == (P1Model { sample_rate: rate, ..old(self)@ }),
    {
        self.sample_rate = rate;
    }

    /// Sets the number of receivers, at least one.
    pub fn set_nddc(&mut self, count: u8)
        ensures
            final(self)@ == old(self)@.commanded(P1Command::SetNddc(count)),
    {
        self.nddc = if count == 0 {
            1
        } else {
            count
        };
    }

    /// Transmit drive.
    pub fn tx_drive(&self) -> (drive: u8)
        ensures
            drive == self@.tx_drive,
    {
        self.tx_drive
    }

    /// Sets the transmit drive.
    pub fn set_tx_drive(&mut self, drive: u8)
        ensures
            final(self)@ == (P1Model { tx_drive: drive, ..old(self)@ }),
    {
        self.tx_drive = drive;
    }

    /// Requests transmission, and nothing else: queued samples and pacing stay.
    pub fn set_ptt(&mut self, on: bool)
        ensures
            final(self)@ == (P1Model { ptt: on, ..old(self)@ }),
    {
        self.ptt = on;
    }

    /// Sets the receive attenuation.
    pub fn set_rx_attenuation(&mut self, db: u8)
        ensures
            final(self)@ == (P1Model { rx_attenuation: db, ..old(self)@ }),
    {
        self.rx_attenuation = db;
    }

    /// Carries a command out. Returns the packet that it asks for.
    pub fn handle_command(&mut self, cmd: P1Command) -> (packet: Option<Vec<u8>>)
        ensures
            final(self)@ == old(self)@.commanded(cmd),
            old(self)@.wf() ==> final(self)@.wf(),
            packet is Some <==> cmd is Stop,
            packet matches Some(p) ==> p@ == seq![0xefu8, 0xfeu8, 0x04u8, 0x00u8] + zeros(60),
    {
        match cmd {
            P1Command::SetRxFrequency { ddc, freq_hz } => {
                self.set_rx_frequency(ddc, freq_hz);
            },
            P1Command::SetTxFrequency(hz) => {
                self.set_tx_frequency(hz);
            },
            P1Command::SetSampleRate(rate) => {
                self.set_sample_rate(rate);
            },
            P1Command::SetNddc(n) => {
                self.set_nddc(n);
            },
            P1Command::SetTxDrive(drive) => {
                self.set_tx_drive(drive);
            },
            P1Command::SetPtt(on) => {
                let was: bool = self.ptt;
                self.set_ptt(on);
                if on && !was {
                    self.tx_fifo_estimate = 0;
                    self.tx_last_send_ns = None;
                }
                if !on {
                    self.tx_iq_buffer.clear();
                }
            },
            P1Command::SetCwMode(cw) => {
                self.tx_cw_mode = cw;
            },
            P1Command::SetRxAttenuation(db) => {
                self.set_rx_attenuation(db);
            },
            P1Command::Stop => {
                return Some(self.stop());
            },
        }
        None
    }

    /// Number of receive samples in a frame.
    pub fn samples_per_subframe(&self) -> (n: usize)
        ensures
            n == rows_per_frame(
                if self@.nddc == 0 {
                    1
                } else {
                    self@.configured()
                },
            ),
            n <= 63,
    {
        let nddc: usize = if self.nddc == 0 {
            1
        } else if self.nddc > 8 {
            8
        } else {
            self.nddc as usize
        };
        let row: usize = 6 * nddc + 2;
        assert(504usize as int / row as int <= 63) by (nonlinear_arith)
            requires
                row >= 8,
        ;
        504 / row
    }

    /// The next command of the rotation.
    pub fn next_control_command(&mut self) -> (c: [u8; 5])
        requires
            old(self)@.wf(),
        ensures
            c@ == old(self)@.control_command(old(self)@.control_idx),
            final(self)@ == old(self)@.control_advanced(),
            final(self)@.wf(),
    {
        let idx: u8 = self.control_idx;
        self.control_idx = (idx + 1) % CONTROL_ROTATION;
        let lite: bool = self.hw_type == HpsdrHw::HermesLite;
        let c: [u8; 5] = if idx == 0 {
            let band: u32 = if self.ptt {
                self.tx_frequency
            } else {
                self.rx_frequencies[0]
            };
            let c2: u8 = if lite {
                n2adr_oc_for_freq(band) * 2
            } else {
                0
            };
            [0x00, code_of_rate(self.sample_rate), c2, 0, c4_of_receivers(self.nddc)]
        } else if idx == 1 {
            freq_command(0x02, self.tx_frequency)
        } else if idx <= 8 {
            let ddc: u8 = idx - 2;
            let hz: u32 = if ddc < self.nddc {
                self.rx_frequencies[ddc as usize]
            } else {
                0
            };
            freq_command(0x04 + 2 * ddc, hz)
        } else if idx == 9 {
            if lite {
                [0x12, self.tx_drive, 0x08, 0, 0]
            } else {
                [
                    0x12,
                    self.tx_drive,
                    0,
                    alex_rx_hpf_for_freq(self.rx_frequencies[0]),
                    alex_tx_lpf_for_freq(self.tx_frequency),
                ]
            }
        } else if idx == 10 {
            let c4: u8 = if lite {
                self.rx_attenuation % 32
            } else if self.rx_attenuation >= 20 {
                0x20
            } else {
                0
            };
            [0x14, 0, 0, 0, c4]
        } else if idx == 11 {
            [0x16, 0, 0, 0, 0]
        } else {
            let c3: u8 = if lite {
                0xc0 + self.rx_attenuation % 64
            } else {
                0
            };
            [0x1c, 0, 0, c3, 0]
        };
        assert(c@ =~= old(self)@.control_command(idx as int));
        c
    }

    /// Number of transmit samples that wait.
    pub fn tx_waiting(&self) -> (n: usize)
        ensures
            n == self@.tx_queue.len(),
    {
        self.tx_iq_buffer.len()
    }

    /// Whether more transmit samples are to be fetched before the next frame.
    pub fn wants_samples(&self) -> (r: bool)
        ensures
            r == self@.wants(),
    {
        self.ptt && self.tx_iq_buffer.len() < TX_SAMPLES_PER_FRAME
    }

    /// Queues transmit samples, in units of 1/32767.
    pub fn queue_samples(&mut self, samples: &[IqSample])
        ensures
            final(self)@ == old(self)@.queued(samples@),
    {
        let ghost before = *self;
        let mut i: usize = 0;
        while i < samples.len()
            invariant
                i <= samples@.len(),
                self@ == (P1Model {
                    tx_queue: before@.tx_queue + samples@.take(i as int),
                    ..before@
                }),
            decreases samples@.len() - i,
        {
            self.tx_iq_buffer.push_back(samples[i]);
            i = i + 1;
            assert(self@.tx_queue =~= before@.tx_queue + samples@.take(i as int));
        }
        assert(samples@.take(samples@.len() as int) == samples@);
    }

    /// The end of a ring at which another thread hands over transmit samples. An
    /// earlier ring is given up.
    pub fn tx_iq_sink(&mut self) -> (sink: TxSink)
        ensures
            final(self)@ == (P1Model {
                connected: true,
                fetched: Seq::empty(),
                in_ring: 0,
                stream: sink_stream(sink),
                ..old(self)@
            }),
            old(self)@.wf() ==> final(self)@.wf(),
            handed_over(sink) == Seq::<IqSample>::empty(),
            ring_limit(sink) == TX_RING_LEN,
    {
        let (sink, source) = tx_ring();
        self.tx_iq_source = Some(source);
        proof {
            lemma_nothing_starts(self@.stream);
        }
        sink
    }

    /// Number of transmit samples that wait here or in the ring.
    pub fn tx_available(&mut self) -> (n: usize)
        ensures
            old(self)@.looks(final(self)@),
            n == final(self)@.available(),
    {
        let waiting: usize = match &mut self.tx_iq_source {
            Some(source) => source.occupied_len(),
            None => 0,
        };
        assert(self@ =~= (P1Model { in_ring: waiting as nat, ..old(self)@ }));
        self.tx_iq_buffer.len().saturating_add(waiting)
    }

    /// Fetches what the ring holds, when fewer samples wait than a frame takes.
    pub fn refill(&mut self)
        ensures
            old(self)@.refills_to(final(self)@),
    {
        let ghost m = self@;
        if self.wants_samples() {
            let got: Option<Vec<IqSample>> = match &mut self.tx_iq_source {
                Some(source) => Some(source.take_all()),
                None => None,
            };
            let ghost left = self@.in_ring;
            if let Some(samples) = got {
                assert(self@ =~= (P1Model { fetched: m.fetched + samples@, in_ring: left, ..m }));
                self.queue_samples(samples.as_slice());
                assert(self@ =~= m.fetching(samples@, left));
            } else {
                assert(self@ =~= m);
            }
        }
    }

    /// Appends the next frame to the radio, with samples from the ring when
    /// those that wait do not fill it.
    pub fn fill_host_subframe(&mut self, out: &mut Vec<u8>)
        requires
            old(self)@.wf(),
            old(out)@.len() + FRAME_LEN <= usize::MAX,
        ensures
            exists|m: P1Model|
                {
                    &&& #[trigger] old(self)@.refills_to(m)
                    &&& final(out)@ == old(out)@ + m.host_frame()
                    &&& final(self)@ == m.after_host_frame()
                },
            !(old(self)@.connected && old(self)@.wants()) ==> final(out)@ == old(out)@ + old(
                self,
            )@.host_frame() && final(self)@ == old(self)@.after_host_frame(),
            final(out)@.len() == old(out)@.len() + FRAME_LEN,
            final(self)@.wf(),
    {
        self.refill();
        self.pack_host_subframe(out);
    }

    /// Appends the next frame to the radio, with the samples that wait.
    pub fn pack_host_subframe(&mut self, out: &mut Vec<u8>)
        requires
            old(self)@.wf(),
            old(out)@.len() + FRAME_LEN <= usize::MAX,
        ensures
            final(out)@ == old(out)@ + old(self)@.host_frame(),
            final(out)@.len() == old(out)@.len() + FRAME_LEN,
            final(self)@ == old(self)@.after_host_frame(),
            final(self)@.wf(),
    {
        let ghost m = self@;
        let ghost start = out@;
        let end: usize = out.len() + FRAME_LEN;
        let c: [u8; 5] = self.next_control_command();
        out.push(SYNC);
        out.push(SYNC);
        out.push(SYNC);
        out.push(mox(c[0], self.ptt));
        out.push(c[1]);
        out.push(c[2]);
        out.push(c[3]);
        out.push(c[4]);
        let ghost head = out@;
        let n: usize = if !self.ptt {
            0
        } else if self.tx_iq_buffer.len() < TX_SAMPLES_PER_FRAME {
            self.tx_iq_buffer.len()
        } else {
            TX_SAMPLES_PER_FRAME
        };
        let mut k: usize = 0;
        assert(m.frame_tx() =~= m.tx_queue.take(n as int));
        while k < n
            invariant
                k <= n,
                n <= m.tx_queue.len(),
                n <= 63,
                self@ == (P1Model {
                    tx_queue: m.tx_queue.skip(k as int),
                    ..m.control_advanced()
                }),
                out@ == head + host_blocks(m.tx_queue.take(k as int), m.cw_mode),
            decreases n - k,
        {
            let popped: Option<IqSample> = self.tx_iq_buffer.pop_front();
            if let Some(s) = popped {
                push_host_block(out, s, self.tx_cw_mode);
            }
            k = k + 1;
            proof {
                let taken = m.tx_queue.take(k as int);
                assert(taken.drop_last() == m.tx_queue.take(k - 1));
                assert(taken.last() == m.tx_queue[k - 1]);
                assert(out@ =~= head + host_blocks(taken, m.cw_mode));
                assert(self@.tx_queue =~= m.tx_queue.skip(k as int));
            }
        }
        proof {
            lemma_host_blocks_len(m.frame_tx(), m.cw_mode);
        }
        pad_to(out, end);
        assert(out@ =~= start + m.host_frame());
        assert(self@ =~= m.after_host_frame());
    }

    /// Starts the next packet of transmit samples: its header. Two frames are to
    /// follow.
    pub fn start_data_packet(&mut self) -> (packet: Vec<u8>)
        ensures
            packet@ == data_header(0x02, old(self)@.tx_seq),
            packet@.len() == HEADER_LEN,
            final(self)@ == old(self)@.seq_advanced(),
    {
        let mut packet: Vec<u8> = Vec::with_capacity(PACKET_LEN);
        push_data_header(&mut packet, 0x02, self.tx_seq);
        self.tx_seq = self.tx_seq.wrapping_add(1);
        assert(packet@ =~= data_header(0x02, old(self)@.tx_seq));
        packet
    }

    /// The next packet of transmit samples, with samples from the ring when
    /// those that wait do not fill a frame.
    pub fn host_data_packet(&mut self) -> (packet: Vec<u8>)
        requires
            old(self)@.wf(),
        ensures
            old(self)@.sends(packet@, final(self)@),
            !old(self)@.connected ==> packet@ == data_header(0x02, old(self)@.tx_seq) + old(
                self,
            )@.seq_advanced().host_frame() + old(
                self,
            )@.seq_advanced().after_host_frame().host_frame() && final(self)@ == old(
                self,
            )@.seq_advanced().after_host_frame().after_host_frame(),
            packet@.len() == PACKET_LEN,
            final(self)@.wf(),
    {
        let mut packet: Vec<u8> = self.start_data_packet();
        self.fill_host_subframe(&mut packet);
        self.fill_host_subframe(&mut packet);
        packet
    }

    /// A packet with one command and no samples.
    pub fn control_packet(&mut self, c: [u8; 5]) -> (packet: Vec<u8>)
        ensures
            packet@ == old(self)@.control_packet(c@),
            packet@.len() == PACKET_LEN,
            final(self)@ == old(self)@.seq_advanced(),
    {
        let mut packet: Vec<u8> = Vec::with_capacity(PACKET_LEN);
        push_data_header(&mut packet, 0x02, self.tx_seq);
        self.tx_seq = self.tx_seq.wrapping_add(1);
        packet.push(SYNC);
        packet.push(SYNC);
        packet.push(SYNC);
        packet.push(mox(c[0], self.ptt));
        packet.push(c[1]);
        packet.push(c[2]);
        packet.push(c[3]);
        packet.push(c[4]);
        pad_to(&mut packet, HEADER_LEN + FRAME_LEN);
        packet.push(SYNC);
        packet.push(SYNC);
        packet.push(SYNC);
        packet.push(mox(0, self.ptt));
        packet.push(code_of_rate(self.sample_rate));
        packet.push(0);
        packet.push(0);
        packet.push(c4_of_receivers(self.nddc));
        pad_to(&mut packet, PACKET_LEN);
        assert(packet@ =~= old(self)@.control_packet(c@));
        packet
    }

    fn config_command(&self, k: usize) -> (c: [u8; 5])
        requires
            self@.wf(),
            k < 3 + self@.configured(),
        ensures
            c@ == self@.config_command(k as int),
    {
        let configured: usize = if self.nddc > 8 {
            8
        } else {
            self.nddc as usize
        };
        let c: [u8; 5] = if k == 0 {
            [0x00, code_of_rate(self.sample_rate), 0, 0, c4_of_receivers(self.nddc)]
        } else if k == 1 {
            freq_command(0x02, self.tx_frequency)
        } else if k < 2 + configured {
            freq_command(0x04 + 2 * (k - 2) as u8, self.rx_frequencies[k - 2])
        } else {
            let c2: u8 = if self.hw_type == HpsdrHw::HermesLite {
                0x08
            } else {
                0
            };
            [0x12, self.tx_drive, c2, 0, 0]
        };
        assert(c@ =~= self@.config_command(k as int));
        c
    }

    /// Takes in a packet from the radio. Returns what its frames report.
    pub fn handle_radio_packet(&mut self, data: &[u8]) -> (reports: Vec<SubframeReport>)
        requires
            old(self)@.wf(),
        ensures
            final(self)@ == old(self)@.after_packet(data@),
            final(self)@.wf(),
            ({
                let first = is_radio_data(data@) && is_synced(data@, frame_at(0));
                let second = is_radio_data(data@) && is_synced(data@, frame_at(1));
                let mid = old(self)@.after_frame(data@, frame_at(0));
                &&& reports@.len() == (if first {
                    1int
                } else {
                    0
                }) + (if second {
                    1int
                } else {
                    0
                })
                &&& first ==> old(self)@.reports(data@, frame_at(0), reports@[0])
                &&& second ==> mid.reports(data@, frame_at(1), reports@.last())
            }),
    {
        let mut reports: Vec<SubframeReport> = Vec::new();
        if data.len() < 8 || data[0] != 0xef || data[1] != 0xfe || data[2] != 0x01 || data.len()
            < PACKET_LEN {
            return reports;
        }
        self.rx_seq = read_be32(data, 4).wrapping_add(1);
        let first: Option<SubframeReport> = self.parse_radio_subframe(data, HEADER_LEN);
        let second: Option<SubframeReport> = self.parse_radio_subframe(
            data,
            HEADER_LEN + FRAME_LEN,
        );
        if let Some(r) = first {
            reports.push(r);
        }
        if let Some(r) = second {
            reports.push(r);
        }
        reports
    }

    /// Takes in the frame at `at`. A frame that is cut short or out of sync reports
    /// nothing.
    pub fn parse_radio_subframe(&mut self, data: &[u8], at: usize) -> (report: Option<
        SubframeReport,
    >)
        requires
            old(self)@.wf(),
        ensures
            final(self)@ == if at + FRAME_LEN <= data@.len() {
                old(self)@.after_frame(data@, at as int)
            } else {
                old(self)@
            },
            final(self)@.wf(),
            report is Some <==> at + FRAME_LEN <= data@.len() && is_synced(data@, at as int),
            report matches Some(r) ==> old(self)@.reports(data@, at as int, r),
    {
        if data.len() < FRAME_LEN || at > data.len() - FRAME_LEN {
            return None;
        }
        if data[at] != SYNC || data[at + 1] != SYNC || data[at + 2] != SYNC {
            return None;
        }
        let ghost m = self@;
        let c0: u8 = data[at + 3];
        let addr: u8 = c0 % 128 / 2 * 2;
        proof {
            let c = control_at(data@, at as int);
            assert(c[0] == data@[at + 3] && c[1] == data@[at + 4] && c[2] == data@[at + 5] && c[3]
                == data@[at + 6] && c[4] == data@[at + 7]);
        }
        self.accumulated_status.ptt = c0 % 2 == 1;
        let status: Option<RadioStatus> = match self.last_status_addr {
            Some(prev) if addr <= prev => Some(self.accumulated_status),
            _ => None,
        };
        self.last_status_addr = Some(addr);
        let high: u16 = read_be16(data, at + 4);
        let low: u16 = read_be16(data, at + 6);
        if addr == 0x00 {
            self.accumulated_status.adc_overflow = data[at + 4];
        } else if addr == 0x08 {
            self.accumulated_status.exciter_power = high;
            self.accumulated_status.forward_power = low;
        } else if addr == 0x10 {
            self.accumulated_status.reverse_power = high;
            self.accumulated_status.supply_voltage = low;
        } else if addr == 0x18 {
            self.accumulated_status.pa_current = high;
        }
        let nddc: usize = self.nddc as usize;
        let mut samples: Vec<Vec<IqSample>> = Vec::new();
        let mut k: usize = 0;
        while k < nddc
            invariant
                k <= nddc,
                samples@.len() == k,
                forall|d: int|
                    0 <= d < k ==> (#[trigger] samples@[d])@ == Seq::<IqSample>::empty(),
            decreases nddc - k,
        {
            samples.push(Vec::new());
            k = k + 1;
        }
        read_frame_samples(&mut samples, data, at, nddc);
        proof {
            assert forall|d: int| 0 <= d < nddc implies (#[trigger] samples@[d])@ == frame_samples(
                data@,
                at as int,
                nddc as int,
                d,
                rows_per_frame(nddc as int),
            ) by {
                assert(samples@[d]@ =~= frame_samples(
                    data@,
                    at as int,
                    nddc as int,
                    d,
                    rows_per_frame(nddc as int),
                ));
            }
        }
        Some(SubframeReport { status, samples })
    }

    /// The pace of packets for the rate and receivers that are set up.
    pub fn pace(&self) -> (p: TxPace)
        requires
            self@.wf(),
            self@.sample_rate > 0,
        ensures
            self@.paced(p),
    {
        let per_frame: usize = self.samples_per_subframe();
        let samples: u32 = 2 * per_frame as u32;
        proof {
            lemma_rows_bounds(self@.configured());
        }
        let interval: u64 = span_of(samples, self.sample_rate);
        TxPace { samples_per_packet: samples, wire_interval_ns: interval }
    }

    /// Decides what to do when a packet is due at `now_ns` with the transmit
    /// samples that wait here or in the ring.
    pub fn send_due(&mut self, pace: &TxPace, now_ns: u64) -> (d: SendDecision)
        requires
            old(self)@.wf(),
        ensures
            old(self)@.decides_due(*pace, now_ns, d, final(self)@),
            final(self)@.wf(),
    {
        let available: usize = self.tx_available();
        self.on_send_due(pace, available, now_ns)
    }

    /// Decides what to do when a packet is due at `now_ns` with `available`
    /// transmit samples at hand: no packet of voice is sent that would run short of
    /// samples.
    pub fn on_send_due(&mut self, pace: &TxPace, available: usize, now_ns: u64) -> (d: SendDecision)
        requires
            old(self)@.wf(),
        ensures
            old(self)@.decides(*pace, available as int, now_ns, d, final(self)@),
            final(self)@.wf(),
    {
        let voice: bool = self.ptt && !self.tx_cw_mode;
        if voice && available < pace.samples_per_packet as usize {
            return SendDecision::Wait { delay_ns: SHORT_DELAY_NS };
        }
        if let Some(last) = self.tx_last_send_ns {
            let left: u128 = self.fill_after(now_ns.saturating_sub(last));
            self.tx_fifo_estimate = left;
        }
        self.tx_last_send_ns = Some(now_ns);
        SendDecision::Send
    }

    fn fill_after(&self, passed_ns: u64) -> (left: u128)
        requires
            self@.wf(),
        ensures
            ({
                let spent = double_times(seconds(passed_ns as nat), self@.sample_rate as nat);
                left == if self@.fifo <= spent {
                    0
                } else {
                    nearest_double_spec((self@.fifo - spent) as nat, 1) as int
                }
            }),
            left <= FINE_LIMIT,
    {
        let passed: u128 = seconds_of(passed_ns);
        let rate: u128 = self.sample_rate as u128;
        let ghost exact = seconds(passed_ns as nat) * self@.sample_rate as nat;
        proof {
            lemma_limit_is_double();
            if exact >= FINE_LIMIT {
                lemma_rounds_at_least(exact, 1, FINE_LIMIT as nat);
            }
        }
        let product: u128 = match passed.checked_mul(rate) {
            Some(p) => p,
            None => u128::MAX,
        };
        if product >= FINE_LIMIT {
            return 0;
        }
        let spent: u128 = nearest_double(product, 1);
        if self.tx_fifo_estimate <= spent {
            return 0;
        }
        let rest: u128 = self.tx_fifo_estimate - spent;
        proof {
            lemma_rounds_at_most(rest as nat, 1, FINE_LIMIT as nat);
        }
        nearest_double(rest, 1)
    }

    /// Takes in that a packet of transmit samples has gone out. Returns the time
    /// until the next one is due: while voice is transmitted, packets follow the
    /// estimated fill of the radio's buffer; else they follow the wire rate.
    pub fn data_packet_sent(&mut self, pace: &TxPace) -> (delay_ns: u64)
        requires
            old(self)@.wf(),
        ensures
            delay_ns == old(self)@.next_delay(*pace),
            final(self)@ == (P1Model { fifo: old(self)@.filled(*pace), ..old(self)@ }),
            final(self)@.wf(),
    {
        let added: u128 = pace.samples_per_packet as u128 * FINE_ONE;
        let fill: u128 = nearest_double(self.tx_fifo_estimate + added, 1);
        self.tx_fifo_estimate = if fill > FINE_LIMIT {
            FINE_LIMIT
        } else {
            fill
        };
        if !(self.ptt && !self.tx_cw_mode) {
            pace.wire_interval_ns
        } else if self.tx_fifo_estimate > self.cushion_of(30) {
            LONG_DELAY_NS
        } else if self.tx_fifo_estimate > self.cushion_of(6) {
            SHORT_DELAY_NS
        } else {
            0
        }
    }

    fn cushion_of(&self, ms: u128) -> (n: u128)
        requires
            ms <= 1000,
        ensures
            n == self@.cushion(ms as nat, 1000),
    {
        let time: u128 = nearest_double(ms * FINE_ONE, 1000);
        let rate: u128 = self.sample_rate as u128;
        assert(time * rate <= 0x10_0000_0000_0000_0000_0000 * 0x1_0000_0000) by (nonlinear_arith)
            requires
                time <= 0x10_0000_0000_0000_0000_0000,
                rate <= 0x1_0000_0000,
        ;
        nearest_double(time * rate, 1)
    }
}

/// The time at which the next packet is due: `delay_ns` after the last one was
/// due, or after now when that has passed already.
pub fn next_send_ns(due_ns: u64, delay_ns: u64, now_ns: u64) -> (next: u64)
    requires
        due_ns + delay_ns <= u64::MAX,
        now_ns + delay_ns <= u64::MAX,
    ensures
        next == if due_ns + delay_ns >= now_ns {
            due_ns + delay_ns
        } else {
            now_ns + delay_ns
        },
{
    let scheduled: u64 = due_ns + delay_ns;
    if scheduled >= now_ns {
        scheduled
    } else {
        now_ns + delay_ns
    }
}

fn run_packet(command: u8) -> (packet: Vec<u8>)
    ensures
        packet@ == seq![0xefu8, 0xfeu8, 0x04u8, command] + zeros(60),
{
    let mut packet: Vec<u8> = Vec::with_capacity(64);
    packet.push(0xef);
    packet.push(0xfe);
    packet.push(0x04);
    packet.push(command);
    pad_to(&mut packet, 64);
    packet
}

/// `states[k]` is the client before packet `k`, and the packets go out one after
/// the other.
#[verifier::opaque]
pub open spec fn packets_sent(states: Seq<P1Model>, packets: Seq<Seq<u8>>) -> bool {
    &&& states.len() == packets.len() + 1
    &&& states[0].wf()
    &&& forall|k: int|
        #![trigger packets[k]]
        0 <= k < packets.len() ==> states[k].sends(packets[k], states[k + 1])
}

proof fn lemma_packet_keeps_order(m: P1Model, packet: Seq<u8>, after: P1Model)
    requires
        m.sends(packet, after),
    ensures
        packet.take(8) == data_header(0x02, m.tx_seq),
        after.tx_seq == (m.tx_seq + 1) % 0x1_0000_0000,
        after.control_idx == (m.control_idx + 2) % 13,
{
    let (a, b) = choose|a: P1Model, b: P1Model|
        {
            &&& #[trigger] m.seq_advanced().refills_to(a)
            &&& #[trigger] a.after_host_frame().refills_to(b)
            &&& packet == data_header(0x02, m.tx_seq) + a.host_frame() + b.host_frame()
            &&& after == b.after_host_frame()
        };
    assert(a.tx_seq == m.seq_advanced().tx_seq && a.control_idx == m.control_idx);
    assert(b.tx_seq == a.tx_seq && b.control_idx == (a.control_idx + 1) % 13);
    assert(data_header(0x02, m.tx_seq).len() == 8);
    assert(packet.take(8) =~= data_header(0x02, m.tx_seq));
}

proof fn lemma_run_keeps_order(states: Seq<P1Model>, packets: Seq<Seq<u8>>, k: int)
    requires
        packets_sent(states, packets),
        0 <= k < packets.len(),
    ensures
        packets[k].take(8) == data_header(0x02, states[k].tx_seq),
        states[k + 1].tx_seq == (states[k].tx_seq + 1) % 0x1_0000_0000,
        states[k + 1].control_idx == (states[k].control_idx + 2) % 13,
{
    reveal(packets_sent);
    assert(states[k].sends(packets[k], states[k + 1]));
    lemma_packet_keeps_order(states[k], packets[k], states[k + 1]);
}

proof fn lemma_counts_go_on(x: int, y: int)
    ensures
        (x % 0x1_0000_0000 + 1) % 0x1_0000_0000 == (x + 1) % 0x1_0000_0000,
        (y % 13 + 2) % 13 == (y + 2) % 13,
{
}

/// Packets to the radio are numbered without gaps, and their commands go round
/// all thirteen: each packet moves the rotation on by two commands.
pub proof fn lemma_packets_are_numbered(states: Seq<P1Model>, packets: Seq<Seq<u8>>, n: nat)
    requires
        packets_sent(states, packets),
        n <= packets.len(),
    ensures
        states[n as int].tx_seq == (states[0].tx_seq + n) % 0x1_0000_0000,
        states[n as int].control_idx == (states[0].control_idx + 2 * n) % 13,
        n < packets.len() ==> packets[n as int].take(8) == data_header(
            0x02,
            ((states[0].tx_seq + n) % 0x1_0000_0000) as u32,
        ),
    decreases n,
{
    if n > 0 {
        let k = n - 1;
        lemma_packets_are_numbered(states, packets, k as nat);
        lemma_run_keeps_order(states, packets, k);
        lemma_counts_go_on(states[0].tx_seq + k, states[0].control_idx + 2 * k);
    } else {
        reveal(packets_sent);
        assert(states[0].wf());
    }
    if n < packets.len() {
        lemma_run_keeps_order(states, packets, n as int);
    }
}

/// A frame that is sent while transmitting takes the oldest samples, and no
/// sample is lost or sent twice: what was queued is what the frame carries
/// followed by what still waits.
pub proof fn lemma_samples_are_sent_once(m: P1Model)
    ensures
        m.frame_tx() + m.after_host_frame().tx_queue == m.tx_queue,
{
}

/// The samples that a packet to the radio carries in its two frames. Behind them each
/// frame is zero.
pub open spec fn packet_carries(
    packet: Seq<u8>,
    first: Seq<IqSample>,
    second: Seq<IqSample>,
    cw: bool,
) -> bool {
    &&& packet.len() == PACKET_LEN
    &&& first.len() <= TX_SAMPLES_PER_FRAME
    &&& second.len() <= TX_SAMPLES_PER_FRAME
    &&& packet.subrange(frame_at(0) + 8, frame_at(1)) == host_blocks(first, cw) + zeros(
        (504 - 8 * first.len()) as nat,
    )
    &&& packet.subrange(frame_at(1) + 8, PACKET_LEN as int) == host_blocks(second, cw) + zeros(
        (504 - 8 * second.len()) as nat,
    )
}

proof fn lemma_queues_join(
    queue: Seq<IqSample>,
    got: Seq<IqSample>,
    first: Seq<IqSample>,
    mid: Seq<IqSample>,
    more: Seq<IqSample>,
    second: Seq<IqSample>,
    rest: Seq<IqSample>,
)
    requires
        first + mid == queue + got,
        second + rest == mid + more,
    ensures
        first + second + rest == queue + (got + more),
{
    assert(first + second + rest =~= first + (second + rest));
    assert(first + (mid + more) =~= (first + mid) + more);
    assert((queue + got) + more =~= queue + (got + more));
}

proof fn lemma_fetches_join(a: Seq<IqSample>, b: Seq<IqSample>, c: Seq<IqSample>)
    requires
        a.is_prefix_of(b),
        b.is_prefix_of(c),
    ensures
        a.is_prefix_of(c),
        c.skip(a.len() as int) == b.skip(a.len() as int) + c.skip(b.len() as int),
{
    assert(c.take(b.len() as int) == b);
    assert(b.take(a.len() as int) == a);
    assert(c.take(a.len() as int) =~= a);
    assert(c.skip(a.len() as int) =~= b.skip(a.len() as int) + c.skip(b.len() as int));
}

proof fn lemma_rows_bounds(nddc: int)
    requires
        nddc >= 1,
    ensures
        0 <= rows_per_frame(nddc) <= 63,
        rows_per_frame(1) == 63,
{
    assert(0 <= 504int / (6 * nddc + 2) <= 63) by (nonlinear_arith)
        requires
            nddc >= 1,
    ;
    assert(row_len(1) == 8);
}

/// What has been fetched from the ring in between two states of the client.
pub open spec fn fetched_between(m: P1Model, after: P1Model) -> Seq<IqSample> {
    after.fetched.skip(m.fetched.len() as int)
}

proof fn lemma_frames_carry(header: Seq<u8>, a: P1Model, b: P1Model)
    requires
        header.len() == HEADER_LEN,
        a.cw_mode == b.cw_mode,
    ensures
        packet_carries(header + a.host_frame() + b.host_frame(), a.frame_tx(), b.frame_tx(), a.cw_mode),
{
    lemma_host_blocks_len(a.frame_tx(), a.cw_mode);
    lemma_host_blocks_len(b.frame_tx(), b.cw_mode);
    let packet = header + a.host_frame() + b.host_frame();
    assert(packet.subrange(frame_at(0) + 8, frame_at(1)) =~= host_blocks(a.frame_tx(), a.cw_mode)
        + zeros((504 - 8 * a.frame_tx().len()) as nat));
    assert(packet.subrange(frame_at(1) + 8, PACKET_LEN as int) =~= host_blocks(
        b.frame_tx(),
        a.cw_mode,
    ) + zeros((504 - 8 * b.frame_tx().len()) as nat));
}

proof fn lemma_fetching_extends(m: P1Model, full: P1Model)
    requires
        m.refills_to(full),
    ensures
        m.fetched.is_prefix_of(full.fetched),
        full.tx_queue == m.tx_queue + fetched_between(m, full),
        full.tx_queue.len() >= m.tx_queue.len(),
        m.connected && m.wants() ==> full.tx_queue.len() >= m.tx_queue.len() + m.in_ring,
        !m.wants() ==> full == m,
        full == (P1Model {
            tx_queue: full.tx_queue,
            fetched: full.fetched,
            in_ring: full.in_ring,
            ..m
        }),
        starts(m.stream, m.fetched) ==> starts(full.stream, full.fetched),
{
    if m.connected && m.wants() {
        let (got, left) = choose|got: Seq<IqSample>, left: nat|
            full == #[trigger] m.fetching(got, left) && got.len() >= m.in_ring;
        assert(full.fetched == m.fetched + got);
        assert(fetched_between(m, full) =~= got);
        assert(full.fetched.subrange(0, m.fetched.len() as int) =~= m.fetched);
    } else {
        assert(fetched_between(m, full) =~= Seq::empty());
        assert(full.tx_queue =~= m.tx_queue + fetched_between(m, full));
    }
}

/// A packet carries the samples that have waited longest, then those that came out of
/// the ring meanwhile, and no sample is lost or sent twice: what waited and what was
/// fetched is what the packet carries followed by what still waits.
pub proof fn lemma_packet_sends_once(m: P1Model, packet: Seq<u8>, after: P1Model)
    requires
        m.sends(packet, after),
    ensures
        m.fetched.is_prefix_of(after.fetched),
        after.stream == m.stream,
        after.cw_mode == m.cw_mode,
        starts(m.stream, m.fetched) ==> starts(after.stream, after.fetched),
        exists|first: Seq<IqSample>, second: Seq<IqSample>| #[trigger]
            packet_carries(packet, first, second, m.cw_mode) && first + second + after.tx_queue
                == m.tx_queue + fetched_between(m, after),
{
    let (a, b) = choose|a: P1Model, b: P1Model|
        {
            &&& #[trigger] m.seq_advanced().refills_to(a)
            &&& #[trigger] a.after_host_frame().refills_to(b)
            &&& packet == data_header(0x02, m.tx_seq) + a.host_frame() + b.host_frame()
            &&& after == b.after_host_frame()
        };
    let mid = a.after_host_frame();
    lemma_fetching_extends(m.seq_advanced(), a);
    lemma_fetching_extends(mid, b);
    lemma_frames_carry(data_header(0x02, m.tx_seq), a, b);
    lemma_samples_are_sent_once(a);
    lemma_samples_are_sent_once(b);
    lemma_fetches_join(m.fetched, a.fetched, b.fetched);
    lemma_queues_join(
        m.tx_queue,
        fetched_between(m, a),
        a.frame_tx(),
        mid.tx_queue,
        fetched_between(mid, b),
        b.frame_tx(),
        after.tx_queue,
    );
    assert(packet_carries(packet, a.frame_tx(), b.frame_tx(), m.cw_mode));
}

/// The samples of several packets, one after the other.
pub open spec fn all_carried(carried: Seq<(Seq<IqSample>, Seq<IqSample>)>) -> Seq<IqSample>
    decreases carried.len(),
{
    if carried.len() == 0 {
        Seq::empty()
    } else {
        all_carried(carried.drop_last()) + carried.last().0 + carried.last().1
    }
}

/// `carried[k]` is what packet `k` carries.
pub open spec fn packets_carry(
    packets: Seq<Seq<u8>>,
    carried: Seq<(Seq<IqSample>, Seq<IqSample>)>,
    cw: bool,
) -> bool {
    &&& carried.len() == packets.len()
    &&& forall|k: int|
        #![trigger carried[k]]
        0 <= k < packets.len() ==> packet_carries(packets[k], carried[k].0, carried[k].1, cw)
}

/// `carried` is what the packets carry between two states of the client: what waited
/// before and what came out of the ring meanwhile is what they carry followed by what
/// still waits.
pub open spec fn run_carries(
    m: P1Model,
    packets: Seq<Seq<u8>>,
    carried: Seq<(Seq<IqSample>, Seq<IqSample>)>,
    after: P1Model,
) -> bool {
    &&& packets_carry(packets, carried, m.cw_mode)
    &&& all_carried(carried) + after.tx_queue == m.tx_queue + fetched_between(m, after)
}

proof fn lemma_run_goes_on(
    m: P1Model,
    packets: Seq<Seq<u8>>,
    carried: Seq<(Seq<IqSample>, Seq<IqSample>)>,
    before: P1Model,
    packet: Seq<u8>,
    first: Seq<IqSample>,
    second: Seq<IqSample>,
    after: P1Model,
)
    requires
        run_carries(m, packets, carried, before),
        m.fetched.is_prefix_of(before.fetched),
        before.fetched.is_prefix_of(after.fetched),
        packet_carries(packet, first, second, m.cw_mode),
        first + second + after.tx_queue == before.tx_queue + fetched_between(before, after),
    ensures
        run_carries(m, packets.push(packet), carried.push((first, second)), after),
        m.fetched.is_prefix_of(after.fetched),
{
    let all = carried.push((first, second));
    assert(all.drop_last() =~= carried);
    lemma_fetches_join(m.fetched, before.fetched, after.fetched);
    lemma_queues_join(
        m.tx_queue,
        fetched_between(m, before),
        all_carried(carried),
        before.tx_queue,
        fetched_between(before, after),
        first + second,
        after.tx_queue,
    );
    assert(all_carried(all) =~= all_carried(carried) + (first + second));
    assert forall|k: int| #![trigger all[k]] 0 <= k <= packets.len() implies packet_carries(
        packets.push(packet)[k],
        all[k].0,
        all[k].1,
        m.cw_mode,
    ) by {
        if k < packets.len() {
            assert(all[k] == carried[k]);
        }
    }
}

proof fn lemma_shorter_run(states: Seq<P1Model>, packets: Seq<Seq<u8>>)
    requires
        packets_sent(states, packets),
    ensures
        states.len() == packets.len() + 1,
        starts(states[0].stream, states[0].fetched),
        packets.len() > 0 ==> packets_sent(states.drop_last(), packets.drop_last())
            && states[packets.len() - 1].sends(packets.last(), states.last()),
{
    reveal(packets_sent);
    if packets.len() > 0 {
        let init = states.drop_last();
        let sent = packets.drop_last();
        assert forall|k: int| #![trigger sent[k]] 0 <= k < sent.len() implies init[k].sends(
            sent[k],
            init[k + 1],
        ) by {
            assert(packets[k] == sent[k]);
        }
        assert(packets[packets.len() - 1] == packets.last());
    }
}

/// Over any run of packets the samples that are handed over at the other end of the
/// ring go out in their order, each once: what waited before and what came out of the
/// ring meanwhile is what the packets carry followed by what still waits, and what
/// came out of the ring so far are the first samples of its stream.
pub proof fn lemma_run_sends_each_sample_once(states: Seq<P1Model>, packets: Seq<Seq<u8>>)
    requires
        packets_sent(states, packets),
    ensures
        states[0].fetched.is_prefix_of(states.last().fetched),
        states.last().stream == states[0].stream,
        starts(states.last().stream, states.last().fetched),
        states.last().cw_mode == states[0].cw_mode,
        exists|carried: Seq<(Seq<IqSample>, Seq<IqSample>)>| #[trigger]
            run_carries(states[0], packets, carried, states.last()),
    decreases packets.len(),
{
    lemma_shorter_run(states, packets);
    let m = states[0];
    if packets.len() == 0 {
        let none = Seq::<(Seq<IqSample>, Seq<IqSample>)>::empty();
        assert(m.fetched.take(m.fetched.len() as int) =~= m.fetched);
        assert(fetched_between(m, m) =~= Seq::empty());
        assert(all_carried(none) + m.tx_queue =~= m.tx_queue + fetched_between(m, m));
        assert(run_carries(m, packets, none, states.last()));
    } else {
        let before = states[packets.len() - 1];
        let after = states.last();
        let packet = packets.last();
        let sent = packets.drop_last();
        lemma_run_sends_each_sample_once(states.drop_last(), sent);
        let carried = choose|carried: Seq<(Seq<IqSample>, Seq<IqSample>)>| #[trigger]
            run_carries(m, sent, carried, before);
        lemma_packet_sends_once(before, packet, after);
        let (first, second) = choose|first: Seq<IqSample>, second: Seq<IqSample>| #[trigger]
            packet_carries(packet, first, second, before.cw_mode) && first + second
                + after.tx_queue == before.tx_queue + fetched_between(before, after);
        lemma_run_goes_on(m, sent, carried, before, packet, first, second, after);
        assert(sent.push(packet) =~= packets);
    }
}

/// Voice is never padded with silence: when a packet is due while voice is
/// transmitted and it is decided to send it, the packet carries at least the samples
/// that it stands for. With one receiver, as when streaming was started, both frames
/// are full.
pub proof fn lemma_voice_is_not_padded(
    started: P1Model,
    pace: TxPace,
    m: P1Model,
    now_ns: u64,
    d: SendDecision,
    ready: P1Model,
    packet: Seq<u8>,
    after: P1Model,
)
    requires
        started.wf(),
        started.paced(pace),
        m.wf(),
        m.ptt,
        !m.cw_mode,
        m.decides_due(pace, now_ns, d, ready),
        d is Send,
        ready.sends(packet, after),
    ensures
        exists|first: Seq<IqSample>, second: Seq<IqSample>| #[trigger]
            packet_carries(packet, first, second, false) && first.len() + second.len()
                >= pace.samples_per_packet && (started.nddc == 1 ==> first.len()
                == TX_SAMPLES_PER_FRAME && second.len() == TX_SAMPLES_PER_FRAME),
{
    let (a, b) = choose|a: P1Model, b: P1Model|
        {
            &&& #[trigger] ready.seq_advanced().refills_to(a)
            &&& #[trigger] a.after_host_frame().refills_to(b)
            &&& packet == data_header(0x02, ready.tx_seq) + a.host_frame() + b.host_frame()
            &&& after == b.after_host_frame()
        };
    let mid = a.after_host_frame();
    lemma_fetching_extends(ready.seq_advanced(), a);
    lemma_fetching_extends(mid, b);
    lemma_frames_carry(data_header(0x02, ready.tx_seq), a, b);
    lemma_samples_are_sent_once(a);
    let rows = rows_per_frame(started.configured());
    lemma_rows_bounds(started.configured());
    assert(rows <= 63 && (started.nddc == 1 ==> rows == 63));
    assert(ready.tx_queue.len() + ready.in_ring >= pace.samples_per_packet);
    assert(!ready.connected ==> ready.in_ring == 0);
    assert(a.frame_tx().len() + mid.tx_queue.len() == a.tx_queue.len());
    assert(packet_carries(packet, a.frame_tx(), b.frame_tx(), false));
}

/// Nothing of the transmit queue goes out while the radio is not transmitting.
pub proof fn lemma_receiving_sends_no_samples(m: P1Model)
    requires
        !m.ptt,
    ensures
        m.frame_tx().len() == 0,
        m.after_host_frame().tx_queue == m.tx_queue,
{
    assert(m.tx_queue.skip(0) == m.tx_queue);
}

/// Every frame to the radio has 512 bytes.
pub proof fn lemma_host_frame_len(m: P1Model)
    ensures
        m.host_frame().len() == FRAME_LEN,
{
    lemma_host_blocks_len(m.frame_tx(), m.cw_mode);
}

} // verus!
