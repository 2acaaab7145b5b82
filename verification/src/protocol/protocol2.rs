//! The host side of Protocol 2: one kind of packet for each port of the radio.

use crate::protocol::discovery::{hw_of_code, with_port};
use crate::protocol::types::{
    iq24_at, iq24_bytes, pack_iq_24bit_into_negate_q, unpack_iq_24bit, DiscoveredDevice, HpsdrHw,
    IqSample, RadioStatus, SocketAddress,
};
use crate::protocol::wire::{
    be16_bytes, be16_value, be32_bytes, pad_to, push_all, push_be16, push_be32, read_be16, zeros,
};
use vstd::prelude::*;

verus! {

/// Port for the general configuration and for discovery.
pub const PORT_GENERAL: u16 = 1024;

/// Port for the receiver configuration.
pub const PORT_RX_SPECIFIC: u16 = 1025;

/// Port for what must take effect at once.
pub const PORT_HIGH_PRIORITY: u16 = 1027;

/// Port for transmit samples.
pub const PORT_TX_IQ: u16 = 1029;

/// Most samples in a packet from a receiver.
pub const SAMPLES_PER_DDC_PACKET: usize = 238;

/// Most samples in a transmit packet.
pub const SAMPLES_PER_TX_PACKET: usize = 240;

/// Length of the longer packets.
pub const LONG_PACKET: usize = 1444;

/// Length of the shorter packets.
pub const SHORT_PACKET: usize = 60;

/// A command to the client.
#[derive(Debug, Clone, Copy, PartialEq, Eq, Structural)]
pub enum P2Command {
    SetRxFrequency(usize, u32),
    SetTxFrequency(u32),
    SetSampleRate(u32),
    SetTxDrive(u8),
    SetPtt(bool),
    Stop,
}

/// A packet and the port of the radio that it goes to.
pub struct P2Packet {
    pub port: u16,
    pub bytes: Vec<u8>,
}

/// Local ports that the radio is told.
pub struct P2Ports {
    pub rx_specific: u16,
    pub tx_specific: u16,
    pub hp_from_pc: u16,
    pub hp_to_pc: u16,
    pub tx_iq: u16,
    /// One port for each receiver.
    pub ddc: Vec<u16>,
}

/// The client's state as mathematical values.
#[verifier::ext_equal]
pub struct P2Model {
    pub running: bool,
    pub sample_rate: u32,
    pub nddc: u8,
    pub rx_frequencies: Seq<u32>,
    pub tx_frequency: u32,
    pub tx_drive: u8,
    pub ptt: bool,
    pub hp_seq: u32,
    pub general_seq: u32,
    pub rx_specific_seq: u32,
    pub tx_iq_seq: u32,
}

/// The number behind a packet number.
pub open spec fn next_seq(n: u32) -> u32 {
    ((n + 1) % 0x1_0000_0000) as u32
}

/// Numbers in network byte order one after the other.
pub open spec fn be32_all(values: Seq<u32>) -> Seq<u8>
    decreases values.len(),
{
    if values.len() == 0 {
        Seq::empty()
    } else {
        be32_all(values.drop_last()) + be32_bytes(values.last())
    }
}

/// Numbers in network byte order one after the other.
pub open spec fn be16_all(values: Seq<u16>) -> Seq<u8>
    decreases values.len(),
{
    if values.len() == 0 {
        Seq::empty()
    } else {
        be16_all(values.drop_last()) + be16_bytes(values.last())
    }
}

/// One bit for each of the first `n` of eight receivers.
pub open spec fn enabled_mask(n: u8) -> u8 {
    if n == 0 {
        0
    } else if n == 1 {
        1
    } else if n == 2 {
        3
    } else if n == 3 {
        7
    } else if n == 4 {
        15
    } else if n == 5 {
        31
    } else if n == 6 {
        63
    } else if n == 7 {
        127
    } else {
        255
    }
}

/// 24-bit samples one after the other, with Q negated.
pub open spec fn iq24_all(samples: Seq<IqSample>) -> Seq<u8>
    decreases samples.len(),
{
    if samples.len() == 0 {
        Seq::empty()
    } else {
        iq24_all(samples.drop_last()) + iq24_bytes(samples.last(), true)
    }
}

/// The first receiver ports, as many as fit the general configuration.
pub open spec fn fitting_ports(ports: Seq<u16>) -> Seq<u16> {
    if ports.len() <= 21 {
        ports
    } else {
        ports.take(21)
    }
}

impl P2Model {
    /// Invariant of the client.
    pub open spec fn wf(self) -> bool {
        self.rx_frequencies.len() == 12
    }

    /// The high-priority packet: run and transmit requests, frequencies, drive.
    pub open spec fn high_priority(self) -> Seq<u8> {
        let flags = (if self.running {
            1int
        } else {
            0
        }) + (if self.ptt {
            2int
        } else {
            0
        });
        be32_bytes(self.hp_seq) + seq![flags as u8] + zeros(4) + be32_all(self.rx_frequencies)
            + zeros(272) + be32_bytes(self.tx_frequency) + zeros(12) + seq![self.tx_drive] + zeros(
            1098,
        )
    }

    /// The general configuration: the local ports.
    pub open spec fn general_config(self, p: P2Ports) -> Seq<u8> {
        let ddc = be16_all(fitting_ports(p.ddc@));
        be32_bytes(self.general_seq) + seq![0u8] + be16_bytes(p.rx_specific) + be16_bytes(
            p.tx_specific,
        ) + be16_bytes(p.hp_from_pc) + be16_bytes(p.hp_to_pc) + zeros(2) + be16_bytes(p.tx_iq) + ddc
            + zeros((SHORT_PACKET - 17 - ddc.len()) as nat)
    }

    /// A byte of the receiver configuration behind its number: the receivers
    /// that are on, and the rate in kHz of each.
    pub open spec fn rx_config_byte(self, k: int) -> u8 {
        let khz = (self.sample_rate as int / 1000 % 0x1_0000) as u16;
        if k == 7 {
            enabled_mask(self.nddc)
        } else if k >= 18 && (k - 18) / 6 < self.nddc && (k - 18) % 6 == 0 {
            (khz / 256) as u8
        } else if k >= 18 && (k - 18) / 6 < self.nddc && (k - 18) % 6 == 1 {
            (khz % 256) as u8
        } else {
            0
        }
    }

    /// The receiver configuration.
    pub open spec fn rx_config(self) -> Seq<u8> {
        be32_bytes(self.rx_specific_seq) + Seq::new(
            (LONG_PACKET - 4) as nat,
            |k: int| self.rx_config_byte(k + 4),
        )
    }

    /// A packet of transmit samples.
    pub open spec fn tx_packet(self, samples: Seq<IqSample>) -> Seq<u8> {
        let body = iq24_all(
            if samples.len() <= SAMPLES_PER_TX_PACKET {
                samples
            } else {
                samples.take(SAMPLES_PER_TX_PACKET as int)
            },
        );
        be32_bytes(self.tx_iq_seq) + body + zeros((LONG_PACKET - 4 - body.len()) as nat)
    }

    /// The client with what a command sets.
    pub open spec fn commanded(self, cmd: P2Command) -> P2Model {
        match cmd {
            P2Command::SetRxFrequency(ddc, hz) => if ddc < 12 {
                P2Model { rx_frequencies: self.rx_frequencies.update(ddc as int, hz), ..self }
            } else {
                self
            },
            P2Command::SetTxFrequency(hz) => P2Model { tx_frequency: hz, ..self },
            P2Command::SetSampleRate(rate) => P2Model { sample_rate: rate, ..self },
            P2Command::SetTxDrive(drive) => P2Model { tx_drive: drive, ..self },
            P2Command::SetPtt(on) => P2Model { ptt: on, ..self },
            P2Command::Stop => P2Model { running: false, ..self },
        }
    }
}

/// The host side of a connection.
pub struct Protocol2Client {
    running: bool,
    sample_rate: u32,
    nddc: u8,
    rx_frequencies: [u32; 12],
    tx_frequency: u32,
    tx_drive: u8,
    ptt: bool,
    hp_seq: u32,
    general_seq: u32,
    rx_specific_seq: u32,
    tx_iq_seq: u32,
}

impl View for Protocol2Client {
    type V = P2Model;

    closed spec fn view(&self) -> P2Model {
        P2Model {
            running: self.running,
            sample_rate: self.sample_rate,
            nddc: self.nddc,
            rx_frequencies: self.rx_frequencies@,
            tx_frequency: self.tx_frequency,
            tx_drive: self.tx_drive,
            ptt: self.ptt,
            hp_seq: self.hp_seq,
            general_seq: self.general_seq,
            rx_specific_seq: self.rx_specific_seq,
            tx_iq_seq: self.tx_iq_seq,
        }
    }
}

fn mask_of(n: u8) -> (m: u8)
    ensures
        m == enabled_mask(n),
{
    match n {
        0 => 0,
        1 => 1,
        2 => 3,
        3 => 7,
        4 => 15,
        5 => 31,
        6 => 63,
        7 => 127,
        _ => 255,
    }
}

proof fn lemma_be32_all_len(values: Seq<u32>)
    ensures
        be32_all(values).len() == 4 * values.len(),
    decreases values.len(),
{
    if values.len() > 0 {
        lemma_be32_all_len(values.drop_last());
    }
}

proof fn lemma_be16_all_len(values: Seq<u16>)
    ensures
        be16_all(values).len() == 2 * values.len(),
    decreases values.len(),
{
    if values.len() > 0 {
        lemma_be16_all_len(values.drop_last());
    }
}

proof fn lemma_iq24_all_len(samples: Seq<IqSample>)
    ensures
        iq24_all(samples).len() == 6 * samples.len(),
    decreases samples.len(),
{
    if samples.len() > 0 {
        lemma_iq24_all_len(samples.drop_last());
    }
}

impl Protocol2Client {
    /// A client with `nddc` receivers, with nothing set up yet.
    pub fn new(nddc: u8) -> (c: Self)
        ensures
            c@ == (P2Model {
                running: false,
                sample_rate: 192_000,
                nddc,
                rx_frequencies: Seq::new(12, |k: int| 7_074_000u32),
                tx_frequency: 7_074_000,
                tx_drive: 128,
                ptt: false,
                hp_seq: 0,
                general_seq: 0,
                rx_specific_seq: 0,
                tx_iq_seq: 0,
            }),
            c@.wf(),
    {
        let c: Protocol2Client = Protocol2Client {
            running: false,
            sample_rate: 192_000,
            nddc,
            rx_frequencies: [7_074_000; 12],
            tx_frequency: 7_074_000,
            tx_drive: 128,
            ptt: false,
            hp_seq: 0,
            general_seq: 0,
            rx_specific_seq: 0,
            tx_iq_seq: 0,
        };
        assert(c.rx_frequencies@ =~= Seq::new(12, |k: int| 7_074_000u32));
        c
    }

    /// Whether the radio is streaming.
    pub fn is_running(&self) -> (r: bool)
        ensures
            r == self@.running,
    {
        self.running
    }

    /// Sets a receive frequency; a receiver that does not exist is ignored.
    pub fn set_rx_frequency(&mut self, ddc: usize, freq_hz: u32)
        ensures
            final(self)@ == old(self)@.commanded(P2Command::SetRxFrequency(ddc, freq_hz)),
            old(self)@.wf() ==> final(self)@.wf(),
    {
        if ddc < 12 {
            self.rx_frequencies[ddc] = freq_hz;
        }
    }

    /// Sets the transmit frequency.
    pub fn set_tx_frequency(&mut self, freq_hz: u32)
        ensures
            final(self)@ == (P2Model { tx_frequency: freq_hz, ..old(self)@ }),
    {
        self.tx_frequency = freq_hz;
    }

    /// Sets the sample rate.
    pub fn set_sample_rate(&mut self, rate: u32)
        ensures
            final(self)@ == (P2Model { sample_rate: rate, ..old(self)@ }),
    {
        self.sample_rate = rate;
    }

    /// Sets the transmit drive.
    pub fn set_tx_drive(&mut self, drive: u8)
        ensures
            final(self)@ == (P2Model { tx_drive: drive, ..old(self)@ }),
    {
        self.tx_drive = drive;
    }

    /// Requests transmission.
    pub fn set_ptt(&mut self, on: bool)
        ensures
            final(self)@ == (P2Model { ptt: on, ..old(self)@ }),
    {
        self.ptt = on;
    }

    /// The next packet to start streaming, when `sent` of them have gone out: general
    /// configuration, receiver configuration, and the run request.
    pub fn start(&mut self, ports: &P2Ports, sent: usize) -> (packet: Option<P2Packet>)
        requires
            old(self)@.wf(),
        ensures
            sent == 0 ==> {
                &&& packet matches Some(p) && p.port == PORT_GENERAL && p.bytes@ == old(
                    self,
                )@.general_config(*ports)
                &&& final(self)@ == (P2Model {
                    general_seq: next_seq(old(self)@.general_seq),
                    ..old(self)@
                })
            },
            sent == 1 ==> {
                &&& packet matches Some(p) && p.port == PORT_RX_SPECIFIC && p.bytes@ == old(
                    self,
                )@.rx_config()
                &&& final(self)@ == (P2Model {
                    rx_specific_seq: next_seq(old(self)@.rx_specific_seq),
                    ..old(self)@
                })
            },
            sent == 2 ==> {
                &&& packet matches Some(p) && p.port == PORT_HIGH_PRIORITY && p.bytes@ == (P2Model {
                    running: true,
                    ..old(self)@
                }).high_priority()
                &&& final(self)@ == (P2Model {
                    running: true,
                    hp_seq: next_seq(old(self)@.hp_seq),
                    ..old(self)@
                })
            },
            sent > 2 ==> packet is None && final(self)@ == old(self)@,
    {
        if sent == 0 {
            Some(self.general_config(ports))
        } else if sent == 1 {
            Some(self.rx_config())
        } else if sent == 2 {
            self.running = true;
            Some(self.send_high_priority())
        } else {
            None
        }
    }

    /// The packet that stops streaming.
    pub fn stop(&mut self) -> (packet: P2Packet)
        requires
            old(self)@.wf(),
        ensures
            packet.port == PORT_HIGH_PRIORITY,
            packet.bytes@ == (P2Model { running: false, ..old(self)@ }).high_priority(),
            final(self)@ == (P2Model {
                running: false,
                hp_seq: next_seq(old(self)@.hp_seq),
                ..old(self)@
            }),
    {
        self.running = false;
        self.send_high_priority()
    }

    /// The next high-priority packet.
    pub fn send_high_priority(&mut self) -> (packet: P2Packet)
        requires
            old(self)@.wf(),
        ensures
            packet.port == PORT_HIGH_PRIORITY,
            packet.bytes@ == old(self)@.high_priority(),
            packet.bytes@.len() == LONG_PACKET,
            final(self)@ == (P2Model { hp_seq: next_seq(old(self)@.hp_seq), ..old(self)@ }),
    {
        let ghost m = self@;
        let mut p: Vec<u8> = Vec::with_capacity(LONG_PACKET);
        push_be32(&mut p, self.hp_seq);
        self.hp_seq = self.hp_seq.wrapping_add(1);
        let run: u8 = if self.running {
            1
        } else {
            0
        };
        let tx: u8 = if self.ptt {
            2
        } else {
            0
        };
        p.push(run + tx);
        pad_to(&mut p, 9);
        let ghost head = p@;
        let ghost freqs = self.rx_frequencies@;
        let mut k: usize = 0;
        while k < 12
            invariant
                k <= 12,
                freqs == self.rx_frequencies@,
                freqs.len() == 12,
                p@ == head + be32_all(freqs.take(k as int)),
            decreases 12 - k,
        {
            push_be32(&mut p, self.rx_frequencies[k]);
            k = k + 1;
            assert(freqs.take(k as int).drop_last() == freqs.take(k - 1));
            assert(p@ =~= head + be32_all(freqs.take(k as int)));
        }
        proof {
            assert(freqs.take(12) == freqs);
            lemma_be32_all_len(freqs);
        }
        pad_to(&mut p, 329);
        push_be32(&mut p, self.tx_frequency);
        pad_to(&mut p, 345);
        p.push(self.tx_drive);
        pad_to(&mut p, LONG_PACKET);
        assert(p@ =~= m.high_priority());
        P2Packet { port: PORT_HIGH_PRIORITY, bytes: p }
    }

    /// The next general configuration.
    pub fn general_config(&mut self, ports: &P2Ports) -> (packet: P2Packet)
        ensures
            packet.port == PORT_GENERAL,
            packet.bytes@ == old(self)@.general_config(*ports),
            packet.bytes@.len() == SHORT_PACKET,
            final(self)@ == (P2Model {
                general_seq: next_seq(old(self)@.general_seq),
                ..old(self)@
            }),
    {
        let ghost m = self@;
        let mut p: Vec<u8> = Vec::with_capacity(SHORT_PACKET);
        push_be32(&mut p, self.general_seq);
        self.general_seq = self.general_seq.wrapping_add(1);
        p.push(0);
        push_be16(&mut p, ports.rx_specific);
        push_be16(&mut p, ports.tx_specific);
        push_be16(&mut p, ports.hp_from_pc);
        push_be16(&mut p, ports.hp_to_pc);
        pad_to(&mut p, 15);
        push_be16(&mut p, ports.tx_iq);
        let ghost head = p@;
        let n: usize = if ports.ddc.len() <= 21 {
            ports.ddc.len()
        } else {
            21
        };
        let mut k: usize = 0;
        while k < n
            invariant
                k <= n,
                n <= ports.ddc@.len(),
                n <= 21,
                p@ == head + be16_all(ports.ddc@.take(k as int)),
            decreases n - k,
        {
            push_be16(&mut p, ports.ddc[k]);
            k = k + 1;
            assert(ports.ddc@.take(k as int).drop_last() == ports.ddc@.take(k - 1));
            assert(p@ =~= head + be16_all(ports.ddc@.take(k as int)));
        }
        proof {
            assert(ports.ddc@.take(n as int) =~= fitting_ports(ports.ddc@));
            lemma_be16_all_len(fitting_ports(ports.ddc@));
        }
        pad_to(&mut p, SHORT_PACKET);
        assert(p@ =~= m.general_config(*ports));
        P2Packet { port: PORT_GENERAL, bytes: p }
    }

    /// The next receiver configuration.
    pub fn rx_config(&mut self) -> (packet: P2Packet)
        ensures
            packet.port == PORT_RX_SPECIFIC,
            packet.bytes@ == old(self)@.rx_config(),
            packet.bytes@.len() == LONG_PACKET,
            final(self)@ == (P2Model {
                rx_specific_seq: next_seq(old(self)@.rx_specific_seq),
                ..old(self)@
            }),
    {
        let ghost m = self@;
        let mut p: Vec<u8> = Vec::with_capacity(LONG_PACKET);
        push_be32(&mut p, self.rx_specific_seq);
        self.rx_specific_seq = self.rx_specific_seq.wrapping_add(1);
        let mask: u8 = mask_of(self.nddc);
        let khz: u16 = (self.sample_rate / 1000 % 0x1_0000) as u16;
        let nddc: usize = self.nddc as usize;
        let mut k: usize = 4;
        while k < LONG_PACKET
            invariant
                4 <= k <= LONG_PACKET,
                mask == enabled_mask(m.nddc),
                khz == (m.sample_rate as int / 1000 % 0x1_0000) as u16,
                nddc == m.nddc,
                p@ == be32_bytes(m.rx_specific_seq) + Seq::new(
                    (k - 4) as nat,
                    |j: int| m.rx_config_byte(j + 4),
                ),
            decreases LONG_PACKET - k,
        {
            let b: u8 = if k == 7 {
                mask
            } else if k >= 18 && (k - 18) / 6 < nddc && (k - 18) % 6 == 0 {
                (khz / 256) as u8
            } else if k >= 18 && (k - 18) / 6 < nddc && (k - 18) % 6 == 1 {
                (khz % 256) as u8
            } else {
                0
            };
            assert(b == m.rx_config_byte(k as int));
            p.push(b);
            k = k + 1;
            assert(p@ =~= be32_bytes(m.rx_specific_seq) + Seq::new(
                (k - 4) as nat,
                |j: int| m.rx_config_byte(j + 4),
            ));
        }
        assert(p@ =~= m.rx_config());
        P2Packet { port: PORT_RX_SPECIFIC, bytes: p }
    }

    /// A packet of transmit samples, in units of 1/8388607; samples that do not
    /// fit are dropped.
    pub fn send_tx_iq(&mut self, samples: &[IqSample]) -> (packet: P2Packet)
        ensures
            packet.port == PORT_TX_IQ,
            packet.bytes@ == old(self)@.tx_packet(samples@),
            packet.bytes@.len() == LONG_PACKET,
            final(self)@ == (P2Model { tx_iq_seq: next_seq(old(self)@.tx_iq_seq), ..old(self)@ }),
    {
        let ghost m = self@;
        let mut p: Vec<u8> = Vec::with_capacity(LONG_PACKET);
        push_be32(&mut p, self.tx_iq_seq);
        self.tx_iq_seq = self.tx_iq_seq.wrapping_add(1);
        let ghost head = p@;
        let n: usize = if samples.len() <= SAMPLES_PER_TX_PACKET {
            samples.len()
        } else {
            SAMPLES_PER_TX_PACKET
        };
        let mut k: usize = 0;
        while k < n
            invariant
                k <= n,
                n <= samples@.len(),
                n <= 240,
                p@ == head + iq24_all(samples@.take(k as int)),
            decreases n - k,
        {
            let mut six: [u8; 6] = [0; 6];
            let ghost blank = six@;
            let _ = pack_iq_24bit_into_negate_q(&mut six, 0, samples[k]);
            assert(six@ =~= iq24_bytes(samples@[k as int], true));
            push_all(&mut p, &six);
            k = k + 1;
            assert(samples@.take(k as int).drop_last() == samples@.take(k - 1));
            assert(p@ =~= head + iq24_all(samples@.take(k as int)));
        }
        proof {
            assert(samples@.take(samples@.len() as int) == samples@);
            lemma_iq24_all_len(samples@.take(n as int));
        }
        pad_to(&mut p, LONG_PACKET);
        assert(p@ =~= m.tx_packet(samples@));
        P2Packet { port: PORT_TX_IQ, bytes: p }
    }

    /// Carries a command out. Returns the packet that tells the radio: the
    /// receiver configuration for a new rate, else a high-priority packet.
    pub fn handle_command(&mut self, cmd: P2Command) -> (packet: P2Packet)
        requires
            old(self)@.wf(),
        ensures
            cmd is SetSampleRate ==> packet.port == PORT_RX_SPECIFIC && packet.bytes@ == old(
                self,
            )@.commanded(cmd).rx_config() && final(self)@ == (P2Model {
                rx_specific_seq: next_seq(old(self)@.rx_specific_seq),
                ..old(self)@.commanded(cmd)
            }),
            !(cmd is SetSampleRate) ==> packet.port == PORT_HIGH_PRIORITY && packet.bytes@ == old(
                self,
            )@.commanded(cmd).high_priority() && final(self)@ == (P2Model {
                hp_seq: next_seq(old(self)@.hp_seq),
                ..old(self)@.commanded(cmd)
            }),
            final(self)@.wf(),
    {
        match cmd {
            P2Command::SetRxFrequency(ddc, hz) => {
                self.set_rx_frequency(ddc, hz);
                self.send_high_priority()
            },
            P2Command::SetTxFrequency(hz) => {
                self.set_tx_frequency(hz);
                self.send_high_priority()
            },
            P2Command::SetSampleRate(rate) => {
                self.set_sample_rate(rate);
                self.rx_config()
            },
            P2Command::SetTxDrive(drive) => {
                self.set_tx_drive(drive);
                self.send_high_priority()
            },
            P2Command::SetPtt(on) => {
                self.set_ptt(on);
                self.send_high_priority()
            },
            P2Command::Stop => self.stop(),
        }
    }
}

/// Reads a high-priority status packet.
pub fn parse_hp_status(data: &[u8]) -> (status: Option<RadioStatus>)
    ensures
        status is Some <==> data@.len() >= 24,
        status matches Some(s) ==> s == (RadioStatus {
            ptt: data@[4] % 2 == 1,
            adc_overflow: data@[5],
            exciter_power: be16_value(data@, 6) as u16,
            forward_power: be16_value(data@, 14) as u16,
            reverse_power: be16_value(data@, 22) as u16,
            supply_voltage: 0,
            pa_current: 0,
        }),
{
    if data.len() < 24 {
        return None;
    }
    Some(
        RadioStatus {
            ptt: data[4] % 2 == 1,
            adc_overflow: data[5],
            exciter_power: read_be16(data, 6),
            forward_power: read_be16(data, 14),
            reverse_power: read_be16(data, 22),
            supply_voltage: 0,
            pa_current: 0,
        },
    )
}

/// Number of samples in a packet from a receiver: as many as it states, as fit
/// it, and as are allowed.
pub open spec fn ddc_sample_count(data: Seq<u8>) -> int {
    let stated = be16_value(data, 14);
    let allowed = if stated < SAMPLES_PER_DDC_PACKET {
        stated
    } else {
        SAMPLES_PER_DDC_PACKET as int
    };
    let present = (data.len() - 16) / 6;
    if allowed < present {
        allowed
    } else {
        present
    }
}

/// Reads the samples of a packet from a receiver.
pub fn parse_ddc_iq_packet(data: &[u8]) -> (samples: Option<Vec<IqSample>>)
    ensures
        samples is Some <==> data@.len() >= 16,
        samples matches Some(s) ==> s@ == Seq::new(
            ddc_sample_count(data@) as nat,
            |k: int| iq24_at(data@, 16 + 6 * k),
        ),
{
    if data.len() < 16 {
        return None;
    }
    let stated: usize = read_be16(data, 14) as usize;
    let allowed: usize = if stated < SAMPLES_PER_DDC_PACKET {
        stated
    } else {
        SAMPLES_PER_DDC_PACKET
    };
    let present: usize = (data.len() - 16) / 6;
    let n: usize = if allowed < present {
        allowed
    } else {
        present
    };
    let mut samples: Vec<IqSample> = Vec::with_capacity(n);
    let mut k: usize = 0;
    while k < n
        invariant
            k <= n,
            n <= 238,
            16 + 6 * n <= data@.len() <= usize::MAX,
            samples@ == Seq::new(k as nat, |j: int| iq24_at(data@, 16 + 6 * j)),
        decreases n - k,
    {
        let s: IqSample = unpack_iq_24bit(data, 16 + 6 * k);
        samples.push(s);
        k = k + 1;
        assert(samples@ =~= Seq::new(k as nat, |j: int| iq24_at(data@, 16 + 6 * j)));
    }
    Some(samples)
}

/// Discovery request of Protocol 2.
pub fn build_p2_discovery_request() -> (req: Vec<u8>)
    ensures
        req@ == zeros(4) + seq![0x02u8] + zeros(55),
{
    let mut req: Vec<u8> = Vec::with_capacity(SHORT_PACKET);
    pad_to(&mut req, 4);
    req.push(0x02);
    pad_to(&mut req, SHORT_PACKET);
    assert(req@ =~= zeros(4) + seq![0x02u8] + zeros(55));
    req
}

/// A discovery response of a supported radio that speaks Protocol 2.
pub open spec fn is_p2_response(data: Seq<u8>) -> bool {
    &&& data.len() >= 21
    &&& data[0] == 0 && data[1] == 0 && data[2] == 0 && data[3] == 0
    &&& data[4] == 0x02 || data[4] == 0x03
    &&& hw_of_code(data[11]) is Some
}

/// Reads a discovery response that came from `addr`.
pub fn parse_p2_discovery_response(data: &[u8], addr: SocketAddress) -> (r: Option<
    DiscoveredDevice,
>)
    ensures
        r is Some <==> is_p2_response(data@),
        r matches Some(d) ==> d.addr == with_port(addr, PORT_GENERAL) && d.mac@ == data@.subrange(
            5,
            11,
        ) && Some(d.hw_type) == hw_of_code(data@[11]) && d.firmware_version == data@[13]
            && d.num_rxs == data@[20] && d.status == data@[4],
{
    if data.len() < 21 || data[0] != 0 || data[1] != 0 || data[2] != 0 || data[3] != 0 {
        return None;
    }
    let status: u8 = data[4];
    if status != 0x02 && status != 0x03 {
        return None;
    }
    let hw_type: HpsdrHw = match HpsdrHw::from_p1_code(data[11]) {
        Some(hw) => hw,
        None => {
            return None;
        },
    };
    let mac: [u8; 6] = [data[5], data[6], data[7], data[8], data[9], data[10]];
    assert(mac@ =~= data@.subrange(5, 11));
    Some(
        DiscoveredDevice {
            addr: crate::protocol::discovery::set_port(addr, PORT_GENERAL),
            mac,
            hw_type,
            firmware_version: data[13],
            num_rxs: data[20],
            status,
        },
    )
}

} // verus!
