//! How the transmit stream to the radio is paced.

use crate::double::{
    distance, double_times, lemma_product_is_close, lemma_rounding_error,
    lemma_samples_of_time_are_close, lemma_span_is_close, nearest_double_spec, seconds, FINE_ONE,
};
use crate::protocol::packets::rows_per_frame;
use crate::protocol::protocol1::{P1Model, Protocol1Client, SendDecision, TxPace};
use vstd::prelude::*;

verus! {

/// A packet stands for twice as many sample times as rows of the receivers, at most
/// eight of them, fit into a frame; its interval is the time that so many samples take,
/// to the nanosecond.
pub proof fn lemma_packets_keep_pace_with_samples(
    c: Protocol1Client,
    pace: TxPace,
    receivers: int,
    rows: int,
)
    requires
        c@.wf(),
        c@.sample_rate > 0,
        call_ensures(Protocol1Client::pace, (&c,), pace),
        receivers == if c@.nddc > 8 {
            8
        } else {
            c@.nddc as int
        },
        rows >= 0,
        rows * (6 * receivers + 2) <= 504 < (rows + 1) * (6 * receivers + 2),
    ensures
        pace.samples_per_packet == 2 * rows,
        distance(
            pace.wire_interval_ns * c@.sample_rate,
            pace.samples_per_packet * 1_000_000_000,
        ) <= c@.sample_rate,
{
    assert(rows == 504int / (6 * receivers + 2) && rows <= 63) by (nonlinear_arith)
        requires
            rows >= 0,
            receivers >= 1,
            rows * (6 * receivers + 2) <= 504 < (rows + 1) * (6 * receivers + 2),
    ;
    assert(rows == rows_per_frame(receivers));
    lemma_span_is_close(pace.samples_per_packet, c@.sample_rate, pace.wire_interval_ns);
}

/// Voice that lacks samples for a packet waits half a millisecond; else the packet is
/// sent, keyed transmission and reception always.
pub proof fn lemma_voice_waits_for_samples(
    c: &mut Protocol1Client,
    pace: TxPace,
    available: usize,
    now_ns: u64,
    d: SendDecision,
)
    requires
        call_ensures(Protocol1Client::on_send_due, (c, &pace, available, now_ns), d),
    ensures
        old(c)@.ptt && !old(c)@.cw_mode && available < pace.samples_per_packet ==> d == (
        SendDecision::Wait { delay_ns: 500_000 }) && final(c)@ == old(c)@,
        !old(c)@.ptt || old(c)@.cw_mode || available >= pace.samples_per_packet ==> d is Send
            && final(c)@.last_send_ns == Some(now_ns),
{
}

proof fn lemma_drain_is_close(fifo: int, spent: int, left: int, total: int)
    requires
        fifo >= 0,
        spent >= 0,
        total >= 0,
        0x2_0000_0000_0000 * distance(spent * 1_000_000_000, total) <= total,
        fifo <= spent ==> left == 0,
        fifo > spent ==> 0x20_0000_0000_0000 * distance(left, fifo - spent) <= fifo - spent,
    ensures
        ({
            let due = fifo * 1_000_000_000 - total;
            0x1_0000_0000_0000 * distance(
                left * 1_000_000_000,
                if due > 0 {
                    due
                } else {
                    0
                },
            ) <= fifo * 1_000_000_000 + total
        }),
{
}

/// Between two packets the radio plays its buffer at the sample rate: when the next one
/// goes out, the fill has shrunk by the time that has passed times the rate, to one
/// part in 2^48, and not below nothing.
pub proof fn lemma_buffer_drains_at_the_rate(
    c: &mut Protocol1Client,
    pace: TxPace,
    available: usize,
    now_ns: u64,
    d: SendDecision,
)
    requires
        call_ensures(Protocol1Client::on_send_due, (c, &pace, available, now_ns), d),
        old(c)@.wf(),
        d is Send,
    ensures
        old(c)@.last_send_ns is None ==> final(c)@.fifo == old(c)@.fifo,
        old(c)@.last_send_ns matches Some(last) ==> {
            let passed = if now_ns >= last {
                now_ns - last
            } else {
                0
            };
            let gone = passed * old(c)@.sample_rate * FINE_ONE;
            let due = old(c)@.fifo * 1_000_000_000 - gone;
            0x1_0000_0000_0000 * distance(
                final(c)@.fifo * 1_000_000_000,
                if due > 0 {
                    due
                } else {
                    0
                },
            ) <= old(c)@.fifo * 1_000_000_000 + gone
        },
        FINE_ONE == 0x4_0000_0000_0000_0000_0000,
{
    if let Some(last) = old(c)@.last_send_ns {
        let passed: int = if now_ns >= last {
            now_ns - last
        } else {
            0
        };
        let rate = old(c)@.sample_rate as nat;
        let fifo = old(c)@.fifo;
        let spent = double_times(seconds(passed as nat), rate) as int;
        lemma_samples_of_time_are_close(passed as nat, rate);
        let gone = passed * rate * FINE_ONE;
        assert(gone >= 0) by (nonlinear_arith)
            requires
                passed >= 0,
                gone == passed * rate * FINE_ONE,
        ;
        if fifo > spent {
            lemma_rounding_error((fifo - spent) as nat, 1);
            assert(final(c)@.fifo * 1 == final(c)@.fifo);
        }
        lemma_drain_is_close(fifo, spent, final(c)@.fifo, gone);
    }
}

proof fn lemma_cushion_is_close(m: P1Model, num: nat)
    requires
        1 <= num <= 1000,
    ensures
        0x4_0000_0000_0000 * distance(
            m.cushion(num, 1000) * 1000,
            num * m.sample_rate * FINE_ONE,
        ) <= num * m.sample_rate * FINE_ONE,
{
    let one = FINE_ONE as int;
    let r = m.sample_rate as int;
    let k = num as int;
    let v = nearest_double_spec(num * FINE_ONE as nat, 1000) as int;
    lemma_rounding_error(num * FINE_ONE as nat, 1000);
    lemma_product_is_close(v as nat, m.sample_rate as nat);
    let c = m.cushion(num, 1000);
    let e = distance(k * one, v * 1000);
    let f = distance(v * r, c);
    assert(2 * e <= 1000 || 0x20_0000_0000_0000 * e <= k * one);
    assert(0x20_0000_0000_0000 * f <= v * r);
    let total = k * r * one;
    assert(0x4_0000_0000_0000 * distance(c * 1000, total) <= total) by (nonlinear_arith)
        requires
            one == 0x4_0000_0000_0000_0000_0000,
            1 <= k <= 1000,
            r >= 0,
            v >= 0,
            e == distance(k * one, v * 1000),
            f == distance(v * r, c),
            2 * e <= 1000 || 0x20_0000_0000_0000 * e <= k * one,
            0x20_0000_0000_0000 * f <= v * r,
            total == k * r * one,
    {
        assert(0x20_0000_0000_0000 * 500 <= one);
        assert(0x20_0000_0000_0000 * e <= k * one);
        assert(-e <= v * 1000 - k * one <= e);
        assert((v * 1000 - k * one) * r <= e * r);
        assert((v * 1000 - k * one) * r >= -(e * r));
        assert((v * 1000 - k * one) * r == v * r * 1000 - total);
        assert(0x20_0000_0000_0000 * (e * r) <= total);
        assert(0x20_0000_0000_0000 * (f * 1000) <= v * r * 1000);
        assert(v * r * 1000 <= total + e * r);
        assert(total >= 0);
        assert(e * r >= 0);
        assert(distance(c * 1000, total) <= f * 1000 + e * r);
    }
}

/// The buffer holds more than the samples of `ms` milliseconds, beyond what rounding
/// may change.
pub open spec fn lasts_beyond(fifo: int, rate: int, ms: int) -> bool {
    0x4_0000_0000_0000 * (fifo * 1000 - ms * rate * FINE_ONE) > ms * rate * FINE_ONE
}

/// The buffer holds less than that.
pub open spec fn lasts_less(fifo: int, rate: int, ms: int) -> bool {
    0x4_0000_0000_0000 * (ms * rate * FINE_ONE - fifo * 1000) > ms * rate * FINE_ONE
}

/// The delay to the next packet while voice is transmitted: 2 ms when the radio's
/// buffer lasts for more than 30 ms, half a millisecond when it lasts for more than
/// 6 ms, else none. Otherwise packets go out at the interval that they stand for.
pub proof fn lemma_delay_follows_the_buffer(c: &mut Protocol1Client, pace: TxPace, delay_ns: u64)
    requires
        call_ensures(Protocol1Client::data_packet_sent, (c, &pace), delay_ns),
        old(c)@.wf(),
    ensures
        ({
            let voice = old(c)@.ptt && !old(c)@.cw_mode;
            let fifo = final(c)@.fifo;
            let rate = old(c)@.sample_rate as int;
            &&& !voice ==> delay_ns == pace.wire_interval_ns
            &&& voice && lasts_beyond(fifo, rate, 30) ==> delay_ns == 2_000_000
            &&& voice && lasts_less(fifo, rate, 30) && lasts_beyond(fifo, rate, 6) ==> delay_ns
                == 500_000
            &&& voice && lasts_less(fifo, rate, 30) && lasts_less(fifo, rate, 6) ==> delay_ns == 0
        }),
        FINE_ONE == 0x4_0000_0000_0000_0000_0000,
{
    lemma_cushion_is_close(old(c)@, 30);
    lemma_cushion_is_close(old(c)@, 6);
}

/// A packet fills the radio's buffer by the samples that it stands for, to one part in
/// 2^53, up to 2^42 samples.
pub proof fn lemma_packet_fills_the_buffer(c: &mut Protocol1Client, pace: TxPace, delay_ns: u64)
    requires
        call_ensures(Protocol1Client::data_packet_sent, (c, &pace), delay_ns),
        old(c)@.wf(),
    ensures
        ({
            let sum = old(c)@.fifo + pace.samples_per_packet * FINE_ONE;
            let limit = 0x400_0000_0000 * FINE_ONE;
            &&& final(c)@.fifo <= limit
            &&& final(c)@.fifo < limit ==> 0x20_0000_0000_0000 * distance(final(c)@.fifo, sum)
                <= sum
            &&& final(c)@.fifo == limit ==> 2 * sum >= limit
        }),
{
    let sum = old(c)@.fifo + pace.samples_per_packet * FINE_ONE;
    lemma_rounding_error(sum as nat, 1);
    let n = nearest_double_spec(sum as nat, 1) as int;
    assert(n * 1 == n);
}

} // verus!
