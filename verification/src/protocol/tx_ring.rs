//! The ring through which another thread hands over transmit samples.
//!
//! How many samples the ring holds at a time depends on both threads. The contracts
//! speak of what the owner of an end can rely on: what has gone through this end, in
//! which order the samples pass, and that samples which the receiving end has once
//! seen stay in the ring until this end takes them out.

use crate::protocol::types::IqSample;
use vstd::prelude::*;

verus! {

/// Number of samples that the ring has room for.
pub const TX_RING_LEN: usize = 262_144;

/// The end of the ring at which samples are handed over: a `ringbuf::HeapProd`.
#[verifier::external_body]
pub struct TxSink {
    producer: ringbuf::HeapProd<IqSample>,
}

/// The end of the ring at which samples are taken out: a `ringbuf::HeapCons`.
#[verifier::external_body]
pub struct TxSource {
    consumer: ringbuf::HeapCons<IqSample>,
}

/// All samples that the ring has taken at this end, oldest first.
pub uninterp spec fn handed_over(sink: TxSink) -> Seq<IqSample>;

/// Number of samples that the ring of this end was made for.
pub uninterp spec fn ring_limit(sink: TxSink) -> nat;

/// All samples that have come out of the ring at this end, oldest first.
pub uninterp spec fn taken_out(source: TxSource) -> Seq<IqSample>;

/// Number of samples that this end has seen in the ring and not yet taken out.
pub uninterp spec fn known(source: TxSource) -> nat;

/// The samples that pass through the ring of this end over its lifetime, by their
/// place in the order in which they are handed over.
pub uninterp spec fn sink_stream(sink: TxSink) -> Map<int, IqSample>;

/// The samples that pass through the ring of this end over its lifetime, by their
/// place in the order in which they are handed over.
pub uninterp spec fn source_stream(source: TxSource) -> Map<int, IqSample>;

/// `samples` are the first ones of a stream.
#[verifier::opaque]
pub open spec fn starts(stream: Map<int, IqSample>, samples: Seq<IqSample>) -> bool {
    forall|k: int| 0 <= k < samples.len() ==> #[trigger] samples[k] == stream[k]
}

/// Both ends of an empty ring.
///
/// Calls `ringbuf::HeapRb::new`, which panics without room for any sample, and
/// splits the ring. Nothing has gone through its two ends yet, and the same samples
/// will pass both.
#[verifier::external_body]
fn split_ring(capacity: usize) -> (ends: (TxSink, TxSource))
    requires
        0 < capacity <= TX_RING_LEN,
    ensures
        handed_over(ends.0) == Seq::<IqSample>::empty(),
        ring_limit(ends.0) == capacity,
        taken_out(ends.1) == Seq::<IqSample>::empty(),
        known(ends.1) == 0,
        sink_stream(ends.0) == source_stream(ends.1),
{
    let ring = ringbuf::HeapRb::<IqSample>::new(capacity);
    let (producer, consumer) = ringbuf::traits::Split::split(ring);
    (TxSink { producer }, TxSource { consumer })
}

/// Both ends of an empty ring.
pub(crate) fn tx_ring() -> (ends: (TxSink, TxSource))
    ensures
        handed_over(ends.0) == Seq::<IqSample>::empty(),
        ring_limit(ends.0) == TX_RING_LEN,
        taken_out(ends.1) == Seq::<IqSample>::empty(),
        known(ends.1) == 0,
        sink_stream(ends.0) == source_stream(ends.1),
{
    split_ring(TX_RING_LEN)
}

impl TxSink {
    /// Calls `push_slice` of `ringbuf`'s producer, which appends as many of the
    /// first samples as there is room for and returns their number. It leaves
    /// samples out only when the ring is full, and a full ring has been handed at
    /// least what it was made for. How much room there is beyond that depends on
    /// what the other end has taken out. What has been handed over at this end, the
    /// only one that samples enter by, are the first samples of the ring's stream.
    #[verifier::external_body]
    fn push_slice(&mut self, samples: &[IqSample]) -> (n: usize)
        ensures
            n <= samples@.len(),
            handed_over(*final(self)) == handed_over(*old(self)) + samples@.take(n as int),
            ring_limit(*final(self)) == ring_limit(*old(self)),
            n < samples@.len() ==> handed_over(*final(self)).len() >= ring_limit(*final(self)),
            sink_stream(*final(self)) == sink_stream(*old(self)),
            starts(sink_stream(*final(self)), handed_over(*final(self))),
    {
        ringbuf::traits::Producer::push_slice(&mut self.producer, samples)
    }

    /// Hands samples over, in units of 1/32767, as far as the ring has room.
    /// Returns how many were taken: the first ones, and all of them as long as the
    /// ring has not been handed more than it has room for.
    pub fn push(&mut self, samples: &[IqSample]) -> (n: usize)
        ensures
            n <= samples@.len(),
            handed_over(*final(self)) == handed_over(*old(self)) + samples@.take(n as int),
            ring_limit(*final(self)) == ring_limit(*old(self)),
            n < samples@.len() ==> handed_over(*final(self)).len() >= ring_limit(*final(self)),
            sink_stream(*final(self)) == sink_stream(*old(self)),
            starts(sink_stream(*final(self)), handed_over(*final(self))),
            handed_over(*old(self)).len() + samples@.len() <= ring_limit(*old(self)) ==> n
                == samples@.len(),
    {
        self.push_slice(samples)
    }
}

impl TxSource {
    /// Calls `occupied_len` of `ringbuf`'s consumer: the number of samples in the
    /// ring at the time of the call. Only this end takes samples out, so none that it
    /// has seen before is gone. How many have come since depends on the other end.
    #[verifier::external_body]
    pub(crate) fn occupied_len(&mut self) -> (n: usize)
        ensures
            n >= known(*old(self)),
            known(*final(self)) == n,
            taken_out(*final(self)) == taken_out(*old(self)),
            source_stream(*final(self)) == source_stream(*old(self)),
    {
        ringbuf::traits::Observer::occupied_len(&self.consumer)
    }

    /// Calls `pop_slice` of `ringbuf`'s consumer, which moves the oldest samples
    /// out of the ring to the front of `out`, as far as there are any or there is
    /// room, and returns their number. Just those have newly come out at this end,
    /// and the rest of `out` stays as it is. It leaves room in `out` only when the
    /// ring is empty, so it takes at least what this end has seen before. Samples
    /// come out in the order in which they were handed over.
    #[verifier::external_body]
    pub(crate) fn pop_slice(&mut self, out: &mut Vec<IqSample>) -> (n: usize)
        ensures
            n <= old(out)@.len(),
            final(out)@.len() == old(out)@.len(),
            forall|k: int| n <= k < old(out)@.len() ==> final(out)@[k] == old(out)@[k],
            taken_out(*final(self)) == taken_out(*old(self)) + final(out)@.take(n as int),
            n < old(out)@.len() ==> n >= known(*old(self)),
            known(*final(self)) >= known(*old(self)) - n,
            source_stream(*final(self)) == source_stream(*old(self)),
            starts(source_stream(*final(self)), taken_out(*final(self))),
    {
        ringbuf::traits::Consumer::pop_slice(&mut self.consumer, out)
    }

    /// Takes all samples out that the ring holds: what comes out at this end is
    /// what is returned, and nothing stays behind that was seen before.
    pub(crate) fn take_all(&mut self) -> (samples: Vec<IqSample>)
        ensures
            samples@.len() >= known(*old(self)),
            taken_out(*final(self)) == taken_out(*old(self)) + samples@,
            source_stream(*final(self)) == source_stream(*old(self)),
            starts(source_stream(*final(self)), taken_out(*final(self))),
    {
        let waiting: usize = self.occupied_len();
        let mut samples: Vec<IqSample> = vec![IqSample { i: 0, q: 0 }; waiting];
        let n: usize = self.pop_slice(&mut samples);
        samples.truncate(n);
        samples
    }
}

/// The ring keeps the order and neither loses nor repeats a sample: what has come out
/// at one end and what has been handed over at the other agree as far as both go.
pub proof fn lemma_ring_keeps_order(sink: TxSink, source: TxSource, k: int)
    requires
        sink_stream(sink) == source_stream(source),
        starts(sink_stream(sink), handed_over(sink)),
        starts(source_stream(source), taken_out(source)),
        0 <= k < handed_over(sink).len(),
        k < taken_out(source).len(),
    ensures
        taken_out(source)[k] == handed_over(sink)[k],
{
    reveal(starts);
    assert(taken_out(source)[k] == source_stream(source)[k]);
    assert(handed_over(sink)[k] == sink_stream(sink)[k]);
}

/// Nothing is the start of any stream.
pub(crate) proof fn lemma_nothing_starts(stream: Map<int, IqSample>)
    ensures
        starts(stream, Seq::empty()),
{
    reveal(starts);
}

} // verus!
