//! The single-producer / single-consumer sample channel, over ringbuf's
//! split ring buffer.
//!
//! The two halves run on different threads, so neither one sees the other's
//! moves: the consumer side may find more samples than it last saw (the
//! producer only appends), and the producer side may find fewer (the consumer
//! only removes from the front).
use ringbuf::{Consumer, Producer};
use vstd::prelude::*;

verus! {

#[verifier::external_type_specification]
#[verifier::external_body]
#[verifier::reject_recursive_types(T)]
pub struct ExProducer<T>(Producer<T>);

#[verifier::external_type_specification]
#[verifier::external_body]
#[verifier::reject_recursive_types(T)]
pub struct ExConsumer<T>(Consumer<T>);

/// The samples in the buffer, oldest first, as the consumer half last found them.
pub uninterp spec fn held(c: Consumer<u32>) -> Seq<u32>;

/// The capacity the buffer was made with, seen from the consumer half.
pub uninterp spec fn consumer_capacity(c: Consumer<u32>) -> nat;

/// The samples in the buffer, oldest first, as the producer half last found them.
pub uninterp spec fn outgoing(p: Producer<u32>) -> Seq<u32>;

/// The capacity the buffer was made with, seen from the producer half.
pub uninterp spec fn producer_capacity(p: Producer<u32>) -> nat;

/// The number of samples the channel holds.
pub const CHANNEL_CAPACITY: usize = 2048;

/// `a` is `b` with some items appended.
pub open spec fn grows_to(a: Seq<u32>, b: Seq<u32>) -> bool {
    a.len() <= b.len() && b.subrange(0, a.len() as int) == a
}

/// `b` is `a` with some items taken from its front.
pub open spec fn shrinks_to(a: Seq<u32>, b: Seq<u32>) -> bool {
    b.len() <= a.len() && a.subrange(a.len() - b.len(), a.len() as int) == b
}

proof fn lemma_shrinks_trans(a: Seq<u32>, b: Seq<u32>, c: Seq<u32>)
    requires
        shrinks_to(a, b),
        shrinks_to(b, c),
    ensures
        shrinks_to(a, c),
{
    assert(a.subrange(a.len() - c.len(), a.len() as int) =~= b.subrange(b.len() - c.len(), b.len() as int));
}

proof fn lemma_shrinks_push(a: Seq<u32>, b: Seq<u32>, x: u32)
    requires
        shrinks_to(a, b),
    ensures
        shrinks_to(a.push(x), b.push(x)),
{
    assert(a.push(x).subrange(a.len() - b.len(), a.len() + 1int) =~= b.push(x));
}

/// The items of `s` whose flag in `kept` is set, in order.
pub open spec fn kept_items(s: Seq<u32>, kept: Seq<bool>) -> Seq<u32>
    decreases s.len(),
{
    if s.len() == 0 || kept.len() == 0 {
        Seq::empty()
    } else {
        let init = kept_items(s.drop_last(), kept.drop_last());
        if kept.last() {
            init.push(s.last())
        } else {
            init
        }
    }
}

/// Relies on ringbuf's `RingBuffer::new` and `RingBuffer::split`: a buffer
/// of `capacity` slots, empty, parted into its two halves.
#[verifier::external_body]
fn split_ring(capacity: usize) -> (r: (Producer<u32>, Consumer<u32>))
    requires
        capacity < usize::MAX,
    ensures
        outgoing(r.0) == Seq::<u32>::empty(),
        producer_capacity(r.0) == capacity,
        held(r.1) == Seq::<u32>::empty(),
        consumer_capacity(r.1) == capacity,
{
    ringbuf::RingBuffer::<u32>::new(capacity).split()
}

/// Relies on ringbuf's `Producer::push`: the sample goes in behind the others
/// when a slot is free, and is handed back when the buffer is full.
#[verifier::external_body]
fn ring_push(p: &mut Producer<u32>, x: u32) -> (r: Result<(), u32>)
    ensures
        producer_capacity(*final(p)) == producer_capacity(*old(p)),
        outgoing(*final(p)).len() <= producer_capacity(*final(p)),
        match r {
            Ok(()) => exists|rest: Seq<u32>|
                shrinks_to(outgoing(*old(p)), rest) && outgoing(*final(p)) == rest.push(x),
            Err(y) => y == x && shrinks_to(outgoing(*old(p)), outgoing(*final(p)))
                && outgoing(*final(p)).len() == producer_capacity(*final(p)),
        },
{
    p.push(x)
}

/// Relies on ringbuf's `Consumer::len`: how many samples the buffer holds,
/// never more than its capacity.
#[verifier::external_body]
fn ring_len(c: &mut Consumer<u32>) -> (r: usize)
    ensures
        consumer_capacity(*final(c)) == consumer_capacity(*old(c)),
        grows_to(held(*old(c)), held(*final(c))),
        r == held(*final(c)).len(),
        r <= consumer_capacity(*final(c)),
{
    c.len()
}

/// Relies on ringbuf's `Consumer::as_slices`: the held samples, oldest first,
/// in two runs; the producer may have appended since they were last counted.
#[verifier::external_body]
fn ring_slices(c: &Consumer<u32>) -> (r: (&[u32], &[u32]))
    ensures
        grows_to(held(*c), r.0@ + r.1@),
{
    c.as_slices()
}

/// Relies on ringbuf's `Consumer::discard`: it drops up to `n` of the oldest
/// samples and returns how many it dropped.
#[verifier::external_body]
fn ring_discard(c: &mut Consumer<u32>, n: usize) -> (r: usize)
    requires
        n <= held(*old(c)).len(),
    ensures
        r == n,
        consumer_capacity(*final(c)) == consumer_capacity(*old(c)),
        held(*final(c)) == held(*old(c)).subrange(n as int, held(*old(c)).len() as int),
{
    c.discard(n)
}

/// The capture side of the channel: it only appends.
pub struct SampleProducer {
    pub ring: Producer<u32>,
}

/// The analysis side of the channel: it only reads and removes from the front.
pub struct SampleConsumer {
    pub ring: Consumer<u32>,
}

/// A new empty channel of `capacity` samples, parted into its two halves.
pub fn sample_channel(capacity: usize) -> (r: (SampleProducer, SampleConsumer))
    requires
        capacity < usize::MAX,
    ensures
        r.0.contents() == Seq::<u32>::empty(),
        r.0.capacity() == capacity,
        r.0.wf(),
        r.1.contents() == Seq::<u32>::empty(),
        r.1.capacity() == capacity,
{
    let (p, c) = split_ring(capacity);
    (SampleProducer { ring: p }, SampleConsumer { ring: c })
}

/// The samples taken from channel 0 of interleaved frames of `channels` samples.
pub open spec fn first_channel(frames: Seq<u32>, channels: nat) -> Seq<u32> {
    Seq::new(frames.len() / channels, |i: int| frames[i * channels])
}

impl SampleProducer {
    pub open spec fn contents(&self) -> Seq<u32> {
        outgoing(self.ring)
    }

    pub open spec fn capacity(&self) -> nat {
        producer_capacity(self.ring)
    }

    /// The buffer never holds more than its capacity.
    pub open spec fn wf(&self) -> bool {
        self.contents().len() <= self.capacity()
    }

    /// Offers one sample. When a slot is free it is stored behind the others
    /// and `true` is returned; when the buffer is full it is dropped, the
    /// buffered samples are left as they are, and `false` is returned.
    pub fn push(&mut self, sample: u32) -> (r: bool)
        ensures
            final(self).capacity() == old(self).capacity(),
            final(self).wf(),
            r ==> exists|rest: Seq<u32>|
                shrinks_to(old(self).contents(), rest) && final(self).contents() == rest.push(sample),
            !r ==> shrinks_to(old(self).contents(), final(self).contents())
                && final(self).contents().len() == final(self).capacity(),
    {
        match ring_push(&mut self.ring, sample) {
            Ok(()) => true,
            Err(_) => false,
        }
    }

    /// Offers channel 0 of each whole frame of `frames` (interleaved, with
    /// `channels` samples per frame), in order, dropping those that find the
    /// buffer full. Returns how many were stored.
    ///
    /// The stored samples are the offered ones with the dropped ones left out,
    /// in order, behind what the buffer held (less what the consumer took
    /// meanwhile). When the buffer has room for all of them, all are stored.
    pub fn capture(&mut self, frames: &[u32], channels: usize) -> (r: usize)
        requires
            channels >= 1,
            old(self).wf(),
        ensures
            final(self).capacity() == old(self).capacity(),
            final(self).wf(),
            exists|kept: Seq<bool>|
                #![trigger kept_items(first_channel(frames@, channels as nat), kept)]
                kept.len() == first_channel(frames@, channels as nat).len()
                && kept_items(first_channel(frames@, channels as nat), kept).len() == r
                && shrinks_to(
                    old(self).contents() + kept_items(first_channel(frames@, channels as nat), kept),
                    final(self).contents(),
                )
                && (kept.len() > 0 && !kept.last() ==> final(self).contents().len() == final(self).capacity()),
            old(self).contents().len() + first_channel(frames@, channels as nat).len() <= old(self).capacity()
                ==> r == first_channel(frames@, channels as nat).len(),
            r == first_channel(frames@, channels as nat).len()
                ==> shrinks_to(old(self).contents() + first_channel(frames@, channels as nat), final(self).contents()),
    {
        let ghost fc = first_channel(frames@, channels as nat);
        let ghost start = self.contents();
        let ghost mut kept: Seq<bool> = Seq::empty();
        let mut pos: usize = 0;
        let mut taken: usize = 0;
        let mut stored: usize = 0;
        assert(kept_items(fc.subrange(0, 0), kept) == Seq::<u32>::empty());
        assert(start + Seq::<u32>::empty() =~= start);
        assert(start.subrange(0, start.len() as int) =~= start);
        while frames.len() - pos >= channels
            invariant
                channels >= 1,
                fc == first_channel(frames@, channels as nat),
                start == old(self).contents(),
                start.len() <= old(self).capacity(),
                pos <= frames.len(),
                pos == taken * channels,
                taken <= pos,
                taken <= fc.len(),
                kept.len() == taken,
                stored <= taken,
                self.capacity() == old(self).capacity(),
                self.wf(),
                kept_items(fc.subrange(0, taken as int), kept).len() == stored,
                shrinks_to(start + kept_items(fc.subrange(0, taken as int), kept), self.contents()),
                taken > 0 && !kept.last() ==> self.contents().len() == self.capacity(),
                stored == taken ==> kept_items(fc.subrange(0, taken as int), kept) == fc.subrange(0, taken as int),
                start.len() + fc.len() <= old(self).capacity() ==> stored == taken,
            decreases frames.len() - pos,
        {
            assert(taken < fc.len()) by (nonlinear_arith)
                requires
                    pos == taken * channels,
                    pos + channels <= frames@.len(),
                    channels >= 1,
                    fc.len() == frames@.len() / (channels as nat),
            {
                assert((taken + 1) * channels <= frames@.len());
            }
            let sample = frames[pos];
            assert(sample == fc[taken as int]);
            let ghost before = self.contents();
            let ghost prev = kept_items(fc.subrange(0, taken as int), kept);
            let ghost next = fc.subrange(0, taken + 1);
            assert(next.drop_last() =~= fc.subrange(0, taken as int));
            assert(next.last() == sample);
            let ok = self.push(sample);
            proof {
                let k2 = kept.push(ok);
                assert(k2.drop_last() =~= kept);
                assert(kept_items(next, k2) == if ok { prev.push(sample) } else { prev });
                if ok {
                    let rest = choose|rest: Seq<u32>|
                        shrinks_to(before, rest) && self.contents() == rest.push(sample);
                    lemma_shrinks_trans(start + prev, before, rest);
                    lemma_shrinks_push(start + prev, rest, sample);
                    assert((start + prev).push(sample) =~= start + prev.push(sample));
                    if stored == taken {
                        assert(prev.push(sample) =~= next);
                    }
                } else {
                    lemma_shrinks_trans(start + prev, before, self.contents());
                    assert(before.len() >= self.capacity());
                    assert(before.len() <= start.len() + stored);
                }
                kept = k2;
            }
            if ok {
                stored = stored + 1;
            }
            pos = pos + channels;
            taken = taken + 1;
            assert(pos == taken * channels) by (nonlinear_arith)
                requires
                    pos == (taken - 1) * channels + channels,
            ;
        }
        proof {
            let len = frames@.len() as int;
            let ch = channels as int;
            vstd::arithmetic::div_mod::lemma_fundamental_div_mod(len, ch);
            let q = len / ch;
            assert(taken == q) by (nonlinear_arith)
                requires
                    len == ch * q + len % ch,
                    0 <= len % ch < ch,
                    taken * ch <= len,
                    len < taken * ch + ch,
                    ch >= 1,
            ;
            assert(fc.subrange(0, taken as int) =~= fc);
        }
        stored
    }
}

impl SampleConsumer {
    pub open spec fn contents(&self) -> Seq<u32> {
        held(self.ring)
    }

    pub open spec fn capacity(&self) -> nat {
        consumer_capacity(self.ring)
    }

    /// How many samples are ready to read: what was there before, and perhaps
    /// more that the producer appended meanwhile; never more than the capacity.
    pub fn available_len(&mut self) -> (r: usize)
        ensures
            final(self).capacity() == old(self).capacity(),
            grows_to(old(self).contents(), final(self).contents()),
            r == final(self).contents().len(),
            r <= final(self).capacity(),
    {
        ring_len(&mut self.ring)
    }

    /// Copies the `n` oldest samples into `out`, replacing what it held and
    /// leaving the samples in the buffer. `out` allocates nothing when its
    /// capacity is already `n` or more.
    pub fn peek_copy(&self, out: &mut Vec<u32>, n: usize)
        requires
            n <= self.contents().len(),
        ensures
            final(out)@ == self.contents().subrange(0, n as int),
    {
        let (front, back) = ring_slices(&self.ring);
        let ghost all = front@ + back@;
        out.clear();
        let mut i: usize = 0;
        while i < n
            invariant
                i <= n,
                n <= all.len(),
                all == front@ + back@,
                out@ == all.subrange(0, i as int),
            decreases n - i,
        {
            if i < front.len() {
                out.push(front[i]);
            } else {
                out.push(back[i - front.len()]);
            }
            assert(out@ =~= all.subrange(0, i + 1));
            i = i + 1;
        }
        assert(all.subrange(0, n as int) =~= self.contents().subrange(0, n as int));
    }

    /// Frees the `n` oldest samples.
    pub fn discard(&mut self, n: usize)
        requires
            n <= old(self).contents().len(),
        ensures
            final(self).capacity() == old(self).capacity(),
            final(self).contents() == old(self).contents().subrange(n as int, old(self).contents().len() as int),
    {
        ring_discard(&mut self.ring, n);
    }
}

} // verus!
