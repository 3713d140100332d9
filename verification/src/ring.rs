//! The fixed-capacity FIFO buffer that the DMA engine fills.

use vstd::prelude::*;

use crate::RING_CAPACITY;

verus! {

/// A fixed-capacity FIFO byte buffer standing for the DMA receive ring.
///
/// The hardware side appends incoming bytes at the tail (`fill`); the drain
/// path pops them from the head in arrival order (`pop`).  Before the buffer
/// is armed, a fixed lookahead region is reserved for the DMA engine's
/// descriptor mechanics, which shrinks the usable capacity.
pub struct RingBuffer {
    bytes: Vec<u8>,
    lookahead: usize,
}

impl View for RingBuffer {
    type V = Seq<u8>;

    /// The buffered bytes, head (next to pop) first.
    closed spec fn view(&self) -> Seq<u8> {
        self.bytes@
    }
}

impl RingBuffer {
    /// Number of leading slots currently reserved for the DMA engine.
    pub closed spec fn reserved(&self) -> nat {
        self.lookahead as nat
    }

    /// The buffered bytes and the reserved region together fit in the ring.
    pub open spec fn wf(&self) -> bool {
        self@.len() + self.reserved() <= RING_CAPACITY
    }

    /// An empty buffer with no reserved region.
    pub fn new() -> (r: RingBuffer)
        ensures
            r@ == Seq::<u8>::empty(),
            r.reserved() == 0,
            r.wf(),
    {
        RingBuffer { bytes: Vec::new(), lookahead: 0 }
    }

    /// Reserve `count` leading slots for the DMA engine before arming.
    /// Only an empty (fully drained) buffer may be reserved anew.
    pub fn reserve(&mut self, count: usize)
        requires
            old(self)@.len() == 0,
            count <= RING_CAPACITY,
        ensures
            final(self)@ == old(self)@,
            final(self).reserved() == count,
            final(self).wf(),
    {
        self.lookahead = count;
    }

    /// The hardware side of reception: store one incoming byte at the tail.
    /// The byte is accepted exactly when the usable region (capacity minus
    /// the reserved lookahead) has room.
    pub fn fill(&mut self, byte: u8) -> (accepted: bool)
        requires
            old(self).wf(),
        ensures
            final(self).wf(),
            final(self).reserved() == old(self).reserved(),
            accepted == (old(self)@.len() < RING_CAPACITY - old(self).reserved()),
            accepted ==> final(self)@ == old(self)@.push(byte),
            !accepted ==> final(self)@ == old(self)@,
    {
        if self.bytes.len() < RING_CAPACITY - self.lookahead {
            self.bytes.push(byte);
            true
        } else {
            false
        }
    }

    /// Pop the next byte in arrival order, or `None` on an empty buffer.
    pub fn pop(&mut self) -> (r: Option<u8>)
        requires
            old(self).wf(),
        ensures
            final(self).wf(),
            final(self).reserved() == old(self).reserved(),
            old(self)@.len() == 0 ==> r is None && final(self)@ == old(self)@,
            old(self)@.len() > 0 ==> r == Some(old(self)@[0]) && final(self)@ == old(self)@.skip(1),
    {
        if self.bytes.len() > 0 {
            let byte = self.bytes.remove(0);
            proof {
                assert(self.bytes@ =~= old(self).bytes@.skip(1));
            }
            Some(byte)
        } else {
            None
        }
    }

    /// Current fill length.
    pub fn len(&self) -> (r: usize)
        ensures
            r == self@.len(),
    {
        self.bytes.len()
    }
}

} // verus!
