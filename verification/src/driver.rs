//! The receive driver: the handoff protocol and the application read window.
//!
//! `DmaUart` holds the one receive ring buffer together with the station
//! that currently owns it, the ready flag, and the application read window.
//! Both execution contexts of the protocol appear as methods: the hardware
//! side (`deliver`, `complete_interrupt`) and the cooperative application
//! side (`poll`, `get_buffer`, `consume`, `clear`).  Every method's contract
//! says that it refines exactly one step of the abstract model in
//! `crate::model`, so the model's interleaving invariants carry over to the
//! driver.

use vstd::prelude::*;

use crate::model::{
    clamped, init, inv, lemma_step_inv, opt_bytes, step, Event, ModelState,
};
use crate::ring::RingBuffer;
use crate::{RING_CAPACITY, RING_RESERVED, WINDOW_CAPACITY};

verus! {

/// Which protocol station currently owns the receive buffer.
pub enum BufferHome {
    /// Armed in hardware: the DMA engine is filling it.
    Armed,
    /// Parked in the shared slot, awaiting collection by `poll`.
    InSlot,
    /// Inside the drain path of `poll`; between calls this is only ever
    /// observable after a Fatal Halt cut the drain short.
    Draining,
}

/// The receive driver.
pub struct DmaUart {
    /// The single receive ring buffer, moved between the protocol stations.
    ring: RingBuffer,
    /// The station that owns `ring` right now.
    home: BufferHome,
    /// The ready flag: a completed buffer awaits collection.
    ready: bool,
    /// The hardware will refuse the next start-receive command.
    arm_refused: bool,
    /// Fatal Halt was reached; the driver is frozen.
    halted: bool,
    /// The application read window: valid, unconsumed bytes, oldest first.
    window: Vec<u8>,
    /// History: bytes the application already consumed, oldest first.
    taken: Ghost<Seq<u8>>,
    /// History: every byte the hardware ever delivered, oldest first.
    delivered: Ghost<Seq<u8>>,
}

impl DmaUart {
    /// The abstract protocol state this driver refines.
    pub closed spec fn abs(&self) -> ModelState {
        ModelState {
            armed: if self.home is Armed {
                Some(self.ring@)
            } else {
                None
            },
            slot: if self.home is InSlot {
                Some(self.ring@)
            } else {
                None
            },
            ready: self.ready,
            halted: self.halted,
            arm_refused: self.arm_refused,
            window: self.window@,
            taken: self.taken@,
            delivered: self.delivered@,
        }
    }

    /// Well-formedness: the abstract state satisfies the protocol invariant
    /// and the ring keeps its reserved lookahead region.
    pub closed spec fn wf(&self) -> bool {
        &&& inv(self.abs())
        &&& self.ring.wf()
        &&& self.ring.reserved() == RING_RESERVED
    }

    /// One-time construction: create the ring buffer, reserve the DMA
    /// lookahead region, and arm the receive channel with it.
    pub fn new() -> (d: DmaUart)
        ensures
            d.wf(),
            init(d.abs()),
    {
        let mut ring = RingBuffer::new();
        ring.reserve(RING_RESERVED);
        let d = DmaUart {
            ring,
            home: BufferHome::Armed,
            ready: false,
            arm_refused: false,
            halted: false,
            window: Vec::new(),
            taken: Ghost(Seq::empty()),
            delivered: Ghost(Seq::empty()),
        };
        proof {
            assert(d.abs().delivered =~= d.abs().taken + d.abs().window + opt_bytes(d.abs().slot)
                + opt_bytes(d.abs().armed));
        }
        d
    }

    /// The hardware side of reception: the DMA engine stores one incoming
    /// byte into the armed buffer.  The byte is accepted exactly when a
    /// receive is in flight and the buffer's usable region has room.
    pub fn deliver(&mut self, byte: u8) -> (accepted: bool)
        requires
            old(self).wf(),
        ensures
            final(self).wf(),
            final(self).abs() == step(old(self).abs(), Event::Deliver(byte)),
            accepted == (!old(self).abs().halted && old(self).abs().armed is Some
                && opt_bytes(old(self).abs().armed).len() < RING_CAPACITY - RING_RESERVED),
    {
        proof {
            lemma_step_inv(old(self).abs(), Event::Deliver(byte));
        }
        if self.halted {
            return false;
        }
        match self.home {
            BufferHome::Armed => {
                let accepted = self.ring.fill(byte);
                if accepted {
                    self.delivered = Ghost(self.delivered@.push(byte));
                }
                proof {
                    assert(self.abs() =~~= step(old(self).abs(), Event::Deliver(byte)));
                }
                accepted
            },
            _ => {
                proof {
                    assert(self.abs() =~~= step(old(self).abs(), Event::Deliver(byte)));
                }
                false
            },
        }
    }

    /// The completion interrupt: the DMA channel signals completion and the
    /// handler runs.  With a receive in flight, the handler moves the filled
    /// buffer into the shared slot and raises the ready flag; a signal with
    /// none in flight belongs to another source on the shared interrupt line
    /// and is ignored.
    pub fn complete_interrupt(&mut self)
        requires
            old(self).wf(),
        ensures
            final(self).wf(),
            final(self).abs() == step(old(self).abs(), Event::Complete),
    {
        proof {
            lemma_step_inv(old(self).abs(), Event::Complete);
        }
        if self.halted {
            return;
        }
        match self.home {
            BufferHome::Armed => {
                // Write the completed buffer into the shared slot, then
                // raise the ready flag: poll observes the flag only after
                // the slot is populated.
                self.home = BufferHome::InSlot;
                self.ready = true;
            },
            _ => {},
        }
        proof {
            assert(self.abs() =~~= step(old(self).abs(), Event::Complete));
        }
    }

    /// The drain path, called cooperatively by the application; returns at
    /// once when nothing is ready.  Otherwise it lowers the ready flag,
    /// takes the buffer out of the shared slot, pops every byte into the
    /// read window in arrival order, and re-arms the receive channel.
    /// Fatal Halt if the slot is unexpectedly empty, if the drain would
    /// overflow the read window, or if the hardware refuses the re-arm.
    pub fn poll(&mut self)
        requires
            old(self).wf(),
        ensures
            final(self).wf(),
            final(self).abs() == step(old(self).abs(), Event::Poll),
    {
        proof {
            lemma_step_inv(old(self).abs(), Event::Poll);
        }
        if self.halted {
            return;
        }
        if !self.ready {
            return;
        }
        // Lower the flag first: it gates exactly one drain cycle, so a
        // completion signaled after this point belongs to the next cycle.
        self.ready = false;
        match self.home {
            BufferHome::InSlot => {},
            _ => {
                // Ready without a populated slot: the protocol invariant is
                // broken — Fatal Halt.  Unreachable from any well-formed
                // state, as the invariant makes the flag imply a full slot.
                self.halted = true;
                proof {
                    assert(self.abs() =~~= step(old(self).abs(), Event::Poll));
                }
                return;
            },
        }
        // Take the buffer out of the slot into the drain scope.
        self.home = BufferHome::Draining;
        if self.window.len() + self.ring.len() > WINDOW_CAPACITY {
            // The drain would overflow the read window — Fatal Halt.
            self.halted = true;
            proof {
                assert(self.abs() =~~= step(old(self).abs(), Event::Poll));
            }
            return;
        }
        // Pop every byte out of the buffer, in order, appending each to the
        // read window at the cursor.
        let ghost w0 = self.window@;
        let ghost r0 = self.ring@;
        while self.ring.len() > 0
            invariant
                self.ring.wf(),
                self.ring.reserved() == RING_RESERVED,
                self.window@ + self.ring@ == w0 + r0,
                w0.len() + r0.len() <= WINDOW_CAPACITY,
                self.home is Draining,
                !self.ready,
                !self.halted,
                self.arm_refused == old(self).arm_refused,
                self.taken@ == old(self).taken@,
                self.delivered@ == old(self).delivered@,
            decreases self.ring@.len(),
        {
            let byte = self.ring.pop();
            match byte {
                Some(b) => {
                    self.window.push(b);
                    proof {
                        assert(self.window@ + self.ring@ =~= w0 + r0);
                    }
                },
                None => {},
            }
        }
        proof {
            assert(self.window@ =~= w0 + r0);
        }
        // Re-arm: reserve the lookahead region anew and issue the
        // start-receive command.
        self.ring.reserve(RING_RESERVED);
        if self.arm_refused {
            // The hardware rejected start-receive — Fatal Halt.
            self.halted = true;
            proof {
                assert(self.abs() =~~= step(old(self).abs(), Event::Poll));
            }
            return;
        }
        self.home = BufferHome::Armed;
        proof {
            assert(self.ring@ =~= Seq::<u8>::empty());
            assert(self.abs() =~~= step(old(self).abs(), Event::Poll));
        }
    }

    /// The valid, unconsumed bytes: the read window's prefix up to the
    /// cursor, oldest first.
    pub fn get_buffer(&self) -> (r: &[u8])
        ensures
            r@ == self.abs().window,
    {
        self.window.as_slice()
    }

    /// Remove the first `count` bytes from the read window, clamped to the
    /// available length, shifting the remainder to the front.
    pub fn consume(&mut self, count: usize)
        requires
            old(self).wf(),
        ensures
            final(self).wf(),
            final(self).abs() == step(old(self).abs(), Event::Consume(count as nat)),
            !old(self).abs().halted ==> final(self).abs().window == old(self).abs().window.skip(
                clamped(count as nat, old(self).abs().window.len()) as int,
            ),
            !old(self).abs().halted && count == 0 ==> final(self).abs().window == old(self).abs().window,
            !old(self).abs().halted && count >= old(self).abs().window.len()
                ==> final(self).abs().window == Seq::<u8>::empty(),
    {
        proof {
            lemma_step_inv(old(self).abs(), Event::Consume(count as nat));
        }
        if self.halted {
            return;
        }
        let c = if count < self.window.len() {
            count
        } else {
            self.window.len()
        };
        let ghost w0 = self.window@;
        let mut i: usize = 0;
        while i < c
            invariant
                i <= c,
                c <= w0.len(),
                self.window@ == w0.skip(i as int),
                self.ring == old(self).ring,
                self.home == old(self).home,
                self.ready == old(self).ready,
                !self.halted,
                self.arm_refused == old(self).arm_refused,
                self.taken@ == old(self).taken@,
                self.delivered@ == old(self).delivered@,
            decreases c - i,
        {
            self.window.remove(0);
            i = i + 1;
            proof {
                assert(self.window@ =~= w0.skip(i as int));
            }
        }
        self.taken = Ghost(self.taken@ + w0.take(c as int));
        proof {
            assert(self.abs() =~~= step(old(self).abs(), Event::Consume(count as nat)));
            assert(w0.skip(0) =~= w0);
            if count >= w0.len() {
                assert(w0.skip(w0.len() as int) =~= Seq::<u8>::empty());
            }
        }
    }

    /// Reset the cursor to zero, discarding all buffered content; used for
    /// resynchronization after a protocol error detected by a higher layer.
    pub fn clear(&mut self)
        requires
            old(self).wf(),
        ensures
            final(self).wf(),
            final(self).abs() == step(old(self).abs(), Event::Clear),
            !old(self).abs().halted ==> final(self).abs().window == Seq::<u8>::empty(),
    {
        proof {
            lemma_step_inv(old(self).abs(), Event::Clear);
        }
        if self.halted {
            return;
        }
        self.taken = Ghost(self.taken@ + self.window@);
        self.window.clear();
        proof {
            assert(self.abs() =~~= step(old(self).abs(), Event::Clear));
        }
    }

    /// Fault injection on the hardware model: the next start-receive
    /// command will be refused, as a busy or misconfigured channel would
    /// refuse it.
    pub fn refuse_next_arm(&mut self)
        requires
            old(self).wf(),
        ensures
            final(self).wf(),
            final(self).abs() == step(old(self).abs(), Event::RefuseArm),
    {
        proof {
            lemma_step_inv(old(self).abs(), Event::RefuseArm);
        }
        if self.halted {
            return;
        }
        self.arm_refused = true;
        proof {
            assert(self.abs() =~~= step(old(self).abs(), Event::RefuseArm));
        }
    }

    /// Whether Fatal Halt has been reached.
    pub fn is_halted(&self) -> (r: bool)
        ensures
            r == self.abs().halted,
    {
        self.halted
    }
}

} // verus!
